//! The numeric form of a version, as the resources of a Windows program carry it.

use vstd::prelude::*;

use crate::text;

verus! {

/// The largest number that a part of a version can have.
pub const MAX_PART: u64 = 65_535;

/// A part of a version: its number, no larger than the largest one; 0 if it is missing or
/// no number.
pub open spec fn version_part(parts: Seq<Seq<char>>, i: int) -> nat {
    if i >= parts.len() {
        0
    } else {
        match text::unsigned_number(parts[i], 10, u64::MAX as nat) {
            Some(n) => if n <= MAX_PART {
                n
            } else {
                MAX_PART as nat
            },
            None => 0,
        }
    }
}

/// Major, minor and patch number of a version such as `1.2.3-beta`. What follows the first
/// hyphen does not count.
pub open spec fn version_numbers(version: Seq<char>) -> (nat, nat, nat) {
    let parts = text::split_on(text::before_first(version, '-'), '.');
    (version_part(parts, 0), version_part(parts, 1), version_part(parts, 2))
}

/// Three numbers in one: 16 bits each, the last 16 bits are free.
pub open spec fn packed_version(numbers: (nat, nat, nat)) -> nat {
    numbers.0 * 0x1_0000_0000_0000 + numbers.1 * 0x1_0000_0000 + numbers.2 * 0x1_0000
}

/// Reads a part of a version (see [`version_part`]).
fn read_part(parts: &Vec<Vec<char>>, i: usize) -> (n: u64)
    ensures
        n == version_part(text::views(parts@), i as int),
        n <= MAX_PART,
{
    if i >= parts.len() {
        return 0;
    }
    assert(text::views(parts@)[i as int] == parts@[i as int]@);
    match text::parse_unsigned(&parts[i], 10, u64::MAX) {
        Some(n) => if n <= MAX_PART {
            n
        } else {
            MAX_PART
        },
        None => 0,
    }
}

/// Packs a version such as `1.2.3-beta` into one number.
pub fn pack_version(version: &str) -> (packed: u64)
    ensures
        packed == packed_version(version_numbers(version@)),
{
    let chars = text::chars_of(version);
    let end = text::find_first(&chars, '-');
    let core = text::slice_of(&chars, 0, end);
    assert(core@ =~= text::before_first(version@, '-'));
    let parts = text::split(&core, '.');
    let major = read_part(&parts, 0);
    let minor = read_part(&parts, 1);
    let patch = read_part(&parts, 2);
    let packed = (major << 48) | (minor << 32) | (patch << 16);
    assert(packed == major * 0x1_0000_0000_0000 + minor * 0x1_0000_0000 + patch * 0x1_0000)
        by (bit_vector)
        requires
            major <= 65_535,
            minor <= 65_535,
            patch <= 65_535,
            packed == (major << 48) | (minor << 32) | (patch << 16),
    ;
    packed
}

/// Three version numbers stand before three others: the first one in which they differ is
/// smaller.
pub open spec fn older(a: (nat, nat, nat), b: (nat, nat, nat)) -> bool {
    a.0 < b.0 || (a.0 == b.0 && (a.1 < b.1 || (a.1 == b.1 && a.2 < b.2)))
}

/// Packed versions are ordered as the versions are.
pub proof fn law_packed_versions_are_ordered(a: Seq<char>, b: Seq<char>)
    ensures
        older(version_numbers(a), version_numbers(b)) == (packed_version(version_numbers(a))
            < packed_version(version_numbers(b))),
{
}

/// A version that is written with three numbers is read as those, each no larger than 65535,
/// and packed into 16 bits each; what follows a hyphen does not count.
pub proof fn law_written_version_is_packed(major: nat, minor: nat, patch: nat, suffix: Seq<char>)
    requires
        major <= u64::MAX,
        minor <= u64::MAX,
        patch <= u64::MAX,
    ensures
        ({
            let core = text::decimal(major).push('.') + (text::decimal(minor).push('.')
                + text::decimal(patch));
            let cut = |n: nat| if n <= 65_535 {
                n as int
            } else {
                65_535
            };
            &&& packed_version(version_numbers(core)) == 0x1_0000_0000_0000 * cut(major)
                + 0x1_0000_0000 * cut(minor) + 0x1_0000 * cut(patch)
            &&& version_numbers(core.push('-') + suffix) == version_numbers(core)
        }),
{
    let a = text::decimal(major);
    let b = text::decimal(minor);
    let c = text::decimal(patch);
    let tail = b.push('.') + c;
    let core = a.push('.') + tail;
    text::law_signed_number_reads_back(major, u64::MAX as nat);
    text::law_signed_number_reads_back(minor, u64::MAX as nat);
    text::law_signed_number_reads_back(patch, u64::MAX as nat);
    lemma_only_digits(major);
    lemma_only_digits(minor);
    lemma_only_digits(patch);
    text::lemma_split_joined(a, tail, '.');
    text::lemma_split_joined(b, c, '.');
    text::lemma_split_whole(c, '.');
    assert(seq![a] + (seq![b] + seq![c]) =~= seq![a, b, c]);
    assert(!core.contains('-')) by {
        if core.contains('-') {
            let i = choose|i: int| 0 <= i < core.len() && core[i] == '-';
            if i < a.len() {
                assert(a.contains(a[i]));
            } else if i > a.len() {
                let k = i - a.len() - 1;
                assert(core[i] == tail[k]);
                if k < b.len() {
                    assert(b.contains(b[k]));
                } else if k > b.len() {
                    assert(c.contains(c[k - b.len() - 1]));
                }
            }
        }
    }
    text::lemma_first_absent(core, '-');
    text::lemma_first_joined(core, suffix, '-');
}

/// A decimal numeral holds no dot and no hyphen.
proof fn lemma_only_digits(n: nat)
    ensures
        !text::decimal(n).contains('.'),
        !text::decimal(n).contains('-'),
{
    text::law_decimal_reads_back(n);
    let s = text::decimal(n);
    assert forall|c: char| s.contains(c) implies text::digit(c) < 10 by {
        let i = choose|i: int| 0 <= i < s.len() && s[i] == c;
        assert(text::digit(s[i]) < 10);
    }
}

} // verus!
