//! UTF-16, the text encoding of the Windows interfaces.

use vstd::prelude::*;

use crate::text;

verus! {

/// `char::from_u32` gives the character with the given code point, and nothing for
/// a number that is none: a surrogate, or one beyond 0x10FFFF.
pub assume_specification[ char::from_u32 ](i: u32) -> (c: Option<char>)
    ensures
        c is Some == (i <= 0xD7FF || (0xE000 <= i && i <= 0x10FFFF)),
        c matches Some(c) ==> c as u32 == i,
;

/// The character that stands for what could not be decoded.
pub const REPLACEMENT: char = '\u{FFFD}';

/// The first unit of a pair.
pub open spec fn is_high(unit: u16) -> bool {
    0xD800 <= unit <= 0xDBFF
}

/// The second unit of a pair.
pub open spec fn is_low(unit: u16) -> bool {
    0xDC00 <= unit <= 0xDFFF
}

/// The units of one character: itself, or a pair for one beyond 0xFFFF.
pub open spec fn units_of(c: char) -> Seq<u16> {
    let code = c as u32;
    if code < 0x10000 {
        seq![code as u16]
    } else {
        seq![
            (0xD800 + (code - 0x10000) / 0x400) as u16,
            (0xDC00 + (code - 0x10000) % 0x400) as u16,
        ]
    }
}

/// The UTF-16 encoding of a text.
pub open spec fn encoded(s: Seq<char>) -> Seq<u16>
    decreases s.len(),
{
    if s.len() == 0 {
        Seq::empty()
    } else {
        units_of(s[0]) + encoded(s.drop_first())
    }
}

/// The character that a pair of units stands for.
pub open spec fn paired(high: u16, low: u16) -> char {
    (0x10000 + (high - 0xD800) * 0x400 + (low - 0xDC00)) as u32 as char
}

/// The text that the units stand for. A unit of a broken pair counts as
/// [`REPLACEMENT`].
pub open spec fn decoded(units: Seq<u16>) -> Seq<char>
    decreases units.len(),
{
    if units.len() == 0 {
        Seq::empty()
    } else if !is_high(units[0]) && !is_low(units[0]) {
        seq![units[0] as u32 as char] + decoded(units.skip(1))
    } else if is_high(units[0]) && units.len() > 1 && is_low(units[1]) {
        seq![paired(units[0], units[1])] + decoded(units.skip(2))
    } else {
        seq![REPLACEMENT] + decoded(units.skip(1))
    }
}

/// The units of a character: one that is no surrogate, or a high and a low one.
proof fn lemma_units_of(c: char)
    ensures
        c as u32 <= 0x10FFFF,
        (c as u32) < 0x10000 ==> units_of(c).len() == 1 && units_of(c)[0] == c as u32 && !is_high(
            units_of(c)[0],
        ) && !is_low(units_of(c)[0]),
        c as u32 >= 0x10000 ==> units_of(c).len() == 2 && is_high(units_of(c)[0]) && is_low(
            units_of(c)[1],
        ) && units_of(c)[0] == 0xD800 + (c as u32 - 0x10000) / 0x400 && units_of(c)[1] == 0xDC00 + (
        c as u32 - 0x10000) % 0x400,
{
}

/// Encoding one more character appends its units.
proof fn lemma_encoded_push(s: Seq<char>, c: char)
    ensures
        encoded(s.push(c)) == encoded(s) + units_of(c),
    decreases s.len(),
{
    let longer = s.push(c);
    if s.len() == 0 {
        assert(encoded(longer.drop_first()) =~= Seq::empty());
        assert(encoded(s) =~= Seq::empty());
        assert(encoded(longer) =~= units_of(c));
    } else {
        lemma_encoded_push(s.drop_first(), c);
        assert(longer.drop_first() =~= s.drop_first().push(c));
        assert(encoded(longer) =~= encoded(s) + units_of(c));
    }
}

/// Encodes `s`, as `str::encode_utf16` does.
pub fn encode_utf16(s: &str) -> (units: Vec<u16>)
    ensures
        units@ == encoded(s@),
{
    let chars = text::chars_of(s);
    let mut units: Vec<u16> = Vec::new();
    let mut i: usize = 0;
    assert(encoded(chars@.take(0)) =~= Seq::empty());
    while i < chars.len()
        invariant
            i <= chars@.len(),
            units@ == encoded(chars@.take(i as int)),
        decreases chars@.len() - i,
    {
        let code = chars[i] as u32;
        let ghost c = chars@[i as int];
        proof {
            assert(chars@.take(i + 1) =~= chars@.take(i as int).push(c));
            lemma_encoded_push(chars@.take(i as int), c);
        }
        proof {
            lemma_units_of(c);
        }
        let ghost before = units@;
        if code < 0x10000 {
            units.push(code as u16);
        } else {
            units.push((0xD800 + (code - 0x10000) / 0x400) as u16);
            units.push((0xDC00 + (code - 0x10000) % 0x400) as u16);
        }
        assert(units@ =~= before + units_of(c));
        i += 1;
    }
    assert(chars@.take(chars@.len() as int) == chars@);
    units
}

/// Decodes `units`, as `String::from_utf16_lossy` does.
pub fn decode_utf16_lossy(units: &[u16]) -> (s: String)
    ensures
        s@ == decoded(units@),
{
    let mut s = String::new();
    let mut i: usize = 0;
    assert(units@.skip(0) == units@);
    while i < units.len()
        invariant
            i <= units@.len(),
            s@ + decoded(units@.skip(i as int)) == decoded(units@),
        decreases units@.len() - i,
    {
        let ghost rest = units@.skip(i as int);
        let ghost before = s@;
        let unit = units[i];
        assert(rest[0] == unit);
        let mut step: usize = 1;
        let mut code: u32 = unit as u32;
        if 0xD800 <= unit && unit <= 0xDFFF {
            code = 0xFFFD;
            if unit <= 0xDBFF && i + 1 < units.len() {
                let next = units[i + 1];
                assert(rest[1] == next);
                if 0xDC00 <= next && next <= 0xDFFF {
                    code = 0x10000 + (unit as u32 - 0xD800) * 0x400 + (next as u32 - 0xDC00);
                    step = 2;
                }
            }
        }
        let c = match char::from_u32(code) {
            Some(c) => c,
            None => REPLACEMENT,
        };
        s.push(c);
        proof {
            vstd::utf8::char_u32_cast(c, code);
            assert(rest.skip(step as int) == units@.skip(i + step));
            assert(decoded(rest) =~= seq![c] + decoded(rest.skip(step as int)));
            assert(s@ + decoded(rest.skip(step as int)) =~= before + decoded(rest));
        }
        i += step;
    }
    assert(s@ + decoded(units@.skip(i as int)) =~= s@);
    s
}

/// Decoding an encoded text gives the text back.
pub proof fn law_decoding_undoes_encoding(s: Seq<char>)
    ensures
        decoded(encoded(s)) == s,
    decreases s.len(),
{
    if s.len() == 0 {
        assert(decoded(encoded(s)) =~= s);
    } else {
        let c = s[0];
        let rest = s.drop_first();
        let units = encoded(s);
        lemma_units_of(c);
        law_decoding_undoes_encoding(rest);
        let code = c as u32;
        if code < 0x10000 {
            assert(units[0] == code as u16);
            assert(units.skip(1) =~= encoded(rest));
            vstd::utf8::char_u32_cast(c, units[0] as u32);
        } else {
            assert(units[0] == units_of(c)[0]);
            assert(units[1] == units_of(c)[1]);
            assert(units.skip(2) =~= encoded(rest));
            let v = (code - 0x10000) as int;
            assert(v / 0x400 < 0x400);
            assert((v / 0x400) * 0x400 + v % 0x400 == v);
            vstd::utf8::char_u32_cast(c, code);
            assert(paired(units[0], units[1]) == c);
        }
        assert(decoded(units) =~= seq![c] + rest);
        assert(seq![c] + rest =~= s);
    }
}

/// In an encoded text every high unit has a low one behind it.
proof fn lemma_high_before_low(s: Seq<char>, i: int)
    requires
        0 <= i < encoded(s).len(),
        is_high(encoded(s)[i]),
    ensures
        i + 1 < encoded(s).len(),
        is_low(encoded(s)[i + 1]),
    decreases s.len(),
{
    let units = units_of(s[0]);
    let rest = encoded(s.drop_first());
    lemma_units_of(s[0]);
    if i >= units.len() {
        assert(encoded(s)[i] == rest[i - units.len()]);
        lemma_high_before_low(s.drop_first(), i - units.len());
        assert(encoded(s)[i + 1] == rest[i - units.len() + 1]);
    } else {
        assert(encoded(s)[i] == units[i]);
    }
}

/// The first `n` units of an encoded text encode its first characters, unless the
/// cut falls behind a high unit.
proof fn lemma_clean_cut(s: Seq<char>, n: int) -> (k: int)
    requires
        0 <= n <= encoded(s).len(),
        n > 0 ==> !is_high(encoded(s)[n - 1]),
    ensures
        0 <= k <= s.len(),
        encoded(s).take(n) == encoded(s.take(k)),
        n == encoded(s).len() ==> k == s.len(),
    decreases s.len(),
{
    if s.len() == 0 {
        assert(encoded(s).take(n) =~= encoded(s.take(0)));
        0
    } else if n == 0 {
        assert(encoded(s.take(0)) =~= Seq::empty());
        assert(encoded(s).take(n) =~= encoded(s.take(0)));
        assert(encoded(s).len() > 0);
        0
    } else {
        let units = units_of(s[0]);
        let rest = s.drop_first();
        lemma_units_of(s[0]);
        if n < units.len() {
            assert(encoded(s)[n - 1] == units[0]);
        }
        if n > units.len() {
            assert(encoded(s)[n - 1] == encoded(rest)[n - 1 - units.len()]);
        }
        let k = lemma_clean_cut(rest, n - units.len());
        assert(s.take(k + 1).drop_first() =~= rest.take(k));
        assert(encoded(s).take(n) =~= units + encoded(rest).take(n - units.len()));
        k + 1
    }
}

/// How many units of a text fit in a buffer of `size` units in front of the
/// terminating zero, when no pair may be cut in two.
pub open spec fn fitting(units: Seq<u16>, size: nat) -> nat {
    let room = if units.len() < size {
        units.len()
    } else {
        (size - 1) as nat
    };
    if room > 0 && is_high(units[room - 1]) {
        (room - 1) as nat
    } else {
        room
    }
}

/// What stands in a buffer after a text was copied into it: the units that fit, a
/// zero, and behind it what was there before.
pub open spec fn copied(s: Seq<char>, buf: Seq<u16>) -> Seq<u16> {
    let units = encoded(s);
    let len = fitting(units, buf.len());
    units.take(len as int).push(0) + buf.skip(len as int + 1)
}

/// Copies a text into a fixed-size wide buffer (truncates to fit).
pub fn copy_wide<const N: usize>(s: &str, buf: &mut [u16; N])
    requires
        N >= 1,
    ensures
        final(buf)@ == copied(s@, old(buf)@),
{
    let wide = encode_utf16(s);
    let mut len: usize = if wide.len() < N {
        wide.len()
    } else {
        N - 1
    };
    // Don't leave a lone high surrogate at the truncation point.
    if len > 0 && 0xD800 <= wide[len - 1] && wide[len - 1] <= 0xDBFF {
        len -= 1;
    }
    let mut i: usize = 0;
    while i < len
        invariant
            i <= len < N,
            len <= wide@.len(),
            buf@.len() == N,
            forall|j: int| 0 <= j < i ==> buf@[j] == wide@[j],
            forall|j: int| i <= j < N ==> buf@[j] == old(buf)@[j],
        decreases len - i,
    {
        buf[i] = wide[i];
        i += 1;
    }
    buf[len] = 0;
    assert(buf@ =~= copied(s@, old(buf)@));
}

/// What is copied into a buffer is a whole prefix of the text: the units in front
/// of the zero decode to the text's first characters, and to all of them where the
/// text fits.
pub proof fn law_copied_text_is_a_prefix(s: Seq<char>, buf: Seq<u16>)
    requires
        buf.len() >= 1,
    ensures
        fitting(encoded(s), buf.len()) < buf.len(),
        copied(s, buf).len() == buf.len(),
        copied(s, buf)[fitting(encoded(s), buf.len()) as int] == 0,
        exists|k: int|
            0 <= k <= s.len() && #[trigger] s.take(k) == decoded(
                copied(s, buf).take(fitting(encoded(s), buf.len()) as int),
            ),
        encoded(s).len() < buf.len() ==> decoded(
            copied(s, buf).take(fitting(encoded(s), buf.len()) as int),
        ) == s,
{
    let units = encoded(s);
    let room = if units.len() < buf.len() {
        units.len() as int
    } else {
        buf.len() - 1
    };
    let len = fitting(units, buf.len()) as int;
    if room > 0 && is_high(units[room - 1]) {
        lemma_high_before_low(s, room - 1);
        if room > 1 && is_high(units[room - 2]) {
            lemma_high_before_low(s, room - 2);
        }
    }
    let k = lemma_clean_cut(s, len);
    assert(copied(s, buf).take(len) =~= units.take(len));
    law_decoding_undoes_encoding(s.take(k));
    assert(s.take(k) == decoded(copied(s, buf).take(len)));
    if units.len() < buf.len() {
        assert(s.take(k) =~= s);
    }
}

/// The zero-terminated encoding of a text.
pub open spec fn zero_terminated(s: Seq<char>) -> Seq<u16> {
    encoded(s).push(0)
}

/// A text that does not fit is cut as late as possible: not more than one unit of the buffer
/// stays unused in front of the zero, and that only where it would be half of a pair. What
/// stands in the buffer behind the zero is left as it was.
pub proof fn law_copied_text_uses_the_buffer(s: Seq<char>, buf: Seq<u16>, i: int)
    requires
        buf.len() >= 1,
    ensures
        ({
            let len = fitting(encoded(s), buf.len());
            &&& encoded(s).len() >= buf.len() ==> len + 2 >= buf.len()
            &&& encoded(s).len() >= buf.len() && len + 1 < buf.len() ==> 0xD800
                <= encoded(s)[len as int] <= 0xDBFF
            &&& 0 <= i < len ==> copied(s, buf)[i] == encoded(s)[i]
            &&& len < i < buf.len() ==> copied(s, buf)[i] == buf[i]
        }),
{
}

/// A unit of a broken pair counts as the replacement character: a second unit without a first
/// one, and a first unit without a second one behind it. What follows is read as it stands.
pub proof fn law_broken_pairs_are_replaced(unit: u16, rest: Seq<u16>)
    requires
        0xD800 <= unit <= 0xDFFF,
        unit <= 0xDBFF ==> rest.len() == 0 || !(0xDC00 <= rest[0] <= 0xDFFF),
    ensures
        decoded(seq![unit] + rest) == seq!['\u{FFFD}'] + decoded(rest),
{
    let units = seq![unit] + rest;
    assert(units.skip(1) =~= rest);
    assert(units.len() > 1 ==> units[1] == rest[0]);
}

} // verus!
