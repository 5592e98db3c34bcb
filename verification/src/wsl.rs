//! What the Windows Subsystem for Linux prints: its text encoding, and the names of its
//! distributions.

use vstd::prelude::*;
use vstd::utf8::*;

use crate::text;
use crate::utf16;

verus! {

/// The text that `bytes` are taken for as UTF-8, with replacement characters for what is
/// none.
pub uninterp spec fn utf8_lossy(bytes: Seq<u8>) -> Seq<char>;

/// `String::from_utf8_lossy` depends on the bytes alone, and bytes that are valid UTF-8
/// come out as the text that they encode.
#[verifier::external_body]
pub(crate) fn decode_utf8_lossy(bytes: &[u8]) -> (s: String)
    ensures
        s@ == utf8_lossy(bytes@),
        valid_utf8(bytes@) ==> s@ == decode_utf8(bytes@),
{
    String::from_utf8_lossy(bytes).into_owned()
}

/// How many of the first `units` byte pairs have a zero as their second byte.
pub open spec fn zero_high_bytes(bytes: Seq<u8>, units: nat) -> nat
    decreases units,
{
    if units == 0 {
        0
    } else {
        zero_high_bytes(bytes, (units - 1) as nat) + if bytes[2 * units - 1] == 0 {
            1nat
        } else {
            0nat
        }
    }
}

/// How many byte pairs of the text are looked at: those within the first 128 bytes.
pub open spec fn sampled_units(bytes: Seq<u8>) -> nat {
    if bytes.len() < 128 {
        bytes.len() / 2
    } else {
        64
    }
}

/// At least half of the sampled byte pairs have a zero high byte.
pub open spec fn resembles_utf16le(bytes: Seq<u8>) -> bool {
    sampled_units(bytes) > 0 && 2 * zero_high_bytes(bytes, sampled_units(bytes)) >= sampled_units(
        bytes,
    )
}

/// Guesses whether the bytes are UTF-16LE without a byte order mark.
pub fn looks_like_utf16le(bytes: &[u8]) -> (yes: bool)
    ensures
        yes == resembles_utf16le(bytes@),
{
    let sample_len = if bytes.len() < 128 {
        bytes.len()
    } else {
        128
    };
    let units = sample_len / 2;
    if units == 0 {
        return false;
    }
    let mut zeros: usize = 0;
    let mut i: usize = 0;
    while i < units
        invariant
            i <= units <= 64,
            2 * units <= bytes@.len(),
            zeros == zero_high_bytes(bytes@, i as nat),
            zeros <= i,
        decreases units - i,
    {
        if bytes[2 * i + 1] == 0 {
            zeros += 1;
        }
        i += 1;
    }
    zeros * 2 >= units
}

/// The 16-bit units of a sequence of bytes, low byte first.
pub open spec fn little_endian_units(bytes: Seq<u8>) -> Seq<u16> {
    Seq::new(bytes.len() / 2, |i: int| (bytes[2 * i] + 256 * bytes[2 * i + 1]) as u16)
}

/// The bytes begin with the UTF-16LE byte order mark.
pub open spec fn has_byte_order_mark(bytes: Seq<u8>) -> bool {
    bytes.len() >= 2 && bytes[0] == 0xFF && bytes[1] == 0xFE
}

/// The text of UTF-16LE bytes, which are recognised by a byte order mark or by their look.
pub open spec fn utf16le_text(bytes: Seq<u8>) -> Option<Seq<char>> {
    if bytes.len() < 2 || bytes.len() % 2 != 0 {
        None
    } else if has_byte_order_mark(bytes) {
        Some(utf16::decoded(little_endian_units(bytes.skip(2))))
    } else if resembles_utf16le(bytes) {
        Some(utf16::decoded(little_endian_units(bytes)))
    } else {
        None
    }
}

/// Decodes UTF-16LE bytes; gives nothing for bytes that do not look like it.
pub fn decode_utf16le(bytes: &[u8]) -> (decoded: Option<String>)
    ensures
        decoded is Some == utf16le_text(bytes@) is Some,
        decoded matches Some(s) ==> utf16le_text(bytes@) == Some(s@),
{
    if bytes.len() < 2 || bytes.len() % 2 != 0 {
        return None;
    }
    let from: usize = if bytes[0] == 0xFF && bytes[1] == 0xFE {
        2
    } else if looks_like_utf16le(bytes) {
        0
    } else {
        return None;
    };
    let ghost body = bytes@.skip(from as int);
    let mut units: Vec<u16> = Vec::new();
    let mut i: usize = from;
    while i < bytes.len()
        invariant
            from <= i <= bytes@.len(),
            (i - from) % 2 == 0,
            bytes@.len() % 2 == 0,
            from % 2 == 0,
            body == bytes@.skip(from as int),
            units@.len() == (i - from) / 2,
            units@ == little_endian_units(body).take((i - from) / 2),
        decreases bytes@.len() - i,
    {
        let ghost k = (i - from) / 2;
        assert(body[2 * k] == bytes@[i as int] && body[2 * k + 1] == bytes@[i + 1]);
        units.push(bytes[i] as u16 + 256 * bytes[i + 1] as u16);
        assert(units@ =~= little_endian_units(body).take(k + 1));
        i += 2;
    }
    assert(units@ =~= little_endian_units(body));
    if from == 0 {
        assert(body =~= bytes@);
    }
    Some(utf16::decode_utf16_lossy(&units))
}

/// The text that a program of the subsystem printed.
pub open spec fn wsl_text(bytes: Seq<u8>) -> Seq<char> {
    if bytes.len() == 0 {
        Seq::empty()
    } else {
        match utf16le_text(bytes) {
            Some(s) => s,
            None => utf8_lossy(bytes),
        }
    }
}

/// Decodes what `wsl.exe` prints: UTF-16LE where it looks like it, else UTF-8.
pub fn decode_wsl_text(bytes: &[u8]) -> (s: String)
    ensures
        s@ == wsl_text(bytes@),
        utf16le_text(bytes@) is None && valid_utf8(bytes@) ==> s@ == decode_utf8(bytes@),
        valid_utf8(bytes@) && !bytes@.contains(0) ==> s@ == decode_utf8(bytes@),
{
    proof {
        if valid_utf8(bytes@) && !bytes@.contains(0) {
            law_plain_text_is_not_utf16(bytes@);
        }
    }
    if bytes.len() == 0 {
        return String::new();
    }
    match decode_utf16le(bytes) {
        Some(decoded) => decoded,
        None => decode_utf8_lossy(bytes),
    }
}

/// Bytes without a zero have no zero high bytes.
proof fn lemma_no_zero_high_bytes(bytes: Seq<u8>, units: nat)
    requires
        !bytes.contains(0),
        2 * units <= bytes.len(),
    ensures
        zero_high_bytes(bytes, units) == 0,
    decreases units,
{
    if units > 0 {
        lemma_no_zero_high_bytes(bytes, (units - 1) as nat);
        assert(bytes.contains(bytes[2 * (units - 1) + 1]));
    }
}

/// UTF-8 text without a zero is never taken for UTF-16.
pub proof fn law_plain_text_is_not_utf16(bytes: Seq<u8>)
    requires
        valid_utf8(bytes),
        !bytes.contains(0),
    ensures
        utf16le_text(bytes) is None,
        bytes.len() > 0 ==> wsl_text(bytes) == utf8_lossy(bytes),
{
    lemma_no_zero_high_bytes(bytes, sampled_units(bytes));
    if has_byte_order_mark(bytes) {
        assert(valid_first_scalar(bytes));
        assert(!is_leading_byte_width_1(0xFF) && !is_leading_byte_width_2(0xFF)
            && !is_leading_byte_width_3(0xFF) && !is_leading_byte_width_4(0xFF));
    }
}

/// The bytes of a text in UTF-16LE, behind a byte order mark.
pub open spec fn marked_utf16le(s: Seq<char>) -> Seq<u8> {
    seq![0xFFu8, 0xFEu8] + little_endian_bytes(utf16::encoded(s))
}

/// The bytes of 16-bit units, low byte first.
pub open spec fn little_endian_bytes(units: Seq<u16>) -> Seq<u8> {
    Seq::new(
        2 * units.len(),
        |i: int|
            if i % 2 == 0 {
                (units[i / 2] % 256) as u8
            } else {
                (units[i / 2] / 256) as u8
            },
    )
}

/// A text that was written in UTF-16LE with a byte order mark is read back.
pub proof fn law_marked_text_reads_back(s: Seq<char>)
    ensures
        wsl_text(marked_utf16le(s)) == s,
{
    let units = utf16::encoded(s);
    let bytes = marked_utf16le(s);
    assert(bytes.skip(2) =~= little_endian_bytes(units));
    assert forall|i: int| 0 <= i < units.len() implies little_endian_units(
        little_endian_bytes(units),
    )[i] == units[i] by {
        let b = little_endian_bytes(units);
        assert(b[2 * i] == (units[i] % 256) as u8);
        assert(b[2 * i + 1] == (units[i] / 256) as u8);
    }
    assert(little_endian_units(little_endian_bytes(units)) =~= units);
    utf16::law_decoding_undoes_encoding(s);
}

/// What a distribution may be called: letters and digits, spaces, hyphens, underscores
/// and dots, at least one and at most 256 bytes.
pub open spec fn safe_name(name: Seq<char>) -> bool {
    &&& name.len() > 0
    &&& encode_utf8(name).len() <= 256
    &&& forall|i: int| 0 <= i < name.len() ==> safe_character(#[trigger] name[i])
}

/// A character that may stand in the name of a distribution.
pub open spec fn safe_character(c: char) -> bool {
    text::alphanumeric(c) || c == ' ' || c == '-' || c == '_' || c == '.'
}

/// No character of ASCII but a letter, a digit, a space, a hyphen, an underscore or a
/// dot: none that a shell gives a meaning to.
pub open spec fn without_metacharacters(name: Seq<char>) -> bool {
    forall|i: int|
        0 <= i < name.len() && #[trigger] name[i] as u32 <= 127 ==> text::ascii_alphanumeric(name[i])
            || name[i] == ' ' || name[i] == '-' || name[i] == '_' || name[i] == '.'
}

/// A name of at most 256 characters, each an ASCII letter or digit, a space, a hyphen, an
/// underscore or a dot, and at least one.
pub open spec fn plain_name(name: Seq<char>) -> bool {
    &&& 0 < name.len() <= 256
    &&& forall|i: int| 0 <= i < name.len() ==> plain_character(#[trigger] name[i])
}

/// An ASCII character that may stand in the name of a distribution.
pub open spec fn plain_character(c: char) -> bool {
    text::ascii_alphanumeric(c) || c == ' ' || c == '-' || c == '_' || c == '.'
}

/// Tests the name of a distribution. Names from WSL should only contain alphanumerics,
/// spaces, hyphens, underscores and dots; anything that looks like shell metacharacters
/// is rejected.
pub fn is_safe_wsl_distro_name(name: &str) -> (yes: bool)
    ensures
        yes == safe_name(name@),
        yes ==> without_metacharacters(name@),
        plain_name(name@) ==> yes,
{
    proof {
        if plain_name(name@) {
            assert(is_ascii_chars(name@)) by {
                assert forall|i: int| 0 <= i < name@.len() implies 0 <= #[trigger] name@[i] as nat
                    && (name@[i] as nat) < 128 by {
                    assert(plain_character(name@[i]));
                }
            }
            is_ascii_chars_encode_utf8(name@);
        }
    }
    if name.is_empty() || name.as_bytes().len() > 256 {
        return false;
    }
    let chars = text::chars_of(name);
    let mut i: usize = 0;
    while i < chars.len()
        invariant
            i <= chars@.len(),
            chars@ == name@,
            forall|j: int| 0 <= j < i ==> safe_character(#[trigger] chars@[j]),
            without_metacharacters(chars@.take(i as int)),
        decreases chars@.len() - i,
    {
        let c = chars[i];
        if !(text::is_alphanumeric(c) || c == ' ' || c == '-' || c == '_' || c == '.') {
            assert(!safe_character(name@[i as int]));
            assert(!plain_character(name@[i as int]));
            return false;
        }
        assert(chars@.take(i + 1) =~= chars@.take(i as int).push(c));
        i += 1;
    }
    assert(chars@.take(i as int) =~= name@);
    true
}

/// The distributions that a listing names: its lines without the whitespace around them,
/// but for those that are no safe name.
pub open spec fn listed_distros(listing: Seq<char>) -> Seq<Seq<char>> {
    text::text_lines(listing).map_values(|line: Seq<char>| text::trimmed(line)).filter(
        |name: Seq<char>| safe_name(name),
    )
}

/// The views of a list of strings.
pub open spec fn string_views(strings: Seq<String>) -> Seq<Seq<char>> {
    strings.map_values(|s: String| s@)
}

/// The names of the installed distributions, from what `wsl.exe -l -q` printed. There are
/// none if it failed.
pub fn list_wsl_distros(stdout: Option<&[u8]>) -> (names: Vec<String>)
    ensures
        match stdout {
            None => names@.len() == 0,
            Some(bytes) => string_views(names@) == listed_distros(wsl_text(bytes@)),
        },
        forall|i: int|
            0 <= i < names@.len() ==> safe_name(#[trigger] names@[i]@) && without_metacharacters(
                names@[i]@,
            ),
{
    let mut names: Vec<String> = Vec::new();
    let bytes = match stdout {
        Some(bytes) => bytes,
        None => return names,
    };
    let listing = decode_wsl_text(bytes);
    let lines = text::lines(&text::chars_of(listing.as_str()));
    let ghost safe = |name: Seq<char>| safe_name(name);
    let ghost trimmed = text::text_lines(listing@).map_values(|line: Seq<char>| text::trimmed(line));
    let mut i: usize = 0;
    assert(trimmed.take(0).filter(safe) =~= Seq::empty()) by {
        reveal(Seq::filter);
    }
    while i < lines.len()
        invariant
            i <= lines@.len(),
            text::views(lines@) == text::text_lines(listing@),
            trimmed == text::text_lines(listing@).map_values(
                |line: Seq<char>| text::trimmed(line),
            ),
            safe == (|name: Seq<char>| safe_name(name)),
            string_views(names@) == trimmed.take(i as int).filter(safe),
            forall|j: int|
                0 <= j < names@.len() ==> safe_name(#[trigger] names@[j]@)
                    && without_metacharacters(names@[j]@),
        decreases lines@.len() - i,
    {
        let line = text::trim(&lines[i]);
        let name = text::text_of(&line);
        let ghost before = names@;
        proof {
            assert(text::views(lines@)[i as int] == lines@[i as int]@);
            assert(trimmed[i as int] == name@);
            assert(trimmed.take(i + 1).drop_last() =~= trimmed.take(i as int));
            assert(trimmed.take(i + 1).last() == name@);
            reveal(Seq::filter);
        }
        if is_safe_wsl_distro_name(name.as_str()) {
            names.push(name);
            assert(string_views(names@) =~= string_views(before).push(name@));
        }
        i += 1;
    }
    assert(trimmed.take(lines@.len() as int) =~= trimmed);
    names
}

/// A text of ASCII is encoded as one unit for every character.
proof fn lemma_ascii_units(s: Seq<char>)
    requires
        forall|i: int| 0 <= i < s.len() ==> 0 < (#[trigger] s[i]) as int <= 127,
    ensures
        utf16::encoded(s).len() == s.len(),
        forall|i: int| 0 <= i < s.len() ==> #[trigger] utf16::encoded(s)[i] == s[i] as int,
    decreases s.len(),
{
    if s.len() > 0 {
        let rest = s.drop_first();
        assert forall|i: int| 0 <= i < rest.len() implies 0 < (#[trigger] rest[i]) as int
            <= 127 by {
            assert(rest[i] == s[i + 1]);
        }
        lemma_ascii_units(rest);
        assert(0 < s[0] as int <= 127);
        assert forall|i: int| 0 <= i < s.len() implies #[trigger] utf16::encoded(s)[i]
            == s[i] as int by {
            if i > 0 {
                assert(utf16::encoded(s)[i] == utf16::encoded(rest)[i - 1]);
            }
        }
    }
}

/// Where all high bytes are zero, all are counted.
proof fn lemma_all_high_bytes_zero(bytes: Seq<u8>, units: nat)
    requires
        forall|i: int| 0 <= i < units ==> #[trigger] bytes[2 * i + 1] == 0,
    ensures
        zero_high_bytes(bytes, units) == units,
    decreases units,
{
    if units > 0 {
        lemma_all_high_bytes_zero(bytes, (units - 1) as nat);
        assert(bytes[2 * (units - 1) + 1] == 0);
    }
}

/// A text of ASCII that was written in UTF-16LE without a byte order mark is read back too.
pub proof fn law_unmarked_ascii_reads_back(s: Seq<char>)
    requires
        forall|i: int| 0 <= i < s.len() ==> 0 < (#[trigger] s[i]) as int <= 127,
    ensures
        wsl_text(little_endian_bytes(utf16::encoded(s))) == s,
{
    let units = utf16::encoded(s);
    let bytes = little_endian_bytes(units);
    lemma_ascii_units(s);
    if s.len() > 0 {
        assert forall|i: int| 0 <= i < units.len() implies #[trigger] bytes[2 * i + 1] == 0
            && bytes[2 * i] == units[i] by {
            assert(units[i] == s[i] as int);
            assert(0 < s[i] as int <= 127);
        }
        lemma_all_high_bytes_zero(bytes, sampled_units(bytes));
        assert(bytes[2 * 0int + 1] == 0);
        assert(!has_byte_order_mark(bytes));
        assert(little_endian_units(bytes) =~= units);
        utf16::law_decoding_undoes_encoding(s);
    } else {
        assert(wsl_text(bytes) =~= s);
    }
}

/// The distributions of a listing come line by line: the first line without the whitespace
/// around it if that is a safe name, and then those of the rest.
pub proof fn law_distros_are_listed_line_by_line(line: Seq<char>, rest: Seq<char>)
    requires
        !line.contains('\n'),
    ensures
        listed_distros(line.push('\r').push('\n') + rest) == (if safe_name(text::trimmed(line)) {
            seq![text::trimmed(line)]
        } else {
            Seq::empty()
        }) + listed_distros(rest),
        listed_distros(Seq::empty()).len() == 0,
{
    let ended = line.push('\r');
    assert(!ended.contains('\n'));
    text::law_lines_one_by_one(ended, rest);
    text::law_lines_one_by_one(line, rest);
    text::law_lines_one_by_one(Seq::empty(), rest);
    let trim = |line: Seq<char>| text::trimmed(line);
    let safe = |name: Seq<char>| safe_name(name);
    let name = text::trimmed(line);
    let all = text::text_lines(ended.push('\n') + rest).map_values(trim);
    let others = text::text_lines(rest).map_values(trim);
    assert(all =~= seq![name] + others);
    Seq::filter_distributes_over_add(seq![name], others, safe);
    assert(seq![name].filter(safe) =~= (if safe_name(name) {
        seq![name]
    } else {
        Seq::empty()
    })) by {
        reveal_with_fuel(Seq::filter, 2);
        assert(seq![name].drop_last() =~= Seq::empty());
        assert(seq![name].last() == name);
    }
    assert(listed_distros(Seq::empty()) =~= Seq::empty()) by {
        reveal(Seq::filter);
        assert(text::text_lines(Seq::empty()).map_values(trim) =~= Seq::empty());
    }
}

/// A name is safe exactly if it has 1 to 256 bytes and every character is a letter, a digit,
/// a space, a hyphen, an underscore or a dot.
pub proof fn law_safe_names_in_numbers(name: Seq<char>)
    ensures
        safe_name(name) <==> 1 <= name.len() && encode_utf8(name).len() <= 256 && forall|i: int|
            0 <= i < name.len() ==> text::alphanumeric(#[trigger] name[i]) || seq![
                ' ',
                '-',
                '_',
                '.',
            ].contains(name[i]),
{
    let extra = seq![' ', '-', '_', '.'];
    assert forall|c: char| #[trigger] extra.contains(c) <==> c == ' ' || c == '-' || c == '_' || c
        == '.' by {
        assert(extra[0] == ' ' && extra[1] == '-' && extra[2] == '_' && extra[3] == '.');
    }
    if 1 <= name.len() && encode_utf8(name).len() <= 256 && !safe_name(name) {
        let i = choose|i: int| 0 <= i < name.len() && !safe_character(#[trigger] name[i]);
        assert(!(text::alphanumeric(name[i]) || extra.contains(name[i])));
    }
}

/// The guess in numbers: of the byte pairs within the first 128 bytes at least half have a
/// zero as their second byte. Bytes of an odd number are never taken for UTF-16.
pub proof fn law_utf16_guess_in_numbers(bytes: Seq<u8>, units: nat)
    requires
        bytes.len() < 128 ==> 2 * units <= bytes.len() < 2 * units + 2,
        bytes.len() >= 128 ==> units == 64,
    ensures
        resembles_utf16le(bytes) <==> units > 0 && 2 * zero_high_bytes(bytes, units) >= units,
        units > 0 ==> zero_high_bytes(bytes, units) == zero_high_bytes(bytes, (units - 1) as nat)
            + (if bytes[2 * units - 1] == 0 {
            1int
        } else {
            0
        }),
        bytes.len() % 2 != 0 ==> utf16le_text(bytes) is None,
{
}

} // verus!
