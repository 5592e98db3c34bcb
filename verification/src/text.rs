//! Text as sequences of characters: splitting, trimming, reading and writing
//! integers.
//!
//! Every function here works on `&[char]` or `&Vec<char>` and is specified over
//! `Seq<char>`, the view that `str` and `String` have as well.

use vstd::prelude::*;
use vstd::string::*;

verus! {

/// `String::push` appends one character at the end of the string.
pub assume_specification[ String::push ](s: &mut String, c: char)
    ensures
        final(s)@ == old(s)@.push(c),
;

/// The characters of `s`, in order.
pub fn chars_of(s: &str) -> (chars: Vec<char>)
    ensures
        chars@ == s@,
{
    let mut chars: Vec<char> = Vec::new();
    for c in it: s.chars()
        invariant
            it.seq() == s@,
            chars@ == s@.take(it.index() as int),
    {
        chars.push(c);
    }
    assert(s@.take(s@.len() as int) == s@);
    chars
}

/// The string made of `chars`.
pub fn text_of(chars: &[char]) -> (s: String)
    ensures
        s@ == chars@,
{
    let mut s = String::new();
    let mut i: usize = 0;
    while i < chars.len()
        invariant
            i <= chars@.len(),
            s@ == chars@.take(i as int),
        decreases chars@.len() - i,
    {
        s.push(chars[i]);
        i += 1;
    }
    assert(chars@.take(chars@.len() as int) == chars@);
    s
}

/// An owned copy of `s`.
pub fn copy(s: &str) -> (owned: String)
    ensures
        owned@ == s@,
{
    s.to_string()
}

/// Appends `more` to `s`.
pub fn append(s: &mut String, more: &str)
    ensures
        final(s)@ == old(s)@ + more@,
{
    s.append(more)
}

/// A copy of `chars[from..to]`.
pub fn slice_of(chars: &[char], from: usize, to: usize) -> (part: Vec<char>)
    requires
        from <= to <= chars@.len(),
    ensures
        part@ == chars@.subrange(from as int, to as int),
{
    let mut part: Vec<char> = Vec::new();
    let mut i: usize = from;
    while i < to
        invariant
            from <= i <= to <= chars@.len(),
            part@ == chars@.subrange(from as int, i as int),
        decreases to - i,
    {
        part.push(chars[i]);
        i += 1;
    }
    part
}

/// The index of the first `c` in `s`, or the length of `s` where there is none.
pub open spec fn first_index(s: Seq<char>, c: char) -> int
    decreases s.len(),
{
    if s.len() == 0 {
        0
    } else if s[0] == c {
        0
    } else {
        1 + first_index(s.drop_first(), c)
    }
}

/// What stands before the first `c` of `s`; all of `s` where there is none.
pub open spec fn before_first(s: Seq<char>, c: char) -> Seq<char> {
    s.take(first_index(s, c))
}

/// What stands after the first `c` of `s`.
pub open spec fn after_first(s: Seq<char>, c: char) -> Seq<char> {
    s.skip(first_index(s, c) + 1)
}

/// `first_index` is the one index that has no `c` before it and stands on a `c`
/// or at the end.
pub proof fn lemma_first_index(s: Seq<char>, c: char, i: int)
    requires
        0 <= i <= s.len(),
        forall|j: int| 0 <= j < i ==> s[j] != c,
        i < s.len() ==> s[i] == c,
    ensures
        first_index(s, c) == i,
    decreases s.len(),
{
    if s.len() > 0 && s[0] != c {
        let rest = s.drop_first();
        assert forall|j: int| 0 <= j < i - 1 implies rest[j] != c by {
            assert(rest[j] == s[j + 1]);
        }
        lemma_first_index(rest, c, i - 1);
    }
}

/// Where the first `c` of `s` stands, if there is one.
pub proof fn lemma_first_index_found(s: Seq<char>, c: char)
    ensures
        0 <= first_index(s, c) <= s.len(),
        first_index(s, c) < s.len() ==> s[first_index(s, c)] == c,
        forall|j: int| 0 <= j < first_index(s, c) ==> s[j] != c,
        s.contains(c) == (first_index(s, c) < s.len()),
    decreases s.len(),
{
    if s.len() > 0 && s[0] != c {
        let rest = s.drop_first();
        lemma_first_index_found(rest, c);
        assert forall|j: int| 0 <= j < first_index(s, c) implies s[j] != c by {
            if j > 0 {
                assert(s[j] == rest[j - 1]);
            }
        }
        if s.contains(c) {
            let k = choose|k: int| 0 <= k < s.len() && s[k] == c;
            assert(rest[k - 1] == c);
        }
    }
}

/// Finds the first `c` of `chars`.
pub fn find_first(chars: &[char], c: char) -> (i: usize)
    ensures
        i == first_index(chars@, c),
        i <= chars@.len(),
{
    let mut i: usize = 0;
    while i < chars.len() && chars[i] != c
        invariant
            i <= chars@.len(),
            forall|j: int| 0 <= j < i ==> chars@[j] != c,
        decreases chars@.len() - i,
    {
        i += 1;
    }
    proof {
        lemma_first_index(chars@, c, i as int);
    }
    i
}

/// The pieces of `s` between its separators: one more than it has separators.
pub open spec fn split_on(s: Seq<char>, sep: char) -> Seq<Seq<char>>
    decreases s.len(),
{
    if s.len() == 0 {
        seq![Seq::<char>::empty()]
    } else {
        let pieces = split_on(s.drop_last(), sep);
        if s.last() == sep {
            pieces.push(Seq::empty())
        } else {
            pieces.drop_last().push(pieces.last().push(s.last()))
        }
    }
}

/// The views of a list of character vectors.
pub open spec fn views(pieces: Seq<Vec<char>>) -> Seq<Seq<char>> {
    pieces.map_values(|piece: Vec<char>| piece@)
}

/// Splits `chars` at every `sep`.
pub fn split(chars: &[char], sep: char) -> (pieces: Vec<Vec<char>>)
    ensures
        views(pieces@) == split_on(chars@, sep),
        pieces@.len() >= 1,
{
    let mut pieces: Vec<Vec<char>> = Vec::new();
    let mut current: Vec<char> = Vec::new();
    let mut i: usize = 0;
    assert(views(pieces@).push(current@) =~= split_on(chars@.take(0), sep));
    while i < chars.len()
        invariant
            i <= chars@.len(),
            views(pieces@).push(current@) == split_on(chars@.take(i as int), sep),
        decreases chars@.len() - i,
    {
        let c = chars[i];
        let ghost before = views(pieces@).push(current@);
        assert(chars@.take(i + 1).drop_last() == chars@.take(i as int));
        assert(before.drop_last() == views(pieces@));
        if c == sep {
            let ghost done = pieces@;
            let ghost piece = current;
            pieces.push(current);
            assert(views(pieces@) =~= views(done).push(piece@));
            current = Vec::new();
        } else {
            current.push(c);
        }
        i += 1;
    }
    let ghost done = pieces@;
    let ghost piece = current;
    pieces.push(current);
    assert(views(pieces@) =~= views(done).push(piece@));
    assert(chars@.take(chars@.len() as int) == chars@);
    pieces
}

/// What `c` counts as a digit: 0 to 9, then the letters a to f in either case;
/// 99 for every other character.
pub open spec fn digit(c: char) -> nat {
    if '0' <= c <= '9' {
        (c as nat - '0' as nat) as nat
    } else if 'a' <= c <= 'f' {
        (c as nat - 'a' as nat + 10) as nat
    } else if 'A' <= c <= 'F' {
        (c as nat - 'A' as nat + 10) as nat
    } else {
        99
    }
}

/// `s` is made of digits of the given radix, at least one.
pub open spec fn is_numeral(s: Seq<char>, radix: nat) -> bool {
    &&& s.len() > 0
    &&& forall|i: int| 0 <= i < s.len() ==> digit(#[trigger] s[i]) < radix
}

/// The number that the digits of `s` write, most significant first.
pub open spec fn numeral_value(s: Seq<char>, radix: nat) -> nat
    decreases s.len(),
{
    if s.len() == 0 {
        0
    } else {
        numeral_value(s.drop_last(), radix) * radix + digit(s.last())
    }
}

/// `s` without one leading plus sign.
pub open spec fn without_plus(s: Seq<char>) -> Seq<char> {
    if s.len() > 0 && s[0] == '+' {
        s.drop_first()
    } else {
        s
    }
}

/// The number up to `max` that `s` writes: digits behind at most one plus sign.
pub open spec fn unsigned_number(s: Seq<char>, radix: nat, max: nat) -> Option<nat> {
    let digits = without_plus(s);
    if is_numeral(digits, radix) && numeral_value(digits, radix) <= max {
        Some(numeral_value(digits, radix))
    } else {
        None
    }
}

/// The number from `-max - 1` to `max` that `s` writes: digits behind at most one
/// sign.
pub open spec fn signed_number(s: Seq<char>, max: nat) -> Option<int> {
    if s.len() > 0 && s[0] == '-' {
        let digits = s.drop_first();
        if is_numeral(digits, 10) && numeral_value(digits, 10) <= max + 1 {
            Some(-numeral_value(digits, 10))
        } else {
            None
        }
    } else {
        match unsigned_number(s, 10, max) {
            Some(n) => Some(n as int),
            None => None,
        }
    }
}

/// A numeral is worth at least what its first digits are worth.
pub proof fn lemma_numeral_prefix(s: Seq<char>, radix: nat, i: int)
    requires
        0 <= i <= s.len(),
        radix >= 1,
    ensures
        numeral_value(s.take(i), radix) <= numeral_value(s, radix),
    decreases s.len() - i,
{
    if i == s.len() {
        assert(s.take(i) == s);
    } else {
        let longer = s.take(i + 1);
        assert(longer.drop_last() == s.take(i));
        lemma_numeral_prefix(s, radix, i + 1);
        let head = numeral_value(s.take(i), radix);
        assert(head <= head * radix) by (nonlinear_arith)
            requires
                radix >= 1,
        ;
    }
}

/// What `c` counts as a digit (see [`digit`]).
pub fn digit_value(c: char) -> (d: u32)
    ensures
        d == digit(c),
        d <= 99,
{
    if '0' <= c && c <= '9' {
        c as u32 - '0' as u32
    } else if 'a' <= c && c <= 'f' {
        c as u32 - 'a' as u32 + 10
    } else if 'A' <= c && c <= 'F' {
        c as u32 - 'A' as u32 + 10
    } else {
        99
    }
}

/// Reads `chars[from..]` as a bare numeral no larger than `max`.
fn read_numeral(chars: &[char], from: usize, radix: u64, max: u64) -> (n: Option<u64>)
    requires
        from <= chars@.len(),
        2 <= radix <= 16,
    ensures
        n == (if is_numeral(chars@.skip(from as int), radix as nat) && numeral_value(
            chars@.skip(from as int),
            radix as nat,
        ) <= max {
            Some(numeral_value(chars@.skip(from as int), radix as nat) as u64)
        } else {
            None
        }),
{
    let ghost digits = chars@.skip(from as int);
    if from == chars.len() {
        return None;
    }
    let mut total: u64 = 0;
    let mut i: usize = from;
    assert(digits.take(0).len() == 0);
    while i < chars.len()
        invariant
            from <= i <= chars@.len(),
            2 <= radix <= 16,
            digits == chars@.skip(from as int),
            forall|j: int| 0 <= j < i - from ==> digit(#[trigger] digits[j]) < radix,
            total == numeral_value(digits.take(i - from), radix as nat),
            total <= max,
        decreases chars@.len() - i,
    {
        let d = digit_value(chars[i]) as u64;
        let ghost k = i - from;
        assert(digits[k] == chars@[i as int]);
        if d >= radix {
            return None;
        }
        let ghost longer = digits.take(k + 1);
        proof {
            assert(longer.drop_last() == digits.take(k));
            assert(longer.last() == digits[k]);
            lemma_numeral_prefix(digits, radix as nat, k + 1);
            assert(numeral_value(longer, radix as nat) == total * radix + d);
        }
        proof {
            assert(total as u128 * radix as u128 <= u64::MAX as u128 * 16) by (nonlinear_arith)
                requires
                    total <= u64::MAX,
                    radix <= 16,
            ;
        }
        let next = total as u128 * radix as u128;
        if next + d as u128 > max as u128 {
            return None;
        }
        total = (next + d as u128) as u64;
        i += 1;
    }
    assert(digits.take(chars@.len() - from) == digits);
    Some(total)
}

/// Reads all of `chars` as an unsigned number no larger than `max`, the way
/// `from_str_radix` does: one leading plus sign is allowed.
pub fn parse_unsigned(chars: &[char], radix: u64, max: u64) -> (n: Option<u64>)
    requires
        2 <= radix <= 16,
    ensures
        n is Some == unsigned_number(chars@, radix as nat, max as nat) is Some,
        n matches Some(v) ==> unsigned_number(chars@, radix as nat, max as nat) == Some(v as nat),
{
    if chars.len() > 0 && chars[0] == '+' {
        assert(chars@.skip(1) == chars@.drop_first());
        read_numeral(chars, 1, radix, max)
    } else {
        assert(chars@.skip(0) == chars@);
        read_numeral(chars, 0, radix, max)
    }
}

/// Reads all of `chars` as an `i64`, the way `i64::from_str` does.
pub fn parse_signed(chars: &[char]) -> (n: Option<i64>)
    ensures
        n is Some == signed_number(chars@, i64::MAX as nat) is Some,
        n matches Some(v) ==> signed_number(chars@, i64::MAX as nat) == Some(v as int),
{
    if chars.len() > 0 && chars[0] == '-' {
        assert(chars@.skip(1) == chars@.drop_first());
        match read_numeral(chars, 1, 10, i64::MAX as u64 + 1) {
            Some(n) => Some((-(n as i128)) as i64),
            None => None,
        }
    } else {
        match parse_unsigned(chars, 10, i64::MAX as u64) {
            Some(n) => Some(n as i64),
            None => None,
        }
    }
}

/// The decimal numeral of `n`, without leading zeros.
pub open spec fn decimal(n: nat) -> Seq<char>
    decreases n,
{
    if n < 10 {
        seq![decimal_digit(n)]
    } else {
        decimal(n / 10).push(decimal_digit(n % 10))
    }
}

/// The character that writes the digit `d`.
pub open spec fn decimal_digit(d: nat) -> char {
    if d == 0 {
        '0'
    } else if d == 1 {
        '1'
    } else if d == 2 {
        '2'
    } else if d == 3 {
        '3'
    } else if d == 4 {
        '4'
    } else if d == 5 {
        '5'
    } else if d == 6 {
        '6'
    } else if d == 7 {
        '7'
    } else if d == 8 {
        '8'
    } else {
        '9'
    }
}

/// Writes one decimal digit.
pub fn digit_char(d: u8) -> (c: char)
    requires
        d < 10,
    ensures
        c == decimal_digit(d as nat),
{
    match d {
        0 => '0',
        1 => '1',
        2 => '2',
        3 => '3',
        4 => '4',
        5 => '5',
        6 => '6',
        7 => '7',
        8 => '8',
        _ => '9',
    }
}

/// Writes `n` in decimal.
pub fn decimal_text(n: u64) -> (s: String)
    ensures
        s@ == decimal(n as nat),
    decreases n,
{
    if n < 10 {
        let mut s = String::new();
        s.push(digit_char(n as u8));
        assert(s@ =~= decimal(n as nat));
        s
    } else {
        let mut s = decimal_text(n / 10);
        s.push(digit_char((n % 10) as u8));
        s
    }
}

/// Reading what [`decimal`] wrote gives the number back.
pub proof fn law_decimal_reads_back(n: nat)
    ensures
        is_numeral(decimal(n), 10),
        numeral_value(decimal(n), 10) == n,
        unsigned_number(decimal(n), 10, n) == Some(n),
    decreases n,
{
    let s = decimal(n);
    if n < 10 {
        assert(s.drop_last().len() == 0);
        assert(numeral_value(s.drop_last(), 10) == 0);
    } else {
        law_decimal_reads_back(n / 10);
        assert(s.drop_last() =~= decimal(n / 10));
        assert forall|i: int| 0 <= i < s.len() implies digit(#[trigger] s[i]) < 10 by {
            if i < s.len() - 1 {
                assert(s[i] == decimal(n / 10)[i]);
            }
        }
    }
    assert(digit(s[0]) < 10);
    assert(digit('+') == 99);
    assert(without_plus(s) == s);
}

/// `char::is_whitespace`: the character has the Unicode property White_Space.
pub uninterp spec fn whitespace(c: char) -> bool;

/// `char::is_whitespace` depends on the character alone. Of the ASCII characters
/// the space, the tab, the line feed, the vertical tab, the form feed and the
/// carriage return have the property, and no other.
#[verifier::external_body]
fn is_whitespace(c: char) -> (yes: bool)
    ensures
        yes == whitespace(c),
        c as u32 <= 127 ==> yes == (c == ' ' || (9 <= c as u32 <= 13)),
{
    c.is_whitespace()
}

/// `char::is_alphanumeric`: the character has the Unicode property Alphabetic or
/// a numeric general category.
pub uninterp spec fn alphanumeric(c: char) -> bool;

/// A letter A to Z in either case, or a digit 0 to 9.
pub open spec fn ascii_alphanumeric(c: char) -> bool {
    ('0' <= c <= '9') || ('a' <= c <= 'z') || ('A' <= c <= 'Z')
}

/// `char::is_alphanumeric` depends on the character alone. Of the ASCII
/// characters the letters and the digits satisfy it, and no other.
#[verifier::external_body]
pub(crate) fn is_alphanumeric(c: char) -> (yes: bool)
    ensures
        yes == alphanumeric(c),
        c as u32 <= 127 ==> yes == ascii_alphanumeric(c),
{
    c.is_alphanumeric()
}

/// `s` in lower case, as Unicode has it.
pub uninterp spec fn lowercase(s: Seq<char>) -> Seq<char>;

/// A letter A to Z in lower case; any other character as it is.
pub open spec fn ascii_lower(c: char) -> char {
    if 'A' <= c <= 'Z' {
        (c as int + 32) as char
    } else {
        c
    }
}

/// Every character of `s` is one of ASCII.
pub open spec fn ascii(s: Seq<char>) -> bool {
    forall|i: int| 0 <= i < s.len() ==> #[trigger] s[i] as u32 <= 127
}

/// `str::to_lowercase` depends on the string alone. In a string of ASCII characters it
/// replaces the letters A to Z and leaves the rest as it is.
#[verifier::external_body]
pub(crate) fn to_lowercase(s: &str) -> (lowered: String)
    ensures
        lowered@ == lowercase(s@),
        ascii(s@) ==> lowered@ == s@.map_values(|c: char| ascii_lower(c)),
{
    s.to_lowercase()
}

/// `s` ends with `suffix`.
pub open spec fn has_suffix(s: Seq<char>, suffix: Seq<char>) -> bool {
    s.len() >= suffix.len() && s.skip(s.len() - suffix.len()) == suffix
}

/// Tests whether `s` ends with `suffix`.
pub fn ends_with(s: &str, suffix: &str) -> (yes: bool)
    ensures
        yes == has_suffix(s@, suffix@),
{
    let chars = chars_of(s);
    let end = chars_of(suffix);
    if chars.len() < end.len() {
        return false;
    }
    let from = chars.len() - end.len();
    let mut i: usize = 0;
    while i < end.len()
        invariant
            i <= end@.len(),
            from + end@.len() == chars@.len() <= usize::MAX,
            chars@ == s@,
            end@ == suffix@,
            forall|j: int| 0 <= j < i ==> chars@[from + j] == end@[j],
        decreases end@.len() - i,
    {
        if chars[from + i] != end[i] {
            assert(s@.skip(from as int)[i as int] != suffix@[i as int]);
            return false;
        }
        i += 1;
    }
    assert(s@.skip(from as int) =~= suffix@);
    true
}

/// `s` without the whitespace at its start.
pub open spec fn trimmed_start(s: Seq<char>) -> Seq<char>
    decreases s.len(),
{
    if s.len() > 0 && whitespace(s[0]) {
        trimmed_start(s.drop_first())
    } else {
        s
    }
}

/// `s` without the whitespace at its end.
pub open spec fn trimmed_end(s: Seq<char>) -> Seq<char>
    decreases s.len(),
{
    if s.len() > 0 && whitespace(s.last()) {
        trimmed_end(s.drop_last())
    } else {
        s
    }
}

/// `s` without the whitespace at its start and at its end.
pub open spec fn trimmed(s: Seq<char>) -> Seq<char> {
    trimmed_end(trimmed_start(s))
}

/// Takes the whitespace off both ends of `chars`, as `str::trim` does.
pub fn trim(chars: &[char]) -> (part: Vec<char>)
    ensures
        part@ == trimmed(chars@),
{
    let mut from: usize = 0;
    assert(chars@.skip(0) == chars@);
    while from < chars.len() && is_whitespace(chars[from])
        invariant
            from <= chars@.len(),
            trimmed_start(chars@) == trimmed_start(chars@.skip(from as int)),
        decreases chars@.len() - from,
    {
        assert(chars@.skip(from as int).drop_first() == chars@.skip(from + 1));
        from += 1;
    }
    let ghost rest = chars@.skip(from as int);
    assert(trimmed_start(chars@) == rest);
    let mut to: usize = chars.len();
    assert(chars@.subrange(from as int, to as int) == rest);
    while from < to && is_whitespace(chars[to - 1])
        invariant
            from <= to <= chars@.len(),
            trimmed_end(rest) == trimmed_end(chars@.subrange(from as int, to as int)),
        decreases to,
    {
        let ghost part = chars@.subrange(from as int, to as int);
        assert(part.drop_last() == chars@.subrange(from as int, to - 1));
        assert(part.last() == chars@[to - 1]);
        to -= 1;
    }
    slice_of(chars, from, to)
}

/// `s` without one carriage return at its end.
pub open spec fn without_carriage_return(s: Seq<char>) -> Seq<char> {
    if s.len() > 0 && s.last() == '\r' {
        s.drop_last()
    } else {
        s
    }
}

/// The lines of `s`. A line ends at a line feed or at the end of the text; an
/// empty rest behind the last line feed is no line. A carriage return in front of
/// the line feed belongs to the line's end.
pub open spec fn text_lines(s: Seq<char>) -> Seq<Seq<char>> {
    let pieces = split_on(s, '\n');
    let ended = pieces.drop_last().map_values(|piece: Seq<char>| without_carriage_return(piece));
    if pieces.last().len() == 0 {
        ended
    } else {
        ended.push(pieces.last())
    }
}

/// Splits `chars` into its lines, as `str::lines` does.
pub fn lines(chars: &[char]) -> (found: Vec<Vec<char>>)
    ensures
        views(found@) == text_lines(chars@),
{
    let pieces = split(chars, '\n');
    let last = pieces.len() - 1;
    let ghost model = split_on(chars@, '\n');
    let ghost ended = model.drop_last().map_values(
        |piece: Seq<char>| without_carriage_return(piece),
    );
    assert(model.len() == pieces@.len());
    let mut found: Vec<Vec<char>> = Vec::new();
    let mut i: usize = 0;
    while i < last
        invariant
            i <= last,
            last == pieces@.len() - 1,
            model == views(pieces@),
            ended == model.drop_last().map_values(
                |piece: Seq<char>| without_carriage_return(piece),
            ),
            views(found@) == ended.take(i as int),
        decreases last - i,
    {
        let piece = &pieces[i];
        assert(model[i as int] == piece@);
        let mut to: usize = piece.len();
        if to > 0 && piece[to - 1] == '\r' {
            to -= 1;
        }
        let line = slice_of(piece, 0, to);
        assert(line@ =~= without_carriage_return(model[i as int]));
        let ghost before = found@;
        found.push(line);
        assert(views(found@) =~= views(before).push(line@));
        assert(ended.take(i + 1) =~= ended.take(i as int).push(ended[i as int]));
        i += 1;
    }
    assert(ended.take(last as int) =~= ended);
    assert(model.last() == pieces@[last as int]@);
    if pieces[last].len() > 0 {
        let rest = slice_of(&pieces[last], 0, pieces[last].len());
        let ghost before = found@;
        found.push(rest);
        assert(views(found@) =~= views(before).push(rest@));
        assert(rest@ =~= model.last());
    }
    found
}

/// `a` stands strictly before `b` in the order of code points.
pub open spec fn precedes(a: Seq<char>, b: Seq<char>) -> bool
    decreases a.len(),
{
    if b.len() == 0 {
        false
    } else if a.len() == 0 {
        true
    } else if a[0] == b[0] {
        precedes(a.drop_first(), b.drop_first())
    } else {
        a[0] < b[0]
    }
}

/// Two texts that share their first `i` characters compare as what is left.
proof fn lemma_precedes_rest(a: Seq<char>, b: Seq<char>, i: int)
    requires
        0 <= i <= a.len(),
        i <= b.len(),
        forall|j: int| 0 <= j < i ==> a[j] == b[j],
    ensures
        precedes(a, b) == precedes(a.skip(i), b.skip(i)),
    decreases i,
{
    if i == 0 {
        assert(a.skip(0) == a);
        assert(b.skip(0) == b);
    } else {
        let ra = a.drop_first();
        let rb = b.drop_first();
        assert forall|j: int| 0 <= j < i - 1 implies ra[j] == rb[j] by {
            assert(a[j + 1] == b[j + 1]);
        }
        assert(a[0] == b[0]);
        lemma_precedes_rest(ra, rb, i - 1);
        assert(ra.skip(i - 1) == a.skip(i));
        assert(rb.skip(i - 1) == b.skip(i));
    }
}

/// `precedes` is transitive.
pub proof fn lemma_precedes_transitive(a: Seq<char>, b: Seq<char>, c: Seq<char>)
    requires
        precedes(a, b),
        precedes(b, c),
    ensures
        precedes(a, c),
    decreases a.len(),
{
    if a.len() > 0 && a[0] == b[0] && b[0] == c[0] {
        lemma_precedes_transitive(a.drop_first(), b.drop_first(), c.drop_first());
    }
}

/// Of two different texts one precedes the other, and never both.
pub proof fn lemma_precedes_total(a: Seq<char>, b: Seq<char>)
    ensures
        precedes(a, b) || precedes(b, a) || a == b,
        !(precedes(a, b) && precedes(b, a)),
        !precedes(a, a),
    decreases a.len(),
{
    if a.len() > 0 && b.len() > 0 && a[0] == b[0] {
        lemma_precedes_total(a.drop_first(), b.drop_first());
        if a.drop_first() == b.drop_first() {
            assert(a =~= seq![a[0]] + a.drop_first());
            assert(b =~= seq![b[0]] + b.drop_first());
        }
    } else if a.len() == 0 && b.len() == 0 {
        assert(a =~= b);
    }
    if a.len() > 0 {
        lemma_precedes_total(a.drop_first(), a.drop_first());
    }
}

/// Tests whether `a` stands strictly before `b`.
pub fn text_precedes(a: &str, b: &str) -> (yes: bool)
    ensures
        yes == precedes(a@, b@),
{
    let left = chars_of(a);
    let right = chars_of(b);
    let mut i: usize = 0;
    while i < left.len() && i < right.len() && left[i] == right[i]
        invariant
            i <= left@.len(),
            i <= right@.len(),
            forall|j: int| 0 <= j < i ==> left@[j] == right@[j],
        decreases left@.len() - i,
    {
        i += 1;
    }
    proof {
        lemma_precedes_rest(left@, right@, i as int);
    }
    if i == right.len() {
        false
    } else if i == left.len() {
        true
    } else {
        left[i] < right[i]
    }
}

/// Compares two strings character by character.
pub fn same_text(a: &str, b: &str) -> (yes: bool)
    ensures
        yes == (a@ == b@),
{
    let left = chars_of(a);
    let right = chars_of(b);
    if left.len() != right.len() {
        return false;
    }
    let mut i: usize = 0;
    while i < left.len()
        invariant
            i <= left@.len(),
            left@.len() == right@.len(),
            left@ == a@,
            right@ == b@,
            forall|j: int| 0 <= j < i ==> left@[j] == right@[j],
        decreases left@.len() - i,
    {
        if left[i] != right[i] {
            return false;
        }
        i += 1;
    }
    assert(left@ =~= right@);
    true
}

/// A text without the separator is its own only piece.
pub proof fn lemma_split_whole(s: Seq<char>, sep: char)
    requires
        !s.contains(sep),
    ensures
        split_on(s, sep) == seq![s],
    decreases s.len(),
{
    if s.len() > 0 {
        assert(s.last() != sep) by {
            assert(s.contains(s.last()));
        }
        assert forall|i: int| 0 <= i < s.drop_last().len() implies s.drop_last()[i] != sep by {
            assert(s.contains(s[i]));
        }
        lemma_split_whole(s.drop_last(), sep);
        assert(s.drop_last().push(s.last()) =~= s);
        assert(split_on(s, sep) =~= seq![s]);
    } else {
        assert(s =~= Seq::empty());
    }
}

/// Splitting `head`, a separator and `rest` gives `head` and the pieces of `rest`.
pub proof fn lemma_split_joined(head: Seq<char>, rest: Seq<char>, sep: char)
    requires
        !head.contains(sep),
    ensures
        split_on(head.push(sep) + rest, sep) == seq![head] + split_on(rest, sep),
    decreases rest.len(),
{
    let s = head.push(sep) + rest;
    if rest.len() == 0 {
        assert(s =~= head.push(sep));
        assert(s.drop_last() =~= head);
        lemma_split_whole(head, sep);
        assert(split_on(s, sep) =~= seq![head] + split_on(rest, sep));
    } else {
        lemma_split_joined(head, rest.drop_last(), sep);
        assert(s.drop_last() =~= head.push(sep) + rest.drop_last());
        assert(s.last() == rest.last());
        lemma_split_some(rest.drop_last(), sep);
        assert(split_on(s, sep) =~= seq![head] + split_on(rest, sep));
    }
}

/// There is always a piece.
pub proof fn lemma_split_some(s: Seq<char>, sep: char)
    ensures
        split_on(s, sep).len() >= 1,
    decreases s.len(),
{
    if s.len() > 0 {
        lemma_split_some(s.drop_last(), sep);
    }
}

/// The first `c` of `head`, `c`, `rest` stands behind a `head` without one.
pub proof fn lemma_first_joined(head: Seq<char>, rest: Seq<char>, c: char)
    requires
        !head.contains(c),
    ensures
        first_index(head.push(c) + rest, c) == head.len(),
        before_first(head.push(c) + rest, c) == head,
        after_first(head.push(c) + rest, c) == rest,
{
    let s = head.push(c) + rest;
    assert forall|j: int| 0 <= j < head.len() implies s[j] != c by {
        assert(head.contains(head[j]));
    }
    lemma_first_index(s, c, head.len() as int);
    assert(before_first(s, c) =~= head);
    assert(after_first(s, c) =~= rest);
}

/// A text without `c` stands whole before its first `c`.
pub proof fn lemma_first_absent(s: Seq<char>, c: char)
    requires
        !s.contains(c),
    ensures
        first_index(s, c) == s.len(),
        before_first(s, c) == s,
{
    assert forall|j: int| 0 <= j < s.len() implies s[j] != c by {
        assert(s.contains(s[j]));
    }
    lemma_first_index(s, c, s.len() as int);
    assert(before_first(s, c) =~= s);
}

/// A text ends with a suffix exactly if it is something followed by the suffix.
pub proof fn law_suffix_is_the_end(head: Seq<char>, s: Seq<char>, suffix: Seq<char>)
    ensures
        has_suffix(head + suffix, suffix),
        has_suffix(s, suffix) ==> s == s.take(s.len() - suffix.len()) + suffix,
{
    assert((head + suffix).skip(head.len() as int) =~= suffix);
    if has_suffix(s, suffix) {
        assert(s =~= s.take(s.len() - suffix.len()) + s.skip(s.len() - suffix.len()));
    }
}

/// Trimming takes off the whitespace on both sides and nothing else: what is left stands in
/// the text between whitespace, and has none at its ends.
pub proof fn law_trimmed_stands_between_whitespace(s: Seq<char>)
    ensures
        exists|from: int, to: int|
            0 <= from <= to <= s.len() && #[trigger] s.subrange(from, to) == trimmed(s) && (forall|
                i: int,
            |
                0 <= i < from || to <= i < s.len() ==> whitespace(#[trigger] s[i])),
        trimmed(s).len() > 0 ==> !whitespace(trimmed(s)[0]) && !whitespace(trimmed(s).last()),
{
    let from = lemma_trimmed_start(s);
    let rest = trimmed_start(s);
    let len = lemma_trimmed_end(rest);
    assert(s.subrange(from, from + len) =~= trimmed(s));
    assert forall|i: int| 0 <= i < from || from + len <= i < s.len() implies whitespace(
        #[trigger] s[i],
    ) by {
        if i >= from + len {
            assert(s[i] == rest[i - from]);
        }
    }
}

/// What trimming takes off the start is whitespace.
proof fn lemma_trimmed_start(s: Seq<char>) -> (from: int)
    ensures
        0 <= from <= s.len(),
        trimmed_start(s) == s.skip(from),
        forall|i: int| 0 <= i < from ==> whitespace(#[trigger] s[i]),
        from < s.len() ==> !whitespace(s[from]),
    decreases s.len(),
{
    if s.len() > 0 && whitespace(s[0]) {
        let rest = s.drop_first();
        let from = lemma_trimmed_start(rest);
        assert(rest.skip(from) =~= s.skip(from + 1));
        assert forall|i: int| 0 <= i < from + 1 implies whitespace(#[trigger] s[i]) by {
            if i > 0 {
                assert(rest[i - 1] == s[i]);
            }
        }
        from + 1
    } else {
        assert(s.skip(0) =~= s);
        0
    }
}

/// What trimming takes off the end is whitespace.
proof fn lemma_trimmed_end(s: Seq<char>) -> (len: int)
    ensures
        0 <= len <= s.len(),
        trimmed_end(s) == s.take(len),
        forall|i: int| len <= i < s.len() ==> whitespace(#[trigger] s[i]),
        len > 0 ==> !whitespace(s[len - 1]),
    decreases s.len(),
{
    if s.len() > 0 && whitespace(s.last()) {
        let rest = s.drop_last();
        let len = lemma_trimmed_end(rest);
        assert(rest.take(len) =~= s.take(len));
        assert forall|i: int| len <= i < s.len() implies whitespace(#[trigger] s[i]) by {
            if i < s.len() - 1 {
                assert(rest[i] == s[i]);
            }
        }
        len
    } else {
        assert(s.take(s.len() as int) =~= s);
        s.len() as int
    }
}

/// The lines of a text come one by one: the first is what stands before the first line feed,
/// without a carriage return at its end, and the others are those of the rest. A text without
/// a line feed is one line, or none if it is empty.
pub proof fn law_lines_one_by_one(line: Seq<char>, rest: Seq<char>)
    requires
        !line.contains('\n'),
    ensures
        text_lines(line.push('\n') + rest) == seq![without_carriage_return(line)] + text_lines(rest),
        text_lines(line) == (if line.len() == 0 {
            Seq::empty()
        } else {
            seq![line]
        }),
        without_carriage_return(line.push('\r')) == line,
{
    lemma_split_joined(line, rest, '\n');
    lemma_split_whole(line, '\n');
    lemma_split_some(rest, '\n');
    let pieces = split_on(rest, '\n');
    let whole = split_on(line.push('\n') + rest, '\n');
    assert(whole =~= seq![line] + pieces);
    assert(whole.last() == pieces.last());
    let cut = |piece: Seq<char>| without_carriage_return(piece);
    assert(whole.drop_last() =~= seq![line] + pieces.drop_last());
    assert(whole.drop_last().map_values(cut) =~= seq![without_carriage_return(line)]
        + pieces.drop_last().map_values(cut));
    assert(text_lines(line.push('\n') + rest) =~= seq![without_carriage_return(line)] + text_lines(
        rest,
    ));
    assert(text_lines(line) =~= (if line.len() == 0 {
        Seq::empty()
    } else {
        seq![line]
    }));
    assert(line.push('\r').drop_last() =~= line);
}

/// A number that is written in decimal, with or without a sign, is read as that number.
pub proof fn law_signed_number_reads_back(n: nat, max: nat)
    requires
        n <= max,
    ensures
        signed_number(decimal(n), max) == Some(n as int),
        signed_number(seq!['-'] + decimal(n), max) == Some(-n),
        signed_number(seq!['+'] + decimal(n), max) == Some(n as int),
        unsigned_number(decimal(n), 10, max) == Some(n),
        unsigned_number(seq!['+'] + decimal(n), 10, max) == Some(n),
{
    law_decimal_reads_back(n);
    let s = decimal(n);
    assert(digit(s[0]) < 10);
    assert(digit('-') == 99);
    assert(without_plus(s) == s) by {
        assert(digit('+') == 99);
    }
    let negative = seq!['-'] + s;
    assert(negative.drop_first() =~= s);
    let positive = seq!['+'] + s;
    assert(positive.drop_first() =~= s);
}

/// Only digits are read as a number, at least one behind a sign, and nothing beyond the
/// largest number allowed.
pub proof fn law_only_digits_are_numbers(s: Seq<char>, max: nat, i: int)
    ensures
        unsigned_number(s, 10, max) matches Some(n) ==> {
            &&& n <= max
            &&& s.len() > 0
            &&& 0 <= i < s.len() ==> '0' <= s[i] <= '9' || (i == 0 && s[i] == '+' && s.len() > 1)
        },
        signed_number(s, max) matches Some(n) ==> {
            &&& -max - 1 <= n <= max
            &&& s.len() > 0
            &&& 0 <= i < s.len() ==> '0' <= s[i] <= '9' || (i == 0 && (s[i] == '+' || s[i] == '-')
                && s.len() > 1)
        },
{
    let rest = s.drop_first();
    if 0 < i < s.len() {
        assert(rest[i - 1] == s[i]);
    }
    assert(0 <= i < s.len() && digit(s[i]) < 10 ==> '0' <= s[i] <= '9');
}

/// Texts are in the order of their first character that differs, and a text stands before
/// those that go on behind it.
pub proof fn law_first_difference_decides(
    head: Seq<char>,
    a: char,
    b: char,
    x: Seq<char>,
    y: Seq<char>,
)
    ensures
        a < b ==> precedes(head.push(a) + x, head.push(b) + y),
        precedes(head, head.push(b) + y),
        !precedes(head, head),
    decreases head.len(),
{
    if head.len() > 0 {
        let rest = head.drop_first();
        law_first_difference_decides(rest, a, b, x, y);
        assert((head.push(a) + x).drop_first() =~= rest.push(a) + x);
        assert((head.push(b) + y).drop_first() =~= rest.push(b) + y);
        assert((head.push(a) + x)[0] == head[0] && (head.push(b) + y)[0] == head[0]);
    } else {
        assert((head.push(a) + x)[0] == a && (head.push(b) + y)[0] == b);
    }
}

} // verus!
