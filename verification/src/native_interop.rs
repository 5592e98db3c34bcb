//! Values that are exchanged with the Windows API: wide strings, colours, window styles
//! and the path of the running program.

use vstd::prelude::*;
use vstd::string::*;
use vstd::utf8::*;

use crate::text;
use crate::utf16;

verus! {

// Window style constants
pub const WS_POPUP_STYLE: u32 = 0x80000000;

pub const WS_CHILD_STYLE: u32 = 0x40000000;

pub const WS_CLIPSIBLINGS_STYLE: u32 = 0x04000000;

// Extended window style constants
pub const WS_EX_TOOLWINDOW_STYLE: u32 = 0x00000080;

pub const WS_EX_NOACTIVATE_STYLE: u32 = 0x08000000;

// Win event constants
pub const EVENT_OBJECT_LOCATIONCHANGE: u32 = 0x800B;

pub const WINEVENT_OUTOFCONTEXT: u32 = 0x0000;

// Timer IDs
pub const TIMER_POLL: usize = 1;

pub const TIMER_COUNTDOWN: usize = 2;

pub const TIMER_RESET_POLL: usize = 3;

pub const TIMER_UPDATE_CHECK: usize = 4;

// Custom messages
pub const WM_APP: u32 = 0x8000;

pub const WM_APP_USAGE_UPDATED: u32 = WM_APP + 1;

pub const WM_APP_TRAY: u32 = WM_APP + 3;

/// Converts a string to a zero-terminated wide string.
pub fn wide_str(s: &str) -> (wide: Vec<u16>)
    ensures
        wide@ == utf16::zero_terminated(s@),
{
    let mut wide = utf16::encode_utf16(s);
    wide.push(0);
    wide
}

/// Largest buffer that is allocated for the module path (in UTF-16 units).
pub const MAX_MODULE_PATH_UNITS: usize = 32_768;

/// The buffer that is tried first for the module path (in UTF-16 units).
pub const FIRST_MODULE_PATH_UNITS: usize = 260;

/// What is done next to find the path of the running program.
pub enum ModulePathStep {
    /// Ask the system with a buffer of this many units.
    Ask(usize),
    /// The zero-terminated path, if there is one.
    Done(Option<Vec<u16>>),
}

/// What is done next to find the module path.
pub enum PathNext {
    Ask(nat),
    Done(Option<Seq<u16>>),
}

impl View for ModulePathStep {
    type V = PathNext;

    open spec fn view(&self) -> PathNext {
        match self {
            ModulePathStep::Ask(units) => PathNext::Ask(*units as nat),
            ModulePathStep::Done(Some(path)) => PathNext::Done(Some(path@)),
            ModulePathStep::Done(None) => PathNext::Done(None),
        }
    }
}

/// What is done next, when the system wrote a path of `len` units into `buf`. A path as
/// long as the buffer was cut off; then a buffer of twice the size is tried, up to the
/// largest one.
pub open spec fn module_path_next(buf: Seq<u16>, len: nat) -> PathNext {
    if len == 0 {
        PathNext::Done(None)
    } else if len < buf.len() {
        PathNext::Done(Some(buf.take(len as int).push(0)))
    } else if buf.len() >= MAX_MODULE_PATH_UNITS {
        PathNext::Done(None)
    } else if 2 * buf.len() <= MAX_MODULE_PATH_UNITS {
        PathNext::Ask(2 * buf.len())
    } else {
        PathNext::Ask(MAX_MODULE_PATH_UNITS as nat)
    }
}

/// Decides how the search for the path of the running program goes on. It is given the
/// buffer of the last attempt and the length that the system reported.
///
/// The system cuts a path that does not fit without a word, reports the size of the buffer
/// then, and may leave it without a terminating zero. So the buffer grows until the whole
/// path fits, and what is returned is always terminated (the trailing zero is included).
pub fn current_module_path_wide(attempt: Option<(Vec<u16>, usize)>) -> (step: ModulePathStep)
    ensures
        step@ == match attempt {
            None => PathNext::Ask(FIRST_MODULE_PATH_UNITS as nat),
            Some((buf, len)) => module_path_next(buf@, len as nat),
        },
{
    let (mut buf, len) = match attempt {
        None => return ModulePathStep::Ask(FIRST_MODULE_PATH_UNITS),
        Some(last) => last,
    };
    if len == 0 {
        return ModulePathStep::Done(None);
    }
    if len < buf.len() {
        let ghost before = buf@;
        buf.truncate(len + 1);
        buf.set(len, 0);
        assert(buf@ =~= before.take(len as int).push(0));
        return ModulePathStep::Done(Some(buf));
    }
    if buf.len() >= MAX_MODULE_PATH_UNITS {
        return ModulePathStep::Done(None);
    }
    if buf.len() * 2 <= MAX_MODULE_PATH_UNITS {
        ModulePathStep::Ask(buf.len() * 2)
    } else {
        ModulePathStep::Ask(MAX_MODULE_PATH_UNITS)
    }
}

/// The search for the module path ends: every buffer is larger than the one before, and
/// none is larger than the largest. What is found ends in its only added zero.
pub proof fn law_module_path_search_ends(buf: Seq<u16>, len: nat)
    requires
        buf.len() > 0,
    ensures
        match module_path_next(buf, len) {
            PathNext::Ask(units) => buf.len() < units <= MAX_MODULE_PATH_UNITS,
            PathNext::Done(Some(path)) => path.len() == len + 1 && path.last() == 0
                && path.drop_last() == buf.take(len as int),
            PathNext::Done(None) => len == 0 || buf.len() >= MAX_MODULE_PATH_UNITS,
        },
{
    if 0 < len < buf.len() {
        assert(buf.take(len as int).push(0).drop_last() =~= buf.take(len as int));
    }
}

/// The text of a wide path, without one zero at its end.
pub open spec fn path_text(wide: Seq<u16>) -> Seq<char> {
    if wide.len() > 0 && wide.last() == 0 {
        utf16::decoded(wide.drop_last())
    } else {
        utf16::decoded(wide)
    }
}

/// The path of the running program as a string (no trailing zero).
pub fn current_module_path(wide: Option<Vec<u16>>) -> (path: Option<String>)
    ensures
        match wide {
            Some(units) => path matches Some(s) && s@ == path_text(units@),
            None => path is None,
        },
{
    let mut units = wide?;
    if units.len() > 0 && units[units.len() - 1] == 0 {
        let ghost before = units@;
        let shorter = units.len() - 1;
        units.truncate(shorter);
        assert(units@ =~= before.drop_last());
    }
    Some(utf16::decode_utf16_lossy(&units))
}

/// A path that was made a wide string reads back as it was.
pub proof fn law_wide_path_reads_back(s: Seq<char>)
    ensures
        path_text(utf16::zero_terminated(s)) == s,
{
    assert(utf16::zero_terminated(s).drop_last() =~= utf16::encoded(s));
    utf16::law_decoding_undoes_encoding(s);
}

/// The style of a window that is embedded in the taskbar: a child window in place of a
/// popup, and otherwise what it was.
pub fn embedded_style(style: u32) -> (new_style: u32)
    ensures
        new_style & WS_POPUP_STYLE == 0,
        new_style & WS_CHILD_STYLE == WS_CHILD_STYLE,
        new_style & WS_CLIPSIBLINGS_STYLE == WS_CLIPSIBLINGS_STYLE,
        new_style & !(WS_POPUP_STYLE | WS_CHILD_STYLE | WS_CLIPSIBLINGS_STYLE) == style & !(
        WS_POPUP_STYLE | WS_CHILD_STYLE | WS_CLIPSIBLINGS_STYLE),
{
    let new_style = (style & !WS_POPUP_STYLE) | WS_CHILD_STYLE | WS_CLIPSIBLINGS_STYLE;
    proof {
        let p = WS_POPUP_STYLE;
        let c = WS_CHILD_STYLE;
        let s = WS_CLIPSIBLINGS_STYLE;
        assert(new_style & p == 0 && new_style & c == c && new_style & s == s && new_style & !(p | c
            | s) == style & !(p | c | s)) by (bit_vector)
            requires
                p == 0x80000000u32,
                c == 0x40000000u32,
                s == 0x04000000u32,
                new_style == (style & !p) | c | s,
        ;
    }
    new_style
}

/// The extended style of a window that is embedded in the taskbar: a tool window that is
/// not activated, and otherwise what it was.
pub fn embedded_ex_style(ex_style: u32) -> (new_style: u32)
    ensures
        new_style & WS_EX_TOOLWINDOW_STYLE == WS_EX_TOOLWINDOW_STYLE,
        new_style & WS_EX_NOACTIVATE_STYLE == WS_EX_NOACTIVATE_STYLE,
        new_style & !(WS_EX_TOOLWINDOW_STYLE | WS_EX_NOACTIVATE_STYLE) == ex_style & !(
        WS_EX_TOOLWINDOW_STYLE | WS_EX_NOACTIVATE_STYLE),
{
    let new_style = ex_style | WS_EX_TOOLWINDOW_STYLE | WS_EX_NOACTIVATE_STYLE;
    proof {
        let t = WS_EX_TOOLWINDOW_STYLE;
        let n = WS_EX_NOACTIVATE_STYLE;
        assert(new_style & t == t && new_style & n == n && new_style & !(t | n) == ex_style & !(t
            | n)) by (bit_vector)
            requires
                new_style == ex_style | t | n,
        ;
    }
    new_style
}

/// The packed form of a colour: red in the lowest byte, then green, then blue.
pub open spec fn packed(r: u8, g: u8, b: u8) -> int {
    r + 0x100 * g + 0x1_0000 * b
}

/// A packed colour as the Windows API takes it, 0x00BBGGRR.
pub fn colorref(r: u8, g: u8, b: u8) -> (color: u32)
    ensures
        color == packed(r, g, b),
{
    let color = r as u32 | (g as u32) << 8 | (b as u32) << 16;
    assert(color == r + 0x100 * g + 0x1_0000 * b) by (bit_vector)
        requires
            color == r as u32 | (g as u32) << 8 | (b as u32) << 16,
    ;
    color
}

/// The channels can be read off a packed colour, so that different colours stay different.
pub proof fn law_packed_colour_keeps_its_channels(r: u8, g: u8, b: u8)
    ensures
        packed(r, g, b) % 0x100 == r,
        packed(r, g, b) / 0x100 % 0x100 == g,
        packed(r, g, b) / 0x1_0000 == b,
{
}

/// A colour.
#[derive(Clone, Copy, Debug, PartialEq, Eq, Structural)]
pub struct Color {
    pub r: u8,
    pub g: u8,
    pub b: u8,
}

/// `s` without the number signs at its start.
pub open spec fn without_number_signs(s: Seq<char>) -> Seq<char>
    decreases s.len(),
{
    if s.len() > 0 && s[0] == '#' {
        without_number_signs(s.drop_first())
    } else {
        s
    }
}

/// A text can be cut into three pieces of two bytes, and a rest.
pub open spec fn has_three_pairs(s: Seq<char>) -> bool {
    let bytes = encode_utf8(s);
    &&& bytes.len() >= 6
    &&& is_char_boundary(bytes, 2)
    &&& is_char_boundary(bytes, 4)
    &&& is_char_boundary(bytes, 6)
}

/// The two bytes of a text from `from` on.
pub open spec fn byte_pair(s: Seq<char>, from: int) -> Seq<char> {
    decode_utf8(encode_utf8(s).subrange(from, from + 2))
}

/// The channel that a piece of text writes in hexadecimal, or 0.
pub open spec fn hex_channel(piece: Seq<char>) -> u8 {
    match text::unsigned_number(piece, 16, 255) {
        Some(n) => n as u8,
        None => 0,
    }
}

/// The colour that a text such as `#D97757` writes.
pub open spec fn hex_color(hex: Seq<char>) -> Color {
    let s = without_number_signs(hex);
    Color {
        r: hex_channel(byte_pair(s, 0)),
        g: hex_channel(byte_pair(s, 2)),
        b: hex_channel(byte_pair(s, 4)),
    }
}

/// Reads a channel (see [`hex_channel`]).
fn read_channel(piece: &str) -> (channel: u8)
    ensures
        channel == hex_channel(piece@),
{
    match text::parse_unsigned(&text::chars_of(piece), 16, 255) {
        Some(n) => n as u8,
        None => 0,
    }
}

/// A boundary of a text is one of what is left behind an earlier boundary.
proof fn lemma_boundary_behind(bytes: Seq<u8>, first: int, second: int)
    requires
        valid_utf8(bytes),
        is_char_boundary(bytes, first),
        is_char_boundary(bytes, second),
        0 <= first <= second <= bytes.len(),
    ensures
        valid_utf8(bytes.subrange(first, bytes.len() as int)),
        is_char_boundary(bytes.subrange(first, bytes.len() as int), second - first),
{
    valid_utf8_split(bytes, first);
    let rest = bytes.subrange(first, bytes.len() as int);
    if second < bytes.len() {
        is_char_boundary_iff_not_is_continuation_byte(bytes, second);
        is_char_boundary_iff_not_is_continuation_byte(rest, second - first);
        assert(rest[second - first] == bytes[second]);
    } else {
        is_char_boundary_start_end_of_seq(rest);
    }
}

impl Color {
    pub fn new(r: u8, g: u8, b: u8) -> (color: Color)
        ensures
            color == (Color { r, g, b }),
    {
        Color { r, g, b }
    }

    /// Reads a colour such as `#D97757`. A channel that is no hexadecimal number counts as
    /// 0.
    pub fn from_hex(hex: &str) -> (color: Color)
        requires
            has_three_pairs(without_number_signs(hex@)),
        ensures
            color == hex_color(hex@),
    {
        let chars = text::chars_of(hex);
        let mut from: usize = 0;
        assert(chars@.skip(0) == chars@);
        while from < chars.len() && chars[from] == '#'
            invariant
                from <= chars@.len(),
                without_number_signs(chars@) == without_number_signs(chars@.skip(from as int)),
            decreases chars@.len() - from,
        {
            assert(chars@.skip(from as int).drop_first() == chars@.skip(from + 1));
            from += 1;
        }
        let digits = text::text_of(&text::slice_of(&chars, from, chars.len()));
        let ghost s = without_number_signs(hex@);
        assert(digits@ =~= chars@.skip(from as int));
        assert(digits@ == s);
        let ghost bytes = encode_utf8(s);
        proof {
            encode_utf8_valid_utf8(s);
            lemma_boundary_behind(bytes, 2, 4);
            lemma_boundary_behind(bytes, 2, 6);
        }
        let (red, rest) = digits.as_str().split_at(2);
        let ghost bytes2 = bytes.subrange(2, bytes.len() as int);
        proof {
            lemma_boundary_behind(bytes2, 2, 4);
        }
        let (green, rest) = rest.split_at(2);
        let ghost bytes4 = bytes2.subrange(2, bytes2.len() as int);
        let (blue, _) = rest.split_at(2);
        proof {
            encode_utf8_decode_utf8(red@);
            encode_utf8_decode_utf8(green@);
            encode_utf8_decode_utf8(blue@);
            assert(bytes2.subrange(0, 2) =~= bytes.subrange(2, 4));
            assert(bytes4.subrange(0, 2) =~= bytes.subrange(4, 6));
        }
        Color { r: read_channel(red), g: read_channel(green), b: read_channel(blue) }
    }

    /// The packed form of the colour (see [`colorref`]).
    pub fn to_colorref(self) -> (color: u32)
        ensures
            color == packed(self.r, self.g, self.b),
    {
        colorref(self.r, self.g, self.b)
    }
}

/// The hexadecimal digit for `d`.
pub open spec fn hex_digit(d: int) -> char {
    if d < 10 {
        ('0' as int + d) as char
    } else {
        ('A' as int + d - 10) as char
    }
}

/// How a colour is written: a number sign and two hexadecimal digits for each channel.
pub open spec fn hex_text(color: Color) -> Seq<char> {
    seq![
        '#',
        hex_digit(color.r as int / 16),
        hex_digit(color.r as int % 16),
        hex_digit(color.g as int / 16),
        hex_digit(color.g as int % 16),
        hex_digit(color.b as int / 16),
        hex_digit(color.b as int % 16),
    ]
}

/// A hexadecimal digit counts what it stands for, and is a character of ASCII.
proof fn lemma_hex_digit(d: int)
    requires
        0 <= d < 16,
    ensures
        text::digit(hex_digit(d)) == d,
        hex_digit(d) as u32 <= 127,
        hex_digit(d) != '#',
        hex_digit(d) != '+',
{
    let code = if d < 10 {
        ('0' as int + d) as u32
    } else {
        ('A' as int + d - 10) as u32
    };
    char_u32_cast(hex_digit(d), code);
}

/// Two hexadecimal digits in a text are the channel that they write.
proof fn lemma_hex_pair(s: Seq<char>, from: int, channel: u8)
    requires
        s.len() == 6,
        is_ascii_chars(s),
        0 <= from <= 4,
        s[from] == hex_digit(channel as int / 16),
        s[from + 1] == hex_digit(channel as int % 16),
    ensures
        hex_channel(byte_pair(s, from)) == channel,
{
    lemma_hex_digit(channel as int / 16);
    lemma_hex_digit(channel as int % 16);
    let pair = s.subrange(from, from + 2);
    is_ascii_chars_encode_utf8(s);
    is_ascii_chars_encode_utf8(pair);
    encode_utf8_decode_utf8(pair);
    assert(encode_utf8(s).subrange(from, from + 2) =~= encode_utf8(pair));
    assert(byte_pair(s, from) == pair);
    assert(pair.drop_last().drop_last().len() == 0);
    assert(pair.drop_last().last() == pair[0]);
    assert(text::numeral_value(pair.drop_last().drop_last(), 16) == 0);
    assert(text::numeral_value(pair.drop_last(), 16) == channel as int / 16);
    assert(text::numeral_value(pair, 16) == channel);
}

/// A colour that is written in hexadecimal can be read, and reads back as it was.
pub proof fn law_hex_text_reads_back(color: Color)
    ensures
        has_three_pairs(without_number_signs(hex_text(color))),
        hex_color(hex_text(color)) == color,
{
    let written = hex_text(color);
    let s = written.drop_first();
    assert forall|i: int| 0 <= i < 6 implies (#[trigger] s[i]) as u32 <= 127 && s[i] != '#' by {
        lemma_hex_digit(color.r as int / 16);
        lemma_hex_digit(color.r as int % 16);
        lemma_hex_digit(color.g as int / 16);
        lemma_hex_digit(color.g as int % 16);
        lemma_hex_digit(color.b as int / 16);
        lemma_hex_digit(color.b as int % 16);
    }
    assert(s[0] != '#');
    assert(without_number_signs(s) == s);
    assert(without_number_signs(written) == s);
    assert(is_ascii_chars(s));
    let bytes = encode_utf8(s);
    encode_utf8_valid_utf8(s);
    is_ascii_chars_encode_utf8(s);
    assert(bytes.len() == 6);
    is_char_boundary_start_end_of_seq(bytes);
    is_char_boundary_iff_is_leading_byte(bytes, 2);
    is_char_boundary_iff_is_leading_byte(bytes, 4);
    assert(bytes[2] == s[2] as u8);
    assert(bytes[4] == s[4] as u8);
    lemma_hex_pair(s, 0, color.r);
    lemma_hex_pair(s, 2, color.g);
    lemma_hex_pair(s, 4, color.b);
}

/// The module path in numbers: what the system wrote is taken exactly if it wrote something
/// that did not fill the buffer; else a buffer of twice the size is tried, up to one of 32768
/// units, and the search is given up behind that one, or if the system wrote nothing.
pub proof fn law_module_path_in_numbers(buf: Seq<u16>, len: nat)
    requires
        buf.len() > 0,
    ensures
        module_path_next(buf, len) == PathNext::Done(None) <==> len == 0 || (len >= buf.len()
            && buf.len() >= 32_768),
        0 < len < buf.len() ==> module_path_next(buf, len) == PathNext::Done(
            Some(buf.take(len as int).push(0)),
        ),
        len >= buf.len() && buf.len() <= 16_384 ==> module_path_next(buf, len) == PathNext::Ask(
            2 * buf.len(),
        ),
        len >= buf.len() && 16_384 < buf.len() < 32_768 ==> module_path_next(buf, len)
            == PathNext::Ask(32_768),
{
}

} // verus!
