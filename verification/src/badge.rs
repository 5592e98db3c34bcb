//! The badges that tray icons show: what a badge looks like for a percentage, and the
//! steps in which it is drawn.

use vstd::arithmetic::power2::*;
use vstd::prelude::*;

use crate::binary64;
use crate::binary64::Binary64;
use crate::native_interop::Color;
use crate::text;
use crate::tray_icon::TrayIconKind;

verus! {

/// White.
pub open spec fn white() -> Color {
    Color { r: 0xFF, g: 0xFF, b: 0xFF }
}

/// Nearly black.
pub open spec fn black() -> Color {
    Color { r: 0x11, g: 0x11, b: 0x11 }
}

/// The whole percentages at which the fill colour of an Anthropic badge is fixed.
pub open spec fn stop_percent(i: int) -> nat {
    if i <= 0 {
        50
    } else if i == 1 {
        70
    } else if i == 2 {
        85
    } else if i == 3 {
        95
    } else {
        100
    }
}

/// The fill colours at those percentages.
pub open spec fn stop_color(i: int) -> Color {
    if i <= 0 {
        Color { r: 0xD9, g: 0x77, b: 0x57 }
    } else if i == 1 {
        Color { r: 0xD0, g: 0x85, b: 0x40 }
    } else if i == 2 {
        Color { r: 0xCC, g: 0x8C, b: 0x20 }
    } else if i == 3 {
        Color { r: 0xC4, g: 0x50, b: 0x20 }
    } else {
        Color { r: 0xB8, g: 0x20, b: 0x20 }
    }
}

/// A percentage is at most `n`. NaN is not.
pub open spec fn within(percent: Binary64, n: nat) -> bool {
    !percent.nan() && percent.value() <= n * binary64::unit()
}

/// A colour on the way from one colour to another.
pub open spec fn lerped(start: Color, end: Color, t: Binary64) -> Color {
    Color {
        r: binary64::mixed_channel(start.r, end.r, t),
        g: binary64::mixed_channel(start.g, end.g, t),
        b: binary64::mixed_channel(start.b, end.b, t),
    }
}

/// The fill colour between the stops `i` and `i + 1`.
pub open spec fn fill_between(percent: Binary64, i: int) -> Color {
    lerped(
        stop_color(i),
        stop_color(i + 1),
        binary64::position(percent, stop_percent(i), stop_percent(i + 1)),
    )
}

/// The fill colour of an Anthropic badge: the first colour up to the first stop, a mixture of
/// two neighbouring colours between their stops, and the last colour behind the last stop
/// and for NaN.
pub open spec fn claude_fill(percent: Binary64) -> Color {
    if within(percent, stop_percent(0)) {
        stop_color(0)
    } else if within(percent, stop_percent(1)) {
        fill_between(percent, 0)
    } else if within(percent, stop_percent(2)) {
        fill_between(percent, 1)
    } else if within(percent, stop_percent(3)) {
        fill_between(percent, 2)
    } else if within(percent, stop_percent(4)) {
        fill_between(percent, 3)
    } else {
        stop_color(4)
    }
}

/// The colour at a stop.
fn color_at_stop(i: u64) -> (color: Color)
    ensures
        color == stop_color(i as int),
{
    match i {
        0 => Color::new(0xD9, 0x77, 0x57),
        1 => Color::new(0xD0, 0x85, 0x40),
        2 => Color::new(0xCC, 0x8C, 0x20),
        3 => Color::new(0xC4, 0x50, 0x20),
        _ => Color::new(0xB8, 0x20, 0x20),
    }
}

/// Mixes two colours channel by channel.
fn lerp_color(start: Color, end: Color, t: Binary64) -> (color: Color)
    requires
        !t.nan(),
        !t.sign(),
        pow2(1022) <= t.magnitude() <= binary64::unit(),
    ensures
        color == lerped(start, end, t),
{
    Color::new(
        binary64::lerp_channel(start.r, end.r, t),
        binary64::lerp_channel(start.g, end.g, t),
        binary64::lerp_channel(start.b, end.b, t),
    )
}

/// The fill colour of an Anthropic badge (see [`claude_fill`]).
pub fn interpolated_fill(percent: Binary64) -> (color: Color)
    ensures
        color == claude_fill(percent),
{
    proof {
        binary64::lemma_percent_patterns();
        binary64::lemma_named_patterns();
    }
    if percent.at_most(Binary64 { bits: binary64::FIFTY_BITS }) {
        return color_at_stop(0);
    }
    if percent.is_nan() {
        return color_at_stop(4);
    }
    let (i, from, to): (u64, u64, u64) = if percent.at_most(
        Binary64 { bits: binary64::SEVENTY_BITS },
    ) {
        (0, 50, 70)
    } else if percent.at_most(Binary64 { bits: binary64::EIGHTY_FIVE_BITS }) {
        (1, 70, 85)
    } else if percent.at_most(Binary64 { bits: binary64::NINETY_FIVE_BITS }) {
        (2, 85, 95)
    } else if percent.at_most(Binary64 { bits: binary64::HUNDRED_BITS }) {
        (3, 95, 100)
    } else {
        return color_at_stop(4);
    };
    let t = binary64::position_between(percent, from, to);
    lerp_color(color_at_stop(i), color_at_stop(i + 1), t)
}

/// The percentage of a stop belongs to the way that ends there.
proof fn lemma_fill_at_stop(percent: Binary64, i: int)
    requires
        1 <= i <= 4,
        !percent.nan(),
        percent.value() == stop_percent(i) * binary64::unit(),
        binary64::unit() > 0,
    ensures
        claude_fill(percent) == fill_between(percent, i - 1),
{
    assert forall|n: nat| #[trigger] within(percent, n) == (stop_percent(i) <= n) by {
        let u = binary64::unit();
        let at = stop_percent(i);
        assert((at * u <= n * u) == (at <= n)) by (nonlinear_arith)
            requires
                u > 0,
        ;
    }
}

/// The fill colour runs through the colours of the stops: at the percentage of a stop it is
/// the colour of the stop.
pub proof fn law_fill_meets_its_stops(percent: Binary64, i: int)
    requires
        0 <= i <= 4,
        !percent.nan(),
        percent.value() == stop_percent(i) * binary64::unit(),
    ensures
        claude_fill(percent) == stop_color(i),
{
    let u = binary64::unit();
    assert(u > 0) by {
        binary64::lemma_named_patterns();
    }
    if i > 0 {
        lemma_fill_at_stop(percent, i);
        let start = stop_color(i - 1);
        let end = stop_color(i);
        binary64::lemma_position_at_end(percent, stop_percent(i - 1), stop_percent(i));
        binary64::lemma_mixed_whole(start.r, end.r);
        binary64::lemma_mixed_whole(start.g, end.g);
        binary64::lemma_mixed_whole(start.b, end.b);
    }
}

/// A Codex badge is drawn in reverse: the percentage is at least 90.
pub open spec fn reversed(percent: Binary64) -> bool {
    !percent.nan() && percent.value() >= 90 * binary64::unit()
}

/// Tests whether a Codex badge is drawn in reverse.
fn is_reversed(percent: Binary64) -> (yes: bool)
    ensures
        yes == reversed(percent),
{
    proof {
        binary64::lemma_percent_patterns();
    }
    (Binary64 { bits: binary64::NINETY_BITS }).at_most(percent)
}

/// The fill colour of a Codex badge.
pub fn codex_fill(percent: Binary64) -> (color: Color)
    ensures
        color == (if reversed(percent) {
            white()
        } else {
            black()
        }),
{
    if is_reversed(percent) {
        Color::new(0xFF, 0xFF, 0xFF)
    } else {
        Color::new(0x11, 0x11, 0x11)
    }
}

/// The rendered number of a percentage, if there is one.
pub open spec fn render_key_of(percent: Option<Binary64>) -> Option<u32> {
    match percent {
        Some(p) => Some(binary64::render_key(p)),
        None => None,
    }
}

/// The part of a usage value that affects how the badge is drawn: the rounded percentage
/// clamped to the displayable range. Two inputs with the same key produce the same badge
/// (see [`law_same_key_same_badge`]), so a poll that returns an unchanged rounded percentage
/// does not need a new icon at all.
pub fn icon_render_key(percent: Option<Binary64>) -> (key: Option<u32>)
    ensures
        key == render_key_of(percent),
{
    match percent {
        Some(p) => Some(binary64::render_percent(p)),
        None => None,
    }
}

/// Everything needed to draw a badge.
#[derive(Clone, Debug, PartialEq, Eq)]
pub struct BadgeSpec {
    pub size: i32,
    pub radius: i32,
    pub outline: i32,
    pub fill: Color,
    pub outline_color: Color,
    pub text_color: Color,
    pub text: String,
    pub font_height: i32,
}

/// The model of a [`BadgeSpec`].
pub struct Badge {
    pub size: int,
    pub radius: int,
    pub outline: int,
    pub fill: Color,
    pub outline_color: Color,
    pub text_color: Color,
    pub text: Seq<char>,
    pub font_height: int,
}

impl View for BadgeSpec {
    type V = Badge;

    open spec fn view(&self) -> Badge {
        Badge {
            size: self.size as int,
            radius: self.radius as int,
            outline: self.outline as int,
            fill: self.fill,
            outline_color: self.outline_color,
            text_color: self.text_color,
            text: self.text@,
            font_height: self.font_height as int,
        }
    }
}

/// The text of a badge: the rendered percentage; without one nothing for Anthropic, a C for
/// Codex.
pub open spec fn badge_text(kind: TrayIconKind, key: Option<u32>) -> Seq<char> {
    match key {
        Some(k) => text::decimal(k as nat),
        None => match kind {
            TrayIconKind::Claude => ""@,
            TrayIconKind::Codex => "C"@,
        },
    }
}

/// The height of the text, which is smaller for longer ones.
pub open spec fn font_height(len: nat) -> int {
    if len == 1 {
        -50
    } else if len == 2 {
        -42
    } else {
        -30
    }
}

/// The badge for a percentage: its text and its colours are those of the rendered
/// percentage. A missing one is coloured like 0.
pub open spec fn badge(kind: TrayIconKind, percent: Option<Binary64>) -> Badge {
    let key = render_key_of(percent);
    let shown = binary64::whole(
        match key {
            Some(k) => k as nat,
            None => 0,
        },
    );
    let reverse = kind == TrayIconKind::Codex && reversed(shown);
    let fill = match kind {
        TrayIconKind::Claude => claude_fill(shown),
        TrayIconKind::Codex => if reverse {
            white()
        } else {
            black()
        },
    };
    Badge {
        size: 64,
        radius: 2,
        outline: if kind == TrayIconKind::Codex {
            3
        } else {
            0
        },
        fill,
        outline_color: match kind {
            TrayIconKind::Claude => fill,
            TrayIconKind::Codex => if reverse {
                black()
            } else {
                white()
            },
        },
        text_color: if reverse {
            black()
        } else {
            white()
        },
        text: badge_text(kind, key),
        font_height: font_height(badge_text(kind, key).len()),
    }
}

/// Makes the badge for a percentage (see [`badge`]).
pub fn badge_spec(kind: TrayIconKind, percent: Option<Binary64>) -> (spec: BadgeSpec)
    ensures
        spec@ == badge(kind, percent),
{
    let key = icon_render_key(percent);
    let drawn = binary64::from_whole(
        match key {
            Some(k) => k,
            None => 0,
        },
    );
    let codex = matches!(kind, TrayIconKind::Codex);
    let reverse = codex && is_reversed(drawn);
    let bright = Color::new(0xFF, 0xFF, 0xFF);
    let dark = Color::new(0x11, 0x11, 0x11);
    let fill = match kind {
        TrayIconKind::Claude => interpolated_fill(drawn),
        TrayIconKind::Codex => codex_fill(drawn),
    };
    let text_color = if reverse {
        dark
    } else {
        bright
    };
    let outline_color = match kind {
        TrayIconKind::Claude => fill,
        TrayIconKind::Codex => text_color,
    };
    let shown = match key {
        Some(k) => text::decimal_text(k as u64),
        None => match kind {
            TrayIconKind::Claude => String::new(),
            TrayIconKind::Codex => text::copy("C"),
        },
    };
    proof {
        reveal_strlit("");
    }
    assert(shown@ =~= badge_text(kind, render_key_of(percent)));
    let len = text::chars_of(shown.as_str()).len();
    let font_height: i32 = match len {
        1 => -50,
        2 => -42,
        _ => -30,
    };
    BadgeSpec {
        size: 64,
        radius: 2,
        outline: if codex {
            3
        } else {
            0
        },
        fill,
        outline_color,
        text_color,
        text: shown,
        font_height,
    }
}

/// Percentages with the same key have the same badge: the key is all that affects how it is
/// drawn.
pub proof fn law_same_key_same_badge(
    kind: TrayIconKind,
    a: Option<Binary64>,
    b: Option<Binary64>,
)
    requires
        render_key_of(a) == render_key_of(b),
    ensures
        badge(kind, a) == badge(kind, b),
{
}

/// What is done next to make an icon.
pub enum IconStep {
    /// Load the icon of the program.
    LoadAppIcon,
    /// Use the icon of the program.
    UseAppIcon,
    /// Draw this badge.
    Draw(BadgeSpec),
}

/// Decides what is done next to make an icon. `app_icon` tells whether the icon of the
/// program could be loaded, once that was tried.
///
/// For Anthropic, no percentage shows the icon of the program as the loading state, if there
/// is one. For Codex, it shows a black and white placeholder badge.
pub fn create_icon(kind: TrayIconKind, percent: Option<Binary64>, app_icon: Option<bool>) -> (step:
    IconStep)
    ensures
        match (kind, percent, app_icon) {
            (TrayIconKind::Claude, None, None) => step is LoadAppIcon,
            (TrayIconKind::Claude, None, Some(true)) => step is UseAppIcon,
            _ => step matches IconStep::Draw(spec) && spec@ == badge(kind, percent),
        },
{
    if matches!(kind, TrayIconKind::Claude) && percent.is_none() {
        match app_icon {
            None => return IconStep::LoadAppIcon,
            Some(true) => return IconStep::UseAppIcon,
            Some(false) => {},
        }
    }
    IconStep::Draw(badge_spec(kind, percent))
}

/// What is done next to load the icon of a program.
#[derive(Clone, Copy, Debug, PartialEq, Eq, Structural)]
pub enum ExtractStep {
    ExtractSmall,
    ExtractLarge,
    UseSmall,
    UseLarge,
    /// There is no icon.
    Nothing,
}

/// What the system answered when asked for one icon: how many it extracted, and whether
/// the handle that it gave is a valid one.
#[derive(Clone, Copy, Debug, PartialEq, Eq, Structural)]
pub struct Extracted {
    pub count: u32,
    pub valid: bool,
}

/// An icon came out.
pub open spec fn is_icon(answer: Extracted) -> bool {
    answer.count != 0 && answer.valid
}

/// What is done next to load the first small icon of a program, or its first large one if
/// it has no small one. A path that does not end in a zero is not used.
pub open spec fn extract_next(
    path: Seq<u16>,
    small: Option<Extracted>,
    large: Option<Extracted>,
) -> ExtractStep {
    if path.len() == 0 || path.last() != 0 {
        ExtractStep::Nothing
    } else {
        match (small, large) {
            (None, _) => ExtractStep::ExtractSmall,
            (Some(s), None) => if is_icon(s) {
                ExtractStep::UseSmall
            } else {
                ExtractStep::ExtractLarge
            },
            (Some(s), Some(l)) => if is_icon(s) {
                ExtractStep::UseSmall
            } else if is_icon(l) {
                ExtractStep::UseLarge
            } else {
                ExtractStep::Nothing
            },
        }
    }
}

/// Decides what is done next to load the icon of the program at `path`.
///
/// The system makes one icon for every place that it is given to put one, and all of them
/// have to be released. One place is given at a time, so that exactly one icon is made and
/// used.
pub fn extract_first_small_icon(
    path: &[u16],
    small: Option<Extracted>,
    large: Option<Extracted>,
) -> (step: ExtractStep)
    ensures
        step == extract_next(path@, small, large),
{
    if path.len() == 0 || path[path.len() - 1] != 0 {
        return ExtractStep::Nothing;
    }
    let small = match small {
        Some(answer) => answer,
        None => return ExtractStep::ExtractSmall,
    };
    if small.count != 0 && small.valid {
        return ExtractStep::UseSmall;
    }
    let large = match large {
        Some(answer) => answer,
        None => return ExtractStep::ExtractLarge,
    };
    if large.count != 0 && large.valid {
        return ExtractStep::UseLarge;
    }
    ExtractStep::Nothing
}

/// No icon is left over: another one is asked for only while none has come out, and what
/// comes out is used.
pub proof fn law_one_icon_is_extracted(
    path: Seq<u16>,
    small: Option<Extracted>,
    large: Option<Extracted>,
)
    requires
        path.len() > 0,
        path.last() == 0,
    ensures
        extract_next(path, small, large) is ExtractSmall ==> small is None,
        extract_next(path, small, large) is ExtractLarge ==> (small matches Some(s) && !is_icon(s)),
        small matches Some(s) ==> (is_icon(s) ==> extract_next(path, small, large) is UseSmall),
        small matches Some(s) ==> (large matches Some(l) ==> (!is_icon(s) && is_icon(l)
            ==> extract_next(path, small, large) is UseLarge)),
{
}

/// A whole number below 1000 is worth exactly that in binary64.
proof fn lemma_shown_value(key: u32)
    requires
        key <= 999,
    ensures
        !binary64::whole(key as nat).nan(),
        binary64::whole(key as nat).value() == key * binary64::unit(),
{
    binary64::lemma_whole_is_exact(key as nat);
}

/// A badge shows the rendered percentage in digits, smaller the more there are; without a
/// percentage one of Anthropic shows nothing and one of Codex a C.
pub proof fn law_badge_shows_the_percentage(kind: TrayIconKind, percent: Option<Binary64>)
    ensures
        ({
            let drawn = badge(kind, percent);
            &&& percent is None && kind == TrayIconKind::Claude ==> drawn.text.len() == 0
            &&& percent is None && kind == TrayIconKind::Codex ==> drawn.text == seq!['C']
                && drawn.font_height == -50
            &&& percent matches Some(p) ==> {
                let key = binary64::render_key(p);
                &&& drawn.text == text::decimal(key as nat)
                &&& key <= 999
                &&& key < 10 ==> drawn.font_height == -50
                &&& 10 <= key < 100 ==> drawn.font_height == -42
                &&& key >= 100 ==> drawn.font_height == -30
            }
            &&& drawn.size == 64 && drawn.radius == 2
            &&& drawn.outline == (if kind == TrayIconKind::Codex {
                3int
            } else {
                0
            })
        }),
{
    reveal_strlit("");
    reveal_strlit("C");
    assert("C"@ =~= seq!['C']);
    if let Some(p) = percent {
        let key = binary64::render_key(p) as nat;
        reveal_with_fuel(text::decimal, 4);
        assert(key < 10 ==> text::decimal(key).len() == 1);
        assert(10 <= key < 100 ==> text::decimal(key).len() == 2);
        assert(100 <= key < 1000 ==> text::decimal(key).len() == 3);
    }
}

/// A Codex badge is black with a white rim and white text below 90 percent as it is shown,
/// and the other way round from 90 on. One of Anthropic has white text, and a rim in the
/// colour of its fill.
pub proof fn law_badge_colours(kind: TrayIconKind, percent: Option<Binary64>)
    ensures
        ({
            let drawn = badge(kind, percent);
            let bright = Color { r: 0xFF, g: 0xFF, b: 0xFF };
            let dark = Color { r: 0x11, g: 0x11, b: 0x11 };
            let key = match percent {
                Some(p) => binary64::render_key(p) as nat,
                None => 0,
            };
            &&& kind == TrayIconKind::Codex && key < 90 ==> drawn.fill == dark
                && drawn.outline_color == bright && drawn.text_color == bright
            &&& kind == TrayIconKind::Codex && key >= 90 ==> drawn.fill == bright
                && drawn.outline_color == dark && drawn.text_color == dark
            &&& kind == TrayIconKind::Claude ==> drawn.text_color == bright && drawn.outline_color
                == drawn.fill && drawn.fill == claude_fill(binary64::whole(key))
        }),
{
    let key: u32 = match percent {
        Some(p) => binary64::render_key(p),
        None => 0,
    };
    lemma_shown_value(key);
    binary64::lemma_named_patterns();
    let u = binary64::unit();
    assert((key * u >= 90 * u) == (key >= 90)) by (nonlinear_arith)
        requires
            u > 0,
    ;
}

/// The fill of an Anthropic badge in numbers: one colour up to 50 percent, and fixed colours
/// at 70, 85 and 95, and from 100 on.
pub proof fn law_fill_in_numbers(percent: Binary64, n: nat)
    requires
        !percent.nan(),
        percent.value() == n * binary64::unit(),
    ensures
        n <= 50 ==> claude_fill(percent) == (Color { r: 0xD9, g: 0x77, b: 0x57 }),
        n == 70 ==> claude_fill(percent) == (Color { r: 0xD0, g: 0x85, b: 0x40 }),
        n == 85 ==> claude_fill(percent) == (Color { r: 0xCC, g: 0x8C, b: 0x20 }),
        n == 95 ==> claude_fill(percent) == (Color { r: 0xC4, g: 0x50, b: 0x20 }),
        n >= 100 ==> claude_fill(percent) == (Color { r: 0xB8, g: 0x20, b: 0x20 }),
{
    binary64::lemma_named_patterns();
    let u = binary64::unit();
    assert forall|m: nat| #[trigger] within(percent, m) == (n <= m) by {
        assert((n * u <= m * u) == (n <= m)) by (nonlinear_arith)
            requires
                u > 0,
        ;
    }
    if n == 70 {
        law_fill_meets_its_stops(percent, 1);
    } else if n == 85 {
        law_fill_meets_its_stops(percent, 2);
    } else if n == 95 {
        law_fill_meets_its_stops(percent, 3);
    } else if n == 100 {
        law_fill_meets_its_stops(percent, 4);
    }
}

/// Between the fixed percentages the fill of an Anthropic badge is a mixture of the two
/// colours, by how far the percentage is on the way.
pub proof fn law_fill_between_in_numbers(percent: Binary64)
    requires
        !percent.nan(),
    ensures
        ({
            let u = binary64::unit();
            let v = percent.value();
            let colors = seq![
                Color { r: 0xD9, g: 0x77, b: 0x57 },
                Color { r: 0xD0, g: 0x85, b: 0x40 },
                Color { r: 0xCC, g: 0x8C, b: 0x20 },
                Color { r: 0xC4, g: 0x50, b: 0x20 },
                Color { r: 0xB8, g: 0x20, b: 0x20 },
            ];
            let mixed = |i: int, t: Binary64|
                Color {
                    r: binary64::mixed_channel(colors[i].r, colors[i + 1].r, t),
                    g: binary64::mixed_channel(colors[i].g, colors[i + 1].g, t),
                    b: binary64::mixed_channel(colors[i].b, colors[i + 1].b, t),
                };
            &&& v <= 50 * u ==> claude_fill(percent) == colors[0]
            &&& 50 * u < v <= 70 * u ==> claude_fill(percent) == mixed(
                0,
                binary64::position(percent, 50, 70),
            )
            &&& 70 * u < v <= 85 * u ==> claude_fill(percent) == mixed(
                1,
                binary64::position(percent, 70, 85),
            )
            &&& 85 * u < v <= 95 * u ==> claude_fill(percent) == mixed(
                2,
                binary64::position(percent, 85, 95),
            )
            &&& 95 * u < v <= 100 * u ==> claude_fill(percent) == mixed(
                3,
                binary64::position(percent, 95, 100),
            )
            &&& v > 100 * u ==> claude_fill(percent) == colors[4]
        }),
{
    binary64::lemma_named_patterns();
}

/// An icon is drawn as the badge for its percentage, but for one of Anthropic without a
/// percentage: that is the icon of the program if it can be loaded.
pub proof fn law_icon_shows_the_badge(
    kind: TrayIconKind,
    percent: Option<Binary64>,
    app_icon: Option<bool>,
    step: IconStep,
)
    requires
        call_ensures(create_icon, (kind, percent, app_icon), step),
    ensures
        ({
            let loading = kind == TrayIconKind::Claude && percent is None;
            &&& step is LoadAppIcon <==> loading && app_icon is None
            &&& step is UseAppIcon <==> loading && app_icon == Some(true)
            &&& step matches IconStep::Draw(drawn) ==> drawn@ == badge(kind, percent)
        }),
{
}

/// A path without a zero at its end is not used at all; else the small icon is asked for
/// first, and nothing comes of it only if both answers have no icon.
pub proof fn law_extraction_in_cases(
    path: Seq<u16>,
    small: Option<Extracted>,
    large: Option<Extracted>,
)
    ensures
        ({
            let step = extract_next(path, small, large);
            let usable = path.len() > 0 && path.last() == 0;
            let icon = |answer: Option<Extracted>|
                answer is Some && answer.unwrap().count != 0 && answer.unwrap().valid;
            &&& !usable ==> step is Nothing
            &&& step is ExtractSmall <==> usable && small is None
            &&& step is UseSmall <==> usable && icon(small)
            &&& step is ExtractLarge <==> usable && small is Some && !icon(small) && large is None
            &&& step is UseLarge <==> usable && small is Some && !icon(small) && icon(large)
        }),
{
}

} // verus!
