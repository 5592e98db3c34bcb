//! The countdown to the reset of a usage window.

use vstd::prelude::*;

use crate::binary64;
use crate::localization::Strings;
use crate::models::{AppUsageData, UsageData, UsageSection};
use crate::text;
use crate::time;
use crate::time::UnixTime;

verus! {

/// The unit that a countdown is shown in.
#[derive(Clone, Copy, Debug, PartialEq, Eq, Structural)]
pub enum CountdownUnit {
    Days,
    Hours,
    Minutes,
    Seconds,
}

impl CountdownUnit {
    /// How many seconds the unit has.
    pub open spec fn secs(self) -> nat {
        match self {
            CountdownUnit::Days => 86400,
            CountdownUnit::Hours => 3600,
            CountdownUnit::Minutes => 60,
            CountdownUnit::Seconds => 1,
        }
    }

    /// The unit's suffix in the display language.
    pub open spec fn suffix(self, strings: Strings) -> Seq<char> {
        match self {
            CountdownUnit::Days => strings.day_suffix@,
            CountdownUnit::Hours => strings.hour_suffix@,
            CountdownUnit::Minutes => strings.minute_suffix@,
            CountdownUnit::Seconds => strings.second_suffix@,
        }
    }
}

/// The largest unit of which `total_secs` has at least one; seconds if it has none.
pub open spec fn countdown_unit(total_secs: nat) -> CountdownUnit {
    if total_secs >= 86400 {
        CountdownUnit::Days
    } else if total_secs >= 3600 {
        CountdownUnit::Hours
    } else if total_secs >= 60 {
        CountdownUnit::Minutes
    } else {
        CountdownUnit::Seconds
    }
}

/// How many full ones of its largest unit a remaining time has.
pub open spec fn shown_count(total_secs: nat) -> nat {
    total_secs / countdown_unit(total_secs).secs()
}

/// A remaining time in its largest unit, rounded down.
pub open spec fn countdown_text(total_secs: nat, strings: Strings) -> Seq<char> {
    text::decimal(shown_count(total_secs)) + countdown_unit(total_secs).suffix(strings)
}

/// Shows a remaining time in its largest unit, rounded down.
pub fn format_countdown_from_secs(total_secs: u64, strings: Strings) -> (s: String)
    ensures
        s@ == countdown_text(total_secs as nat, strings),
{
    let total_mins = total_secs / 60;
    let total_hours = total_secs / 3600;
    let total_days = total_secs / 86400;

    let (count, suffix) = if total_days >= 1 {
        (total_days, strings.day_suffix)
    } else if total_hours >= 1 {
        (total_hours, strings.hour_suffix)
    } else if total_mins >= 1 {
        (total_mins, strings.minute_suffix)
    } else {
        (total_secs, strings.second_suffix)
    };
    let mut s = text::decimal_text(count);
    text::append(&mut s, suffix);
    s
}

/// Seconds until the shown count goes down, for a time of `total_secs`: what is above
/// the last full unit, and one more.
pub open spec fn display_change_secs(total_secs: nat) -> nat {
    total_secs % countdown_unit(total_secs).secs() + 1
}

/// Seconds until the shown countdown changes.
pub fn time_until_display_change_from_secs(total_secs: u64) -> (secs: u64)
    ensures
        secs == display_change_secs(total_secs as nat),
{
    let total_mins = total_secs / 60;
    let total_hours = total_secs / 3600;
    let total_days = total_secs / 86400;

    let current_bucket_start = if total_days >= 1 {
        total_days * 86400
    } else if total_hours >= 1 {
        total_hours * 3600
    } else if total_mins >= 1 {
        total_mins * 60
    } else {
        total_secs
    };

    (total_secs - current_bucket_start) + 1
}

/// What the countdown to `resets_at` shows at `now`.
pub open spec fn countdown_at(
    resets_at: Option<UnixTime>,
    strings: Strings,
    now: UnixTime,
) -> Seq<char> {
    match resets_at {
        None => Seq::empty(),
        Some(reset) => match now.whole_secs_until(reset) {
            None => strings.now@,
            Some(secs) => countdown_text(secs, strings),
        },
    }
}

/// Shows the countdown to `resets_at` as it stands at `now`: nothing without a reset
/// time, and the word for "now" once it has passed.
pub fn format_countdown(resets_at: Option<UnixTime>, strings: Strings, now: UnixTime) -> (s: String)
    requires
        now.wf(),
        resets_at matches Some(t) ==> t.wf(),
    ensures
        s@ == countdown_at(resets_at, strings, now),
{
    let reset = match resets_at {
        Some(t) => t,
        None => return String::new(),
    };
    match now.secs_until(reset) {
        Some(secs) => format_countdown_from_secs(secs, strings),
        None => text::copy(strings.now),
    }
}

/// What is shown of a usage window at `now`: the rounded percentage, and the countdown
/// behind a middle dot if there is one.
pub open spec fn line_at(section: UsageSection, strings: Strings, now: UnixTime) -> Seq<char> {
    let percent = binary64::whole_text(section.percentage) + "%"@;
    let countdown = countdown_at(section.resets_at, strings, now);
    if countdown.len() == 0 {
        percent
    } else {
        percent + " \u{00b7} "@ + countdown
    }
}

/// Formats a usage section as "X% · Yh" style text, as it stands at `now`.
pub fn format_line_at(section: &UsageSection, strings: Strings, now: UnixTime) -> (s: String)
    requires
        now.wf(),
        section.wf(),
    ensures
        s@ == line_at(*section, strings, now),
{
    let mut s = binary64::format_whole(section.percentage);
    text::append(&mut s, "%");
    let countdown = format_countdown(section.resets_at, strings, now);
    if !countdown.as_str().is_empty() {
        text::append(&mut s, " \u{00b7} ");
        text::append(&mut s, countdown.as_str());
    }
    s
}

/// Formats a usage section as "X% · Yh" style text.
pub fn format_line(section: &UsageSection, strings: Strings) -> (s: String)
    requires
        section.wf(),
    ensures
        exists|now: UnixTime|
            now.wf() && time::shown(now) && s@ == #[trigger] line_at(*section, strings, now),
{
    let at = time::now();
    format_line_at(section, strings, at)
}

/// Seconds until the countdown to `resets_at`, as it stands at `now`, changes. There is
/// no change to come without a reset time, or once it has passed.
pub open spec fn change_at(resets_at: Option<UnixTime>, now: UnixTime) -> Option<nat> {
    match resets_at {
        None => None,
        Some(reset) => match now.whole_secs_until(reset) {
            None => None,
            Some(secs) => Some(display_change_secs(secs)),
        },
    }
}

/// Calculates how long after `now` the display text would change, in seconds.
pub fn time_until_display_change_at(resets_at: Option<UnixTime>, now: UnixTime) -> (secs: Option<
    u64,
>)
    requires
        now.wf(),
        resets_at matches Some(t) ==> t.wf(),
    ensures
        secs is Some == change_at(resets_at, now) is Some,
        secs matches Some(n) ==> change_at(resets_at, now) == Some(n as nat),
{
    let reset = match resets_at {
        Some(t) => t,
        None => return None,
    };
    match now.secs_until(reset) {
        Some(secs) => Some(time_until_display_change_from_secs(secs)),
        None => None,
    }
}

/// Calculates how long until the display text would change, in seconds.
pub fn time_until_display_change(resets_at: Option<UnixTime>) -> (secs: Option<u64>)
    requires
        resets_at matches Some(t) ==> t.wf(),
    ensures
        resets_at is None ==> secs is None,
        exists|now: UnixTime|
            now.wf() && time::shown(now) && (match secs {
                Some(n) => #[trigger] change_at(resets_at, now) == Some(n as nat),
                None => change_at(resets_at, now) is None,
            }),
{
    let at = time::now();
    let secs = time_until_display_change_at(resets_at, at);
    assert(at.wf() && time::shown(at) && (match secs {
        Some(n) => change_at(resets_at, at) == Some(n as nat),
        None => change_at(resets_at, at) is None,
    }));
    secs
}

/// Tests whether the section has reached its reset time at `now`.
fn section_is_past_reset(section: &UsageSection, now: UnixTime) -> (yes: bool)
    ensures
        yes == section.past_reset_at(now),
{
    match section.resets_at {
        Some(t) => now.reached(t),
        None => false,
    }
}

/// Returns true if either section has reached its reset time at `now`.
pub fn is_past_reset_at(data: &UsageData, now: UnixTime) -> (yes: bool)
    ensures
        yes == data.past_reset_at(now),
{
    section_is_past_reset(&data.session, now) || section_is_past_reset(&data.weekly, now)
}

/// Returns true if either section has reached "now" (reset time has passed).
pub fn is_past_reset(data: &UsageData) -> (yes: bool)
    ensures
        exists|now: UnixTime|
            now.wf() && time::shown(now) && yes == #[trigger] data.past_reset_at(now),
{
    let at = time::now();
    is_past_reset_at(data, at)
}

/// Returns true if one of the services has a section that reached its reset time at
/// `now`.
pub fn app_is_past_reset_at(data: &AppUsageData, now: UnixTime) -> (yes: bool)
    ensures
        yes == data.past_reset_at(now),
{
    let claude = match &data.claude_code {
        Some(usage) => is_past_reset_at(usage, now),
        None => false,
    };
    let codex = match &data.codex {
        Some(usage) => is_past_reset_at(usage, now),
        None => false,
    };
    claude || codex
}

/// Returns true if one of the services has a section whose reset time has passed.
pub fn app_is_past_reset(data: &AppUsageData) -> (yes: bool)
    ensures
        exists|now: UnixTime|
            now.wf() && time::shown(now) && yes == #[trigger] data.past_reset_at(now),
{
    let at = time::now();
    app_is_past_reset_at(data, at)
}

/// The text of a running countdown stays the same until the announced change, and
/// shows another number at it.
pub proof fn law_display_changes_when_announced(total_secs: nat, elapsed: nat, strings: Strings)
    requires
        elapsed <= total_secs,
    ensures
        elapsed < display_change_secs(total_secs) ==> countdown_text(
            (total_secs - elapsed) as nat,
            strings,
        ) == countdown_text(total_secs, strings),
        elapsed == display_change_secs(total_secs) ==> shown_count((total_secs - elapsed) as nat)
            != shown_count(total_secs),
{
    let unit = countdown_unit(total_secs).secs() as int;
    let n = total_secs as int;
    let left = n - elapsed;
    if elapsed < display_change_secs(total_secs) {
        assert(left / unit == n / unit && left >= n - n % unit);
    }
}

/// A text does not start with a digit.
pub open spec fn starts_without_digit(s: Seq<char>) -> bool {
    s.len() > 0 ==> text::digit(s[0]) >= 10
}

/// None of the unit suffixes starts with a digit.
pub open spec fn plain_suffixes(strings: Strings) -> bool {
    &&& starts_without_digit(strings.day_suffix@)
    &&& starts_without_digit(strings.hour_suffix@)
    &&& starts_without_digit(strings.minute_suffix@)
    &&& starts_without_digit(strings.second_suffix@)
}

/// The number in front of a suffix can be read off.
proof fn lemma_count_reads_off(a: nat, b: nat, x: Seq<char>, y: Seq<char>)
    requires
        starts_without_digit(x),
        starts_without_digit(y),
        text::decimal(a) + x == text::decimal(b) + y,
    ensures
        a == b,
{
    let da = text::decimal(a);
    let db = text::decimal(b);
    let whole = da + x;
    text::law_decimal_reads_back(a);
    text::law_decimal_reads_back(b);
    if da.len() < db.len() {
        assert(whole[da.len() as int] == db[da.len() as int]);
        assert(whole[da.len() as int] == x[0]);
    } else if db.len() < da.len() {
        assert(whole[db.len() as int] == da[db.len() as int]);
        assert((db + y)[db.len() as int] == y[0]);
    }
    assert(da =~= whole.take(da.len() as int));
    assert(db =~= (db + y).take(db.len() as int));
}

/// Where no suffix starts with a digit, the text of a running countdown changes exactly at
/// the announced moment: before it the text is the same, and at it another one.
pub proof fn law_text_changes_when_announced(total_secs: nat, elapsed: nat, strings: Strings)
    requires
        elapsed <= total_secs,
        elapsed <= display_change_secs(total_secs),
        plain_suffixes(strings),
    ensures
        (countdown_text((total_secs - elapsed) as nat, strings) == countdown_text(
            total_secs,
            strings,
        )) == (elapsed < display_change_secs(total_secs)),
{
    law_display_changes_when_announced(total_secs, elapsed, strings);
    let left = (total_secs - elapsed) as nat;
    if elapsed == display_change_secs(total_secs) && countdown_text(left, strings)
        == countdown_text(total_secs, strings) {
        lemma_count_reads_off(
            shown_count(left),
            shown_count(total_secs),
            countdown_unit(left).suffix(strings),
            countdown_unit(total_secs).suffix(strings),
        );
    }
}

/// The countdown in numbers: seconds below a minute, else full minutes below an hour, else
/// full hours below a day, else full days, with the suffix of the unit.
pub proof fn law_countdown_in_numbers(total_secs: nat, count: nat, strings: Strings)
    ensures
        total_secs < 60 ==> countdown_text(total_secs, strings) == text::decimal(total_secs)
            + strings.second_suffix@,
        60 <= total_secs < 3600 && 60 * count <= total_secs < 60 * count + 60 ==> countdown_text(
            total_secs,
            strings,
        ) == text::decimal(count) + strings.minute_suffix@,
        3600 <= total_secs < 86400 && 3600 * count <= total_secs < 3600 * count + 3600
            ==> countdown_text(total_secs, strings) == text::decimal(count) + strings.hour_suffix@,
        86400 <= total_secs && 86400 * count <= total_secs < 86400 * count + 86400
            ==> countdown_text(total_secs, strings) == text::decimal(count) + strings.day_suffix@,
{
}

/// The line of a window in numbers. In front stands the whole number next to the percentage,
/// the even one of two that are equally near. Without a reset time that is all. Else the word
/// for "now" follows if the reset time has passed; and if it is `secs` full seconds away, the
/// countdown from those.
pub proof fn law_line_in_numbers(
    section: UsageSection,
    strings: Strings,
    now: UnixTime,
    percent: nat,
    secs: nat,
)
    requires
        !section.percentage.nan(),
        !section.percentage.infinite(),
        !section.percentage.sign(),
        binary64::nearest_whole(section.percentage.magnitude(), percent),
        strings.now@.len() > 0,
    ensures
        ({
            let line = line_at(section, strings, now);
            let front = text::decimal(percent) + "%"@;
            match section.resets_at {
                None => line == front,
                Some(reset) => {
                    &&& reset.total() < now.total() ==> line == front + " \u{00b7} "@ + strings.now@
                    &&& secs * 1_000_000_000 <= reset.total() - now.total() < (secs + 1)
                        * 1_000_000_000 ==> line == front + " \u{00b7} "@ + countdown_text(
                        secs,
                        strings,
                    )
                },
            }
        }),
{
    binary64::law_rounded_even_is_nearest(section.percentage.magnitude(), percent);
    if let Some(reset) = section.resets_at {
        let left = reset.total() - now.total();
        if secs * 1_000_000_000 <= left < (secs + 1) * 1_000_000_000 {
            assert(left / 1_000_000_000 == secs);
            text::law_decimal_reads_back(shown_count(secs));
            assert(countdown_text(secs, strings).len() > 0);
        }
    }
}

/// The announced change in numbers: one second behind the last full minute, hour or day, as
/// the countdown shows those, and every second below a minute.
pub proof fn law_change_in_numbers(reset: UnixTime, now: UnixTime, secs: nat, count: nat)
    requires
        secs * 1_000_000_000 <= reset.total() - now.total() < (secs + 1) * 1_000_000_000,
    ensures
        secs < 60 ==> change_at(Some(reset), now) == Some(1nat),
        60 <= secs < 3600 && 60 * count <= secs < 60 * count + 60 ==> change_at(Some(reset), now)
            == Some((secs - 60 * count + 1) as nat),
        3600 <= secs < 86400 && 3600 * count <= secs < 3600 * count + 3600 ==> change_at(
            Some(reset),
            now,
        ) == Some((secs - 3600 * count + 1) as nat),
        86400 <= secs && 86400 * count <= secs < 86400 * count + 86400 ==> change_at(
            Some(reset),
            now,
        ) == Some((secs - 86400 * count + 1) as nat),
{
    assert((reset.total() - now.total()) / 1_000_000_000 == secs);
}

/// Figures are past a reset exactly if a window of a service has a reset time that is not
/// after now.
pub proof fn law_past_reset_is_that_of_a_window(data: AppUsageData, now: UnixTime)
    ensures
        data.past_reset_at(now) <==> exists|service: UsageData, reset: UnixTime|
            #![trigger service.session, reset.total()]
            (data.claude_code == Some(service) || data.codex == Some(service)) && (
            service.session.resets_at == Some(reset) || service.weekly.resets_at == Some(reset))
                && reset.total() <= now.total(),
{
    if data.past_reset_at(now) {
        let service = if data.claude_code is Some && data.claude_code.unwrap().past_reset_at(now) {
            data.claude_code.unwrap()
        } else {
            data.codex.unwrap()
        };
        let section = if service.session.past_reset_at(now) {
            service.session
        } else {
            service.weekly
        };
        let reset = section.resets_at.unwrap();
        assert(service.session == service.session && reset.total() <= now.total());
    }
}

/// Once a reset time has passed it stays passed.
pub proof fn law_past_reset_is_lasting(data: AppUsageData, now: UnixTime, later: UnixTime)
    requires
        now.total() <= later.total(),
        data.past_reset_at(now),
    ensures
        data.past_reset_at(later),
{
}

/// The countdown shows the word for "now" in place of a number exactly when the reset
/// time is strictly behind.
pub proof fn law_countdown_ends_at_the_reset(reset: UnixTime, now: UnixTime)
    ensures
        now.whole_secs_until(reset) is None <==> reset.total() < now.total(),
        change_at(Some(reset), now) is None <==> reset.total() < now.total(),
{
}

/// The line of a window is the one for an instant that the clock showed.
pub proof fn law_line_is_for_the_time_shown(section: &UsageSection, strings: Strings, s: String)
    requires
        call_ensures(format_line, (section, strings), s),
    ensures
        exists|now: UnixTime| #[trigger]
            time::shown(now) && s@ == line_at(*section, strings, now),
{
    let now = choose|now: UnixTime|
        now.wf() && time::shown(now) && s@ == #[trigger] line_at(*section, strings, now);
    assert(time::shown(now));
}

/// The announced change, and whether a reset time has passed, are those for an instant that
/// the clock showed.
pub proof fn law_answers_are_for_the_time_shown(
    resets_at: Option<UnixTime>,
    secs: Option<u64>,
    data: &UsageData,
    past: bool,
    app: &AppUsageData,
    app_past: bool,
)
    requires
        call_ensures(time_until_display_change, (resets_at,), secs),
        call_ensures(is_past_reset, (data,), past),
        call_ensures(app_is_past_reset, (app,), app_past),
    ensures
        exists|now: UnixTime| #[trigger]
            time::shown(now) && (match secs {
                Some(n) => change_at(resets_at, now) == Some(n as nat),
                None => change_at(resets_at, now) is None,
            }),
        exists|now: UnixTime| #[trigger] time::shown(now) && past == data.past_reset_at(now),
        exists|now: UnixTime| #[trigger] time::shown(now) && app_past == app.past_reset_at(now),
{
    let a = choose|now: UnixTime|
        now.wf() && time::shown(now) && (match secs {
            Some(n) => #[trigger] change_at(resets_at, now) == Some(n as nat),
            None => change_at(resets_at, now) is None,
        });
    let b = choose|now: UnixTime|
        now.wf() && time::shown(now) && past == #[trigger] data.past_reset_at(now);
    let c = choose|now: UnixTime|
        now.wf() && time::shown(now) && app_past == #[trigger] app.past_reset_at(now);
    assert(time::shown(a) && time::shown(b) && time::shown(c));
}

} // verus!
