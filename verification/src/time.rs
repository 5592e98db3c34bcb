//! Points in time, and the reading of ISO 8601 timestamps.

use vstd::prelude::*;

use crate::text;

verus! {

/// A point in time: whole seconds since the Unix epoch, negative before it, and the
/// nanoseconds behind the second.
#[derive(Clone, Copy, Debug, PartialEq, Eq, Structural)]
pub struct UnixTime {
    pub secs: i64,
    pub nanos: u32,
}

impl UnixTime {
    /// The nanoseconds are less than a second.
    pub open spec fn wf(self) -> bool {
        self.nanos < 1_000_000_000
    }

    /// Nanoseconds since the epoch.
    pub open spec fn total(self) -> int {
        self.secs * 1_000_000_000 + self.nanos
    }

    /// The instant `secs` seconds after the epoch.
    pub open spec fn at_secs(secs: nat) -> UnixTime {
        UnixTime { secs: secs as i64, nanos: 0 }
    }

    /// The instant `secs` seconds after the epoch.
    pub fn from_secs(secs: u64) -> (t: UnixTime)
        requires
            secs <= i64::MAX,
        ensures
            t == UnixTime::at_secs(secs as nat),
            t.secs == secs,
            t.wf(),
    {
        UnixTime { secs: secs as i64, nanos: 0 }
    }

    /// Tests whether this instant is not before `other`.
    pub fn reached(self, other: UnixTime) -> (yes: bool)
        ensures
            yes == (self.total() >= other.total()),
    {
        self.secs as i128 * 1_000_000_000 + self.nanos as i128 >= other.secs as i128 * 1_000_000_000
            + other.nanos as i128
    }

    /// Whole seconds from `self` to `later`; nothing if `later` has passed.
    pub open spec fn whole_secs_until(self, later: UnixTime) -> Option<nat> {
        if later.total() >= self.total() {
            Some(((later.total() - self.total()) / 1_000_000_000) as nat)
        } else {
            None
        }
    }

    /// Whole seconds from `self` to `later`; nothing if `later` has passed.
    pub fn secs_until(self, later: UnixTime) -> (secs: Option<u64>)
        requires
            self.wf(),
            later.wf(),
        ensures
            secs is Some == self.whole_secs_until(later) is Some,
            secs matches Some(n) ==> self.whole_secs_until(later) == Some(n as nat),
    {
        let from = self.secs as i128 * 1_000_000_000 + self.nanos as i128;
        let to = later.secs as i128 * 1_000_000_000 + later.nanos as i128;
        if to >= from {
            Some(((to - from) / 1_000_000_000) as u64)
        } else {
            None
        }
    }

    /// Milliseconds since the epoch, 0 before it.
    pub open spec fn epoch_millis(self) -> int {
        if self.total() < 0 {
            0
        } else {
            self.total() / 1_000_000
        }
    }
}

/// `SystemTime::elapsed` of the epoch: how far the clock is from it, and whether it is not
/// before it, in seconds and nanoseconds. What the clock shows is not known beforehand; the
/// nanoseconds of a `Duration` are less than a second.
#[verifier::external_body]
fn clock_reading() -> (reading: (bool, u64, u32))
    ensures
        reading.2 < 1_000_000_000,
{
    match std::time::UNIX_EPOCH.elapsed() {
        Ok(d) => (true, d.as_secs(), d.subsec_nanos()),
        Err(e) => (false, e.duration().as_secs(), e.duration().subsec_nanos()),
    }
}

/// The instant at the given distance from the epoch. An instant more than `i64::MAX`
/// seconds away is held at that distance.
pub open spec fn instant_at(after: bool, secs: nat, nanos: nat) -> UnixTime {
    if secs >= i64::MAX {
        UnixTime {
            secs: if after {
                i64::MAX
            } else {
                i64::MIN
            },
            nanos: 0,
        }
    } else if after {
        UnixTime { secs: secs as i64, nanos: nanos as u32 }
    } else if nanos == 0 {
        UnixTime { secs: -secs as i64, nanos: 0 }
    } else {
        UnixTime { secs: (-secs - 1) as i64, nanos: (1_000_000_000 - nanos) as u32 }
    }
}

/// The instant at the given distance from the epoch (see [`instant_at`]).
pub fn instant_from(after: bool, secs: u64, nanos: u32) -> (t: UnixTime)
    requires
        nanos < 1_000_000_000,
    ensures
        t == instant_at(after, secs as nat, nanos as nat),
        t.wf(),
        secs < i64::MAX ==> t.total() == (if after {
            secs * 1_000_000_000 + nanos
        } else {
            -(secs * 1_000_000_000 + nanos)
        }),
{
    if secs >= i64::MAX as u64 {
        UnixTime {
            secs: if after {
                i64::MAX
            } else {
                i64::MIN
            },
            nanos: 0,
        }
    } else if after {
        UnixTime { secs: secs as i64, nanos }
    } else if nanos == 0 {
        UnixTime { secs: -(secs as i64), nanos: 0 }
    } else {
        UnixTime { secs: -(secs as i64) - 1, nanos: 1_000_000_000 - nanos }
    }
}

/// The instant lies at the distance from the epoch that a reading of the clock gives, or at
/// the last one that can be held.
pub open spec fn reading_of(t: UnixTime, after: bool, secs: u64, nanos: u32) -> bool {
    if secs >= i64::MAX {
        t.nanos == 0 && t.secs == (if after {
            i64::MAX
        } else {
            i64::MIN
        })
    } else {
        t.total() == (if after {
            secs * 1_000_000_000 + nanos
        } else {
            -(secs * 1_000_000_000 + nanos)
        })
    }
}

/// The system clock was read, and gave this distance from the epoch.
pub closed spec fn clock_read(after: bool, secs: u64, nanos: u32) -> bool {
    nanos < 1_000_000_000 && call_ensures(clock_reading, (), (after, secs, nanos))
}

/// The system clock showed this instant: it was read, and the reading is of this instant.
pub open spec fn shown(t: UnixTime) -> bool {
    t.wf() && exists|after: bool, secs: u64, nanos: u32| #[trigger]
        clock_read(after, secs, nanos) && reading_of(t, after, secs, nanos)
}

/// The instant that the clock showed is the one that was read: as many seconds and
/// nanoseconds from the epoch, behind it or before it.
pub proof fn law_shown_instant_was_read(t: UnixTime)
    requires
        shown(t),
    ensures
        exists|after: bool, secs: u64, nanos: u32| #[trigger]
            clock_read(after, secs, nanos) && (secs < i64::MAX ==> if after {
                t.secs == secs && t.nanos == nanos
            } else {
                t.secs * 1_000_000_000 + t.nanos == -(secs * 1_000_000_000 + nanos)
            }),
{
    let (after, secs, nanos) = choose|after: bool, secs: u64, nanos: u32| #[trigger]
        clock_read(after, secs, nanos) && reading_of(t, after, secs, nanos);
    assert(clock_read(after, secs, nanos));
}

/// Reads the system clock.
pub fn now() -> (t: UnixTime)
    ensures
        t.wf(),
        shown(t),
{
    let reading = clock_reading();
    let t = instant_from(reading.0, reading.1, reading.2);
    assert(clock_read(reading.0, reading.1, reading.2));
    t
}

/// Gregorian leap years.
pub open spec fn leap_year(y: int) -> bool {
    (y % 4 == 0 && y % 100 != 0) || y % 400 == 0
}

/// The number of days in year `y`.
pub open spec fn year_length(y: int) -> nat {
    if leap_year(y) {
        366
    } else {
        365
    }
}

/// The number of days in month `m` of year `y`.
pub open spec fn month_length(y: int, m: int) -> nat {
    if m == 2 {
        if leap_year(y) {
            29
        } else {
            28
        }
    } else if m == 4 || m == 6 || m == 9 || m == 11 {
        30
    } else {
        31
    }
}

/// The days from the start of 1970 to the start of year `y`.
pub open spec fn days_before_year(y: int) -> nat
    decreases y - 1970,
{
    if y <= 1970 {
        0
    } else {
        days_before_year(y - 1) + year_length(y - 1)
    }
}

/// The days from the start of year `y` to the start of its month `m`.
pub open spec fn days_before_month(y: int, m: int) -> nat
    decreases m,
{
    if m <= 1 {
        0
    } else {
        days_before_month(y, m - 1) + month_length(y, m - 1)
    }
}

/// A calendar date and a time of day, as a timestamp writes them.
pub struct DateTime {
    pub year: nat,
    pub month: nat,
    pub day: nat,
    pub hour: nat,
    pub minute: nat,
    pub second: nat,
}

impl DateTime {
    /// The ranges that a timestamp may use. A day up to 31 passes in every month,
    /// and a leap second passes in every minute.
    pub open spec fn in_range(self) -> bool {
        &&& 1970 <= self.year <= 9999
        &&& 1 <= self.month <= 12
        &&& 1 <= self.day <= 31
        &&& self.hour <= 23
        &&& self.minute <= 59
        &&& self.second <= 60
    }

    /// The date and time exist in the calendar, leap seconds aside.
    pub open spec fn exists_in_calendar(self) -> bool {
        &&& self.in_range()
        &&& self.day <= month_length(self.year as int, self.month as int)
        &&& self.second <= 59
    }

    /// Days since the epoch.
    pub open spec fn days(self) -> nat {
        (days_before_year(self.year as int) + days_before_month(
            self.year as int,
            self.month as int,
        ) + self.day - 1) as nat
    }

    /// Seconds since the epoch.
    pub open spec fn unix_seconds(self) -> nat {
        self.days() * 86400 + self.hour * 3600 + self.minute * 60 + self.second
    }

    /// This moment comes before `other`: the first field that differs decides.
    pub open spec fn before(self, other: DateTime) -> bool {
        if self.year != other.year {
            self.year < other.year
        } else if self.month != other.month {
            self.month < other.month
        } else if self.day != other.day {
            self.day < other.day
        } else if self.hour != other.hour {
            self.hour < other.hour
        } else if self.minute != other.minute {
            self.minute < other.minute
        } else {
            self.second < other.second
        }
    }
}

/// The three numbers that `s` writes between two separators.
pub open spec fn three_numbers(s: Seq<char>, sep: char) -> Option<(nat, nat, nat)> {
    let pieces = text::split_on(s, sep);
    if pieces.len() != 3 {
        None
    } else {
        match (
            text::unsigned_number(pieces[0], 10, u64::MAX as nat),
            text::unsigned_number(pieces[1], 10, u64::MAX as nat),
            text::unsigned_number(pieces[2], 10, u64::MAX as nat),
        ) {
            (Some(a), Some(b), Some(c)) => Some((a, b, c)),
            _ => None,
        }
    }
}

/// The moment that `s` writes as `YYYY-MM-DDTHH:MM:SS`, with a fraction of a second
/// allowed and left out of account. Numbers may be shorter or longer than shown.
pub open spec fn written_datetime(s: Seq<char>) -> Option<DateTime> {
    if text::first_index(s, 'T') == s.len() {
        None
    } else {
        match (
            three_numbers(text::before_first(s, 'T'), '-'),
            three_numbers(text::before_first(text::after_first(s, 'T'), '.'), ':'),
        ) {
            (Some(date), Some(time)) => {
                let moment = DateTime {
                    year: date.0,
                    month: date.1,
                    day: date.2,
                    hour: time.0,
                    minute: time.1,
                    second: time.2,
                };
                if moment.in_range() {
                    Some(moment)
                } else {
                    None
                }
            },
            _ => None,
        }
    }
}

/// Tests for a Gregorian leap year.
pub fn is_leap(y: u64) -> (yes: bool)
    ensures
        yes == leap_year(y as int),
{
    (y % 4 == 0 && y % 100 != 0) || y % 400 == 0
}

/// Reads `chars` as three numbers between two separators.
fn read_three(chars: &[char], sep: char) -> (found: Option<(u64, u64, u64)>)
    ensures
        found is Some == three_numbers(chars@, sep) is Some,
        found matches Some(n) ==> three_numbers(chars@, sep) == Some(
            (n.0 as nat, n.1 as nat, n.2 as nat),
        ),
{
    let pieces = text::split(chars, sep);
    let ghost model = text::split_on(chars@, sep);
    assert(model.len() == pieces@.len());
    if pieces.len() != 3 {
        return None;
    }
    assert(model[0] == pieces@[0]@ && model[1] == pieces@[1]@ && model[2] == pieces@[2]@);
    let a = text::parse_unsigned(&pieces[0], 10, u64::MAX);
    let b = text::parse_unsigned(&pieces[1], 10, u64::MAX);
    let c = text::parse_unsigned(&pieces[2], 10, u64::MAX);
    match (a, b, c) {
        (Some(a), Some(b), Some(c)) => Some((a, b, c)),
        _ => None,
    }
}

/// The days before a year up to 9999 are few.
proof fn lemma_days_before_year_bound(y: int)
    requires
        y >= 1970,
    ensures
        days_before_year(y) <= 366 * (y - 1970),
    decreases y,
{
    if y > 1970 {
        lemma_days_before_year_bound(y - 1);
    }
}

/// Counts the days from the epoch to the start of year `y`.
fn count_days_before_year(y: u64) -> (days: u64)
    requires
        1970 <= y <= 9999,
    ensures
        days == days_before_year(y as int),
        days <= 366 * 8029,
{
    let mut days: u64 = 0;
    let mut at: u64 = 1970;
    while at < y
        invariant
            1970 <= at <= y <= 9999,
            days == days_before_year(at as int),
        decreases y - at,
    {
        proof {
            lemma_days_before_year_bound(at as int);
        }
        days += if is_leap(at) {
            366
        } else {
            365
        };
        at += 1;
    }
    proof {
        lemma_days_before_year_bound(y as int);
    }
    days
}

/// Counts the days from the start of year `y` to the start of month `m`.
fn count_days_before_month(y: u64, m: u64) -> (days: u64)
    requires
        1 <= m <= 12,
    ensures
        days == days_before_month(y as int, m as int),
        days <= 31 * 11,
{
    let mut days: u64 = 0;
    let mut at: u64 = 1;
    while at < m
        invariant
            1 <= at <= m <= 12,
            days == days_before_month(y as int, at as int),
            days <= 31 * (at - 1),
        decreases m - at,
    {
        days += if at == 2 {
            if is_leap(y) {
                29
            } else {
                28
            }
        } else if at == 4 || at == 6 || at == 9 || at == 11 {
            30
        } else {
            31
        };
        at += 1;
    }
    days
}

/// Reads `YYYY-MM-DDTHH:MM:SS[.fraction]` as seconds since the Unix epoch. The
/// format argument is there for callers that try several; every format reads alike.
pub fn parse_datetime_to_unix(s: &str, _fmt: &str) -> (secs: Result<u64, ()>)
    ensures
        secs is Ok == written_datetime(s@) is Some,
        secs matches Ok(n) ==> n == written_datetime(s@).unwrap().unix_seconds(),
        secs matches Ok(n) ==> n < 260_000_000_000,
{
    let chars = text::chars_of(s);
    let mark = text::find_first(&chars, 'T');
    if mark == chars.len() {
        return Err(());
    }
    let date_part = text::slice_of(&chars, 0, mark);
    let time_part = text::slice_of(&chars, mark + 1, chars.len());
    assert(date_part@ =~= text::before_first(s@, 'T'));
    assert(time_part@ =~= text::after_first(s@, 'T'));
    let (year, month, day) = match read_three(&date_part, '-') {
        Some(n) => n,
        None => return Err(()),
    };
    if year < 1970 || year > 9999 {
        return Err(());
    }
    if month < 1 || month > 12 {
        return Err(());
    }
    if day < 1 || day > 31 {
        return Err(());
    }
    let dot = text::find_first(&time_part, '.');
    let clock_part = text::slice_of(&time_part, 0, dot);
    assert(clock_part@ =~= text::before_first(time_part@, '.'));
    let (hour, minute, second) = match read_three(&clock_part, ':') {
        Some(n) => n,
        None => return Err(()),
    };
    if hour > 23 || minute > 59 || second > 60 {
        return Err(());
    }
    let days = count_days_before_year(year) + count_days_before_month(year, month) + (day - 1);
    Ok(days * 86400 + hour * 3600 + minute * 60 + second)
}

/// The text that an ISO 8601 timestamp keeps without its zone: what stands before
/// the first plus sign, and of that what stands before the first `Z`.
pub open spec fn without_zone(s: Seq<char>) -> Seq<char> {
    text::before_first(text::before_first(s, '+'), 'Z')
}

/// The moment that an ISO 8601 timestamp names. The zone is not applied: the
/// timestamps that the usage services send are in UTC.
pub open spec fn iso8601_time(s: Option<Seq<char>>) -> Option<UnixTime> {
    match s {
        None => None,
        Some(s) => match written_datetime(without_zone(s)) {
            None => None,
            Some(moment) => Some(UnixTime::at_secs(moment.unix_seconds())),
        },
    }
}

/// Parses an ISO 8601 timestamp such as `2026-03-05T08:00:00.321598+00:00`.
pub fn parse_iso8601(s: Option<&str>) -> (t: Option<UnixTime>)
    ensures
        t == iso8601_time(
            match s {
                Some(s) => Some(s@),
                None => None,
            },
        ),
        t matches Some(t) ==> t.wf(),
{
    let s = match s {
        Some(s) => s,
        None => return None,
    };
    let chars = text::chars_of(s);
    let plus = text::find_first(&chars, '+');
    let local = text::slice_of(&chars, 0, plus);
    assert(local@ =~= text::before_first(s@, '+'));
    let zulu = text::find_first(&local, 'Z');
    let datetime = text::text_of(&text::slice_of(&local, 0, zulu));
    assert(datetime@ =~= without_zone(s@));
    match parse_datetime_to_unix(datetime.as_str(), "%Y-%m-%dT%H:%M:%S%.f") {
        Ok(secs) => Some(UnixTime::from_secs(secs)),
        Err(_) => None,
    }
}

/// The days before a year in closed form: 365 for every year since 1970, and one
/// for every leap day.
pub proof fn law_days_before_year_closed_form(y: int)
    requires
        y >= 1970,
    ensures
        days_before_year(y) == 365 * (y - 1970) + (y - 1) / 4 - (y - 1) / 100 + (y - 1) / 400 - 477,
    decreases y,
{
    if y > 1970 {
        law_days_before_year_closed_form(y - 1);
    }
}

/// The days before a month grow with the month, by at least the month's own days.
proof fn lemma_days_before_month_grow(y: int, m: int, n: int)
    requires
        1 <= m < n <= 13,
    ensures
        days_before_month(y, m) + month_length(y, m) <= days_before_month(y, n),
    decreases n,
{
    if n > m + 1 {
        lemma_days_before_month_grow(y, m, n - 1);
    }
}

/// The twelve months make up the year.
pub proof fn law_months_fill_the_year(y: int)
    ensures
        days_before_month(y, 13) == year_length(y),
{
    reveal_with_fuel(days_before_month, 14);
}

/// The days before the months of a common year are 0, 31, 59, 90, 120, 151, 181, 212, 243,
/// 273, 304 and 334; in a leap year, one whose number divides by 4 and not by 100, or by
/// 400, there is one more from March on.
pub proof fn law_days_before_month_in_numbers(y: int, m: int)
    requires
        1 <= m <= 12,
    ensures
        days_before_month(y, m) == seq![
            0int,
            31,
            59,
            90,
            120,
            151,
            181,
            212,
            243,
            273,
            304,
            334,
        ][m - 1] + (if m > 2 && (y % 400 == 0 || (y % 4 == 0 && y % 100 != 0)) {
            1int
        } else {
            0
        }),
{
    reveal_with_fuel(days_before_month, 13);
}

/// The seconds of a moment in numbers: 86400 for each day since the start of 1970, 3600 for
/// each hour, 60 for each minute, and the seconds. The days are 365 for each year, one for
/// each leap day of the years before, those of the months before, and those of the month.
pub proof fn law_unix_seconds_in_numbers(moment: DateTime)
    requires
        moment.year >= 1970,
        1 <= moment.month <= 12,
        moment.day >= 1,
    ensures
        ({
            let y = moment.year as int;
            let leap_days = (y - 1) / 4 - (y - 1) / 100 + (y - 1) / 400 - 477;
            let leap_day = if moment.month > 2 && (y % 400 == 0 || (y % 4 == 0 && y % 100 != 0)) {
                1int
            } else {
                0
            };
            let months = seq![0int, 31, 59, 90, 120, 151, 181, 212, 243, 273, 304, 334];
            let days = 365 * (y - 1970) + leap_days + months[moment.month - 1] + leap_day
                + moment.day - 1;
            moment.unix_seconds() == 86400 * days + 3600 * moment.hour + 60 * moment.minute
                + moment.second
        }),
{
    law_days_before_year_closed_form(moment.year as int);
    law_days_before_month_in_numbers(moment.year as int, moment.month as int);
}

/// The days before a year grow with the year, by at least the year's own days.
proof fn lemma_days_before_year_grow(y: int, z: int)
    requires
        1970 <= y < z,
    ensures
        days_before_year(y) + year_length(y) <= days_before_year(z),
    decreases z,
{
    if z > y + 1 {
        lemma_days_before_year_grow(y, z - 1);
    }
}

/// Of two moments of the calendar the earlier one has fewer seconds. So different
/// moments have different seconds.
pub proof fn law_unix_seconds_follow_the_calendar(a: DateTime, b: DateTime)
    requires
        a.exists_in_calendar(),
        b.exists_in_calendar(),
        a.before(b),
    ensures
        a.unix_seconds() < b.unix_seconds(),
{
    let y = a.year as int;
    if a.year < b.year {
        lemma_days_before_year_grow(y, b.year as int);
        lemma_days_before_month_grow(y, a.month as int, 13);
        law_months_fill_the_year(y);
        assert(a.days() + 1 <= b.days());
    } else if a.month < b.month {
        lemma_days_before_month_grow(y, a.month as int, b.month as int);
        assert(a.days() + 1 <= b.days());
    }
}

/// A number below 100 in two digits.
pub open spec fn two_digits(n: nat) -> Seq<char> {
    seq![text::decimal_digit(n / 10), text::decimal_digit(n % 10)]
}

/// The ISO 8601 form `YYYY-MM-DDTHH:MM:SS` of a moment.
pub open spec fn iso8601_text(moment: DateTime) -> Seq<char> {
    text::decimal(moment.year).push('-') + (two_digits(moment.month).push('-') + two_digits(
        moment.day,
    )).push('T') + (two_digits(moment.hour).push(':') + (two_digits(moment.minute).push(':')
        + two_digits(moment.second)))
}

/// Two digits read as the number that they write.
proof fn lemma_two_digits(n: nat)
    requires
        n < 100,
    ensures
        text::unsigned_number(two_digits(n), 10, u64::MAX as nat) == Some(n),
        forall|c: char| two_digits(n).contains(c) ==> text::digit(c) < 10,
{
    let s = two_digits(n);
    assert(s.drop_last() =~= seq![text::decimal_digit(n / 10)]);
    assert(s.drop_last().drop_last().len() == 0);
    assert(text::numeral_value(s.drop_last().drop_last(), 10) == 0);
    assert(text::numeral_value(s.drop_last(), 10) == n / 10);
    assert(text::without_plus(s) == s);
    assert(text::numeral_value(s, 10) == (n / 10) * 10 + n % 10);
}

/// A decimal numeral holds digits only.
proof fn lemma_decimal_holds_digits(n: nat)
    ensures
        forall|c: char| text::decimal(n).contains(c) ==> text::digit(c) < 10,
{
    text::law_decimal_reads_back(n);
    assert forall|c: char| text::decimal(n).contains(c) implies text::digit(c) < 10 by {
        let i = choose|i: int| 0 <= i < text::decimal(n).len() && text::decimal(n)[i] == c;
        assert(text::digit(text::decimal(n)[i]) < 10);
    }
}

/// Three numerals between two separators read as the three numbers.
proof fn lemma_three_numbers(a: Seq<char>, b: Seq<char>, c: Seq<char>, sep: char)
    requires
        !a.contains(sep),
        !b.contains(sep),
        !c.contains(sep),
    ensures
        text::split_on(a.push(sep) + (b.push(sep) + c), sep) == seq![a, b, c],
{
    text::lemma_split_joined(a, b.push(sep) + c, sep);
    text::lemma_split_joined(b, c, sep);
    text::lemma_split_whole(c, sep);
    assert(seq![a] + (seq![b] + seq![c]) =~= seq![a, b, c]);
}

/// What stands in three pieces between two separators stands in a piece or is a separator.
proof fn lemma_joined_characters(a: Seq<char>, b: Seq<char>, c: Seq<char>, sep: char)
    requires
        forall|x: char| #[trigger] a.contains(x) ==> text::digit(x) < 10,
        forall|x: char| #[trigger] b.contains(x) ==> text::digit(x) < 10,
        forall|x: char| #[trigger] c.contains(x) ==> text::digit(x) < 10,
    ensures
        forall|x: char| #[trigger]
            (a.push(sep) + (b.push(sep) + c)).contains(x) ==> x == sep || text::digit(x) < 10,
{
    let rest = b.push(sep) + c;
    let whole = a.push(sep) + rest;
    assert forall|x: char| #[trigger] whole.contains(x) implies x == sep || text::digit(x)
        < 10 by {
        let i = choose|i: int| 0 <= i < whole.len() && whole[i] == x;
        if i < a.len() {
            assert(a.contains(a[i]));
        } else if i > a.len() {
            let k = i - a.len() - 1;
            assert(whole[i] == rest[k]);
            if k < b.len() {
                assert(b.contains(b[k]));
            } else if k > b.len() {
                assert(c.contains(c[k - b.len() - 1]));
            }
        }
    }
}

/// The date of a moment, as its ISO 8601 form has it.
spec fn date_text(moment: DateTime) -> Seq<char> {
    text::decimal(moment.year).push('-') + (two_digits(moment.month).push('-') + two_digits(
        moment.day,
    ))
}

/// The time of day of a moment, as its ISO 8601 form has it.
spec fn clock_text(moment: DateTime) -> Seq<char> {
    two_digits(moment.hour).push(':') + (two_digits(moment.minute).push(':') + two_digits(
        moment.second,
    ))
}

/// The date and the time of day read as their numbers, and hold nothing else.
proof fn lemma_date_and_clock(moment: DateTime)
    requires
        moment.year <= 9999,
        moment.month < 100,
        moment.day < 100,
        moment.hour < 100,
        moment.minute < 100,
        moment.second < 100,
    ensures
        three_numbers(date_text(moment), '-') == Some((moment.year, moment.month, moment.day)),
        three_numbers(clock_text(moment), ':') == Some(
            (moment.hour, moment.minute, moment.second),
        ),
        forall|x: char| #[trigger]
            date_text(moment).contains(x) ==> x == '-' || text::digit(x) < 10,
        forall|x: char| #[trigger]
            clock_text(moment).contains(x) ==> x == ':' || text::digit(x) < 10,
{
    let year = text::decimal(moment.year);
    text::law_decimal_reads_back(moment.year);
    lemma_decimal_holds_digits(moment.year);
    lemma_two_digits(moment.month);
    lemma_two_digits(moment.day);
    lemma_two_digits(moment.hour);
    lemma_two_digits(moment.minute);
    lemma_two_digits(moment.second);
    assert(three_numbers(date_text(moment), '-') == Some(
        (moment.year, moment.month, moment.day),
    )) by {
        lemma_three_numbers(year, two_digits(moment.month), two_digits(moment.day), '-');
    }
    assert(three_numbers(clock_text(moment), ':') == Some(
        (moment.hour, moment.minute, moment.second),
    )) by {
        lemma_three_numbers(
            two_digits(moment.hour),
            two_digits(moment.minute),
            two_digits(moment.second),
            ':',
        );
    }
    lemma_joined_characters(year, two_digits(moment.month), two_digits(moment.day), '-');
    lemma_joined_characters(
        two_digits(moment.hour),
        two_digits(moment.minute),
        two_digits(moment.second),
        ':',
    );
}

/// The ISO 8601 form of a moment holds its six numbers, and no zone.
proof fn lemma_iso8601_numbers(moment: DateTime)
    requires
        moment.year <= 9999,
        moment.month < 100,
        moment.day < 100,
        moment.hour < 100,
        moment.minute < 100,
        moment.second < 100,
    ensures
        ({
            let s = iso8601_text(moment);
            &&& written_datetime(s) == (if moment.in_range() {
                Some(moment)
            } else {
                None
            })
            &&& !s.contains('+')
            &&& !s.contains('Z')
            &&& without_zone(s) == s
        }),
{
    let date = date_text(moment);
    let clock = clock_text(moment);
    let s = iso8601_text(moment);
    lemma_date_and_clock(moment);
    assert(s =~= date.push('T') + clock);
    text::lemma_first_joined(date, clock, 'T');
    text::lemma_first_absent(clock, '.');
    assert forall|x: char| #[trigger] s.contains(x) implies x == 'T' || x == '-' || x == ':'
        || text::digit(x) < 10 by {
        let i = choose|i: int| 0 <= i < s.len() && s[i] == x;
        if i < date.len() {
            assert(date.contains(date[i]));
        } else if i > date.len() {
            assert(clock.contains(clock[i - date.len() - 1]));
        }
    }
    text::lemma_first_absent(s, '+');
    text::lemma_first_absent(s, 'Z');
}

/// A moment in range reads back from its ISO 8601 form.
pub proof fn law_iso8601_text_reads_back(moment: DateTime)
    requires
        moment.in_range(),
    ensures
        written_datetime(iso8601_text(moment)) == Some(moment),
        iso8601_time(Some(iso8601_text(moment))) == Some(UnixTime::at_secs(moment.unix_seconds())),
{
    lemma_iso8601_numbers(moment);
}

/// The timestamp of a moment, with the zone of UTC behind it in either form, is read if and
/// only if the year is 1970 to 9999, the month 1 to 12, the day 1 to 31, the hour up to 23,
/// the minute up to 59 and the second up to 60; the instant is that of the moment.
pub proof fn law_timestamps_are_read_in_range(moment: DateTime, zone: Seq<char>)
    requires
        1000 <= moment.year <= 9999,
        moment.month <= 99,
        moment.day <= 99,
        moment.hour <= 99,
        moment.minute <= 99,
        moment.second <= 99,
        zone == seq!['Z'] || zone == seq!['+', '0', '0', ':', '0', '0'],
    ensures
        ({
            let read = iso8601_time(Some(iso8601_text(moment) + zone));
            &&& read is Some <==> 1970 <= moment.year <= 9999 && 1 <= moment.month <= 12 && 1
                <= moment.day <= 31 && moment.hour <= 23 && moment.minute <= 59 && moment.second
                <= 60
            &&& read matches Some(t) ==> t.secs == moment.unix_seconds() && t.nanos == 0
        }),
{
    let s = iso8601_text(moment);
    lemma_iso8601_numbers(moment);
    let rest = zone.drop_first();
    assert(iso8601_time(Some(s + zone)) == iso8601_time(Some(s))) by {
        law_zone_is_left_out_of_account(s, rest);
        assert(s + zone =~= s.push(zone[0]) + rest);
    }
    if moment.in_range() {
        lemma_unix_seconds_bound(moment);
    }
}

/// The seconds of a moment in range are few.
proof fn lemma_unix_seconds_bound(moment: DateTime)
    requires
        moment.in_range(),
    ensures
        moment.unix_seconds() <= 300_000_000_000,
{
    lemma_days_before_year_bound(moment.year as int);
    lemma_days_before_month_grow(moment.year as int, moment.month as int, 13);
    law_months_fill_the_year(moment.year as int);
}

/// A zone behind the timestamp changes nothing: neither a `Z` nor an offset that
/// begins with a plus sign, whatever comes behind it.
pub proof fn law_zone_is_left_out_of_account(s: Seq<char>, rest: Seq<char>)
    requires
        !s.contains('+'),
        !s.contains('Z'),
    ensures
        iso8601_time(Some(s.push('Z') + rest)) == iso8601_time(Some(s)),
        iso8601_time(Some(s.push('+') + rest)) == iso8601_time(Some(s)),
{
    text::lemma_first_absent(s, '+');
    text::lemma_first_absent(s, 'Z');
    text::lemma_first_joined(s, rest, '+');
    let zulu = s.push('Z') + rest;
    let cut = text::first_index(zulu, '+');
    lemma_first_in_joined(s, rest);
    let kept = text::before_first(zulu, '+');
    assert(kept =~= s.push('Z') + rest.take(cut - s.len() - 1));
    text::lemma_first_joined(s, rest.take(cut - s.len() - 1), 'Z');
}

/// The first plus sign of `s`, `Z`, `rest` stands behind the `Z`.
proof fn lemma_first_in_joined(s: Seq<char>, rest: Seq<char>)
    requires
        !s.contains('+'),
    ensures
        s.len() < text::first_index(s.push('Z') + rest, '+') <= s.len() + 1 + rest.len(),
    decreases s.len(),
{
    let whole = s.push('Z') + rest;
    let i = text::first_index(rest, '+');
    text::lemma_first_index_found(rest, '+');
    assert forall|j: int| 0 <= j < s.len() + 1 + i implies whole[j] != '+' by {
        if j < s.len() {
            assert(s.contains(s[j]));
        } else if j > s.len() {
            assert(whole[j] == rest[j - s.len() - 1]);
        }
    }
    text::lemma_first_index(whole, '+', s.len() + 1 + i);
}

/// A fraction of a second changes nothing.
pub proof fn law_fraction_is_left_out_of_account(s: Seq<char>, fraction: Seq<char>)
    requires
        s.contains('T'),
        !s.contains('.'),
    ensures
        written_datetime(s.push('.') + fraction) == written_datetime(s),
{
    let i = text::first_index(s, 'T');
    let with = s.push('.') + fraction;
    text::lemma_first_index_found(s, 'T');
    assert forall|j: int| 0 <= j < i implies with[j] != 'T' by {
        assert(with[j] == s[j]);
    }
    text::lemma_first_index(with, 'T', i);
    assert(text::before_first(with, 'T') =~= text::before_first(s, 'T'));
    let clock = text::after_first(s, 'T');
    assert forall|j: int| 0 <= j < clock.len() implies clock[j] != '.' by {
        assert(s.contains(s[j + i + 1]));
    }
    assert(text::after_first(with, 'T') =~= clock.push('.') + fraction);
    text::lemma_first_joined(clock, fraction, '.');
    text::lemma_first_absent(clock, '.');
}

/// A token that expires at `expires_at` (milliseconds since the epoch) has expired at
/// `now`. A token without an expiry never does.
pub open spec fn expired_at(expires_at: Option<i64>, now: UnixTime) -> bool {
    match expires_at {
        None => false,
        Some(at) => (now.epoch_millis() as i64) >= at,
    }
}

/// Tests whether a token has expired at `now`.
pub fn is_token_expired_at(expires_at: Option<i64>, now: UnixTime) -> (yes: bool)
    ensures
        yes == expired_at(expires_at, now),
{
    let at = match expires_at {
        Some(at) => at,
        None => return false,
    };
    let total = now.secs as i128 * 1_000_000_000 + now.nanos as i128;
    let millis: i128 = if total < 0 {
        0
    } else {
        total / 1_000_000
    };
    #[verifier::truncate]
    let shown = millis as i64;
    shown >= at
}

/// A token has expired exactly if the milliseconds from the epoch to now have reached its
/// expiry; without an expiry it never does.
pub proof fn law_expiry_in_numbers(at: i64, now: UnixTime)
    requires
        now.wf(),
        0 <= now.secs <= 9_000_000_000_000_000,
    ensures
        expired_at(Some(at), now) <==> 1000 * now.secs + now.nanos / 1_000_000 >= at,
        !expired_at(None, now),
{
}

/// A token that has expired stays expired.
pub proof fn law_expiry_is_lasting(expires_at: Option<i64>, earlier: UnixTime, later: UnixTime)
    requires
        earlier.wf(),
        later.wf(),
        later.secs <= 9_000_000_000_000_000,
        earlier.total() <= later.total(),
        expired_at(expires_at, earlier),
    ensures
        expired_at(expires_at, later),
{
}

/// Tests whether a token has expired by now.
pub fn is_token_expired(expires_at: Option<i64>) -> (yes: bool)
    ensures
        expires_at is None ==> !yes,
        exists|now: UnixTime|
            now.wf() && shown(now) && yes == #[trigger] expired_at(expires_at, now),
{
    let at = now();
    is_token_expired_at(expires_at, at)
}

/// The latest reset time that is believed: the start of the year 2200.
pub const LATEST_RESET_SECS: i64 = 7_258_118_400;

/// The instant that a service reports as Unix seconds. A negative one, and one beyond
/// the year 2200, is no instant.
pub open spec fn reported_time(unix_secs: Option<i64>) -> Option<UnixTime> {
    match unix_secs {
        None => None,
        Some(secs) => if 0 <= secs <= LATEST_RESET_SECS {
            Some(UnixTime::at_secs(secs as nat))
        } else {
            None
        },
    }
}

/// Reported seconds are believed exactly from 0 up to the start of the year 2200, and name
/// the instant that many seconds after the epoch.
pub proof fn law_reported_time_in_numbers(secs: i64)
    ensures
        reported_time(Some(secs)) is Some <==> 0 <= secs <= 7_258_118_400,
        reported_time(Some(secs)) matches Some(t) ==> t.secs == secs && t.nanos == 0,
        reported_time(None) is None,
        (DateTime { year: 2200, month: 1, day: 1, hour: 0, minute: 0, second: 0 }).unix_seconds()
            == 7_258_118_400,
{
    law_unix_seconds_in_numbers(
        DateTime { year: 2200, month: 1, day: 1, hour: 0, minute: 0, second: 0 },
    );
}

/// Turns reported Unix seconds into an instant (see [`reported_time`]).
pub fn unix_to_system_time(unix_secs: Option<i64>) -> (t: Option<UnixTime>)
    ensures
        t == reported_time(unix_secs),
        t matches Some(t) ==> t.wf(),
{
    let secs = match unix_secs {
        Some(secs) => secs,
        None => return None,
    };
    if secs < 0 {
        return None;
    }
    // Reject timestamps beyond year 2200: clearly invalid API data.
    if secs > LATEST_RESET_SECS {
        return None;
    }
    Some(UnixTime::from_secs(secs as u64))
}

/// Nothing is read of a text without the letter that parts the date from the time.
pub proof fn law_timestamp_has_date_and_time(s: Seq<char>)
    requires
        !s.contains('T'),
    ensures
        written_datetime(s) is None,
{
    text::lemma_first_absent(s, 'T');
}

/// Whether a token has expired by now is decided for an instant that the clock showed.
pub proof fn law_expiry_is_for_the_time_shown(expires_at: Option<i64>, yes: bool)
    requires
        call_ensures(is_token_expired, (expires_at,), yes),
    ensures
        exists|now: UnixTime| #[trigger] shown(now) && yes == expired_at(expires_at, now),
{
    let now = choose|now: UnixTime|
        now.wf() && shown(now) && yes == #[trigger] expired_at(expires_at, now);
    assert(shown(now));
}

} // verus!
