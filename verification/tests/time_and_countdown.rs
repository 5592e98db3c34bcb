use std::time::{SystemTime, UNIX_EPOCH};

use usage_monitor::binary64::Binary64;
use usage_monitor::countdown::{
    app_is_past_reset, app_is_past_reset_at, format_countdown, format_countdown_from_secs,
    format_line, format_line_at, is_past_reset, is_past_reset_at, time_until_display_change,
    time_until_display_change_at, time_until_display_change_from_secs,
};
use usage_monitor::localization::Strings;
use usage_monitor::models::{AppUsageData, UsageData, UsageSection};
use usage_monitor::time::{
    instant_from, is_leap, is_token_expired, is_token_expired_at, now, parse_datetime_to_unix,
    parse_iso8601, UnixTime,
};

fn en() -> Strings {
    Strings {
        now: "now",
        day_suffix: "d",
        hour_suffix: "h",
        minute_suffix: "m",
        second_suffix: "s",
    }
}

fn at(secs: i64) -> UnixTime {
    UnixTime { secs, nanos: 0 }
}

fn from_now(secs: i64) -> Option<UnixTime> {
    let t = now();
    Some(UnixTime {
        secs: t.secs + secs,
        nanos: t.nanos,
    })
}

#[test]
fn parse_iso8601_returns_none_for_missing_input() {
    assert!(parse_iso8601(None).is_none());
}

#[test]
fn parse_iso8601_parses_utc_zulu_timestamp() {
    let parsed = parse_iso8601(Some("2026-03-05T08:00:00Z")).unwrap();
    assert_eq!(parsed.secs, 1772697600);
}

#[test]
fn parse_iso8601_parses_offset_timestamp_with_fractional_seconds() {
    let parsed = parse_iso8601(Some("2026-03-05T08:00:00.321598+00:00")).unwrap();
    assert_eq!(parsed.secs, 1772697600);
}

#[test]
fn parse_iso8601_rejects_malformed_input() {
    assert!(parse_iso8601(Some("not-a-date")).is_none());
    assert!(parse_iso8601(Some("2026-13-40T99:99:99")).is_none());
}

#[test]
fn parse_datetime_to_unix_matches_known_epoch_values() {
    assert_eq!(parse_datetime_to_unix("1970-01-01T00:00:00", ""), Ok(0));
    // 2000-03-01 accounts for the Feb 29 2000 leap day correctly.
    assert_eq!(
        parse_datetime_to_unix("2000-03-01T00:00:00", ""),
        Ok(951868800)
    );
}

#[test]
fn parse_datetime_to_unix_keeps_to_its_ranges() {
    assert_eq!(parse_datetime_to_unix("1969-12-31T23:59:59", ""), Err(()));
    assert_eq!(
        parse_datetime_to_unix("9999-12-31T23:59:60", ""),
        Ok(253402300800)
    );
    assert_eq!(parse_datetime_to_unix("10000-01-01T00:00:00", ""), Err(()));
    assert_eq!(parse_datetime_to_unix("2024-02-29T00:00:61", ""), Err(()));
    assert_eq!(parse_datetime_to_unix("2024-02-29T24:00:00", ""), Err(()));
    assert_eq!(parse_datetime_to_unix("2024-00-29T00:00:00", ""), Err(()));
    assert_eq!(parse_datetime_to_unix("2024-02-00T00:00:00", ""), Err(()));
    assert_eq!(parse_datetime_to_unix("2024-02-29T00:00", ""), Err(()));
    assert_eq!(parse_datetime_to_unix("2024-02-29 00:00:00", ""), Err(()));
    // A day that the month does not have runs over into the next month.
    assert_eq!(
        parse_datetime_to_unix("2023-02-31T00:00:00", ""),
        parse_datetime_to_unix("2023-03-03T00:00:00", "")
    );
    assert_eq!(
        parse_datetime_to_unix("+2024-+2-29T+1:02:03.99.9", ""),
        Ok(1709168523)
    );
}

#[test]
fn zone_and_fraction_do_not_count() {
    let plain = parse_iso8601(Some("2024-02-29T01:02:03"));
    assert_eq!(plain, Some(at(1709168523)));
    assert_eq!(parse_iso8601(Some("2024-02-29T01:02:03Z")), plain);
    assert_eq!(parse_iso8601(Some("2024-02-29T01:02:03+05:30")), plain);
    assert_eq!(parse_iso8601(Some("2024-02-29T01:02:03.5Zanything")), plain);
}

#[test]
fn days_follow_each_other_over_leap_years() {
    let mut last = parse_datetime_to_unix("1999-12-31T00:00:00", "").unwrap();
    for (year, leap) in [(2000u32, true), (2001, false), (2004, true), (2100, false)] {
        let first = parse_datetime_to_unix(&format!("{year}-01-01T00:00:00"), "").unwrap();
        let end = parse_datetime_to_unix(&format!("{year}-12-31T00:00:00"), "").unwrap();
        let days = if leap { 365 } else { 364 };
        assert_eq!(end - first, days * 86400);
        assert!(first > last);
        last = end;
    }
}

#[test]
fn is_leap_identifies_leap_years() {
    assert!(is_leap(2000));
    assert!(is_leap(2024));
    assert!(!is_leap(1900));
    assert!(!is_leap(2023));
}

#[test]
fn is_token_expired_true_for_past_timestamp() {
    assert!(is_token_expired(Some(1)));
}

#[test]
fn is_token_expired_false_for_far_future_timestamp() {
    let far_future_ms = (SystemTime::now()
        .duration_since(UNIX_EPOCH)
        .unwrap()
        .as_millis() as i64)
        + 60_000;
    assert!(!is_token_expired(Some(far_future_ms)));
}

#[test]
fn is_token_expired_false_when_missing() {
    assert!(!is_token_expired(None));
}

#[test]
fn token_expires_at_its_very_millisecond() {
    let t = UnixTime {
        secs: 10,
        nanos: 5_000_000,
    };
    assert!(is_token_expired_at(Some(10_005), t));
    assert!(!is_token_expired_at(Some(10_006), t));
    assert!(is_token_expired_at(Some(i64::MIN), t));
    assert!(!is_token_expired_at(Some(i64::MAX), t));
    // Before the epoch the clock counts as standing at it.
    assert!(is_token_expired_at(Some(0), at(-100)));
    assert!(!is_token_expired_at(Some(1), at(-100)));
}

#[test]
fn clock_is_the_system_clock() {
    let before = SystemTime::now().duration_since(UNIX_EPOCH).unwrap();
    let t = now();
    let after = SystemTime::now().duration_since(UNIX_EPOCH).unwrap();
    assert!(before.as_secs() as i64 <= t.secs && t.secs <= after.as_secs() as i64);
    assert!(t.nanos < 1_000_000_000);
}

#[test]
fn instants_before_the_epoch_count_backwards() {
    assert_eq!(instant_from(true, 5, 7), UnixTime { secs: 5, nanos: 7 });
    assert_eq!(instant_from(false, 5, 0), at(-5));
    assert_eq!(
        instant_from(false, 5, 1),
        UnixTime {
            secs: -6,
            nanos: 999_999_999
        }
    );
}

#[test]
fn format_countdown_from_secs_picks_largest_unit() {
    assert_eq!(format_countdown_from_secs(30, en()), format!("30{}", en().second_suffix));
    assert_eq!(format_countdown_from_secs(90, en()), format!("1{}", en().minute_suffix));
    assert_eq!(format_countdown_from_secs(3700, en()), format!("1{}", en().hour_suffix));
    assert_eq!(format_countdown_from_secs(90_000, en()), format!("1{}", en().day_suffix));
}

#[test]
fn time_until_display_change_from_secs_ticks_to_next_bucket_boundary() {
    assert_eq!(time_until_display_change_from_secs(90), 31);
    // Under 60s counts down second by second.
    assert_eq!(time_until_display_change_from_secs(45), 1);
}

#[test]
fn display_changes_exactly_when_announced() {
    for total in [1u64, 59, 60, 61, 119, 3599, 3600, 7300, 86_399, 86_400, 200_000] {
        let change = time_until_display_change_from_secs(total);
        let shown = format_countdown_from_secs(total, en());
        for elapsed in 0..change.min(total + 1) {
            assert_eq!(format_countdown_from_secs(total - elapsed, en()), shown);
        }
        if change <= total {
            assert_ne!(format_countdown_from_secs(total - change, en()), shown);
        }
    }
}

#[test]
fn countdown_at_and_behind_the_reset() {
    assert_eq!(format_countdown(None, en(), at(0)), "");
    assert_eq!(format_countdown(Some(at(100)), en(), at(100)), "0s");
    assert_eq!(format_countdown(Some(at(100)), en(), at(101)), "now");
    assert_eq!(format_countdown(Some(at(7300)), en(), at(100)), "2h");
    assert_eq!(time_until_display_change_at(Some(at(100)), at(101)), None);
    assert_eq!(time_until_display_change_at(Some(at(100)), at(10)), Some(31));
    assert_eq!(time_until_display_change_at(None, at(10)), None);
}

#[test]
fn lines_show_percentage_and_countdown() {
    let section = UsageSection {
        percentage: Binary64 {
            bits: 42.5f64.to_bits(),
        },
        resets_at: Some(at(7300)),
    };
    assert_eq!(format_line_at(&section, en(), at(100)), "42% \u{00b7} 2h");
    let open = UsageSection {
        resets_at: None,
        ..section
    };
    assert_eq!(format_line_at(&open, en(), at(100)), "42%");
    assert_eq!(format_line(&open, en()), "42%");
    let soon = UsageSection {
        resets_at: from_now(100_000),
        ..section
    };
    assert_eq!(format_line(&soon, en()), "42% \u{00b7} 1d");
    let change = time_until_display_change(from_now(100_000)).unwrap();
    assert!(13_590 <= change && change <= 13_601);
}

#[test]
fn is_past_reset_true_when_reset_time_has_elapsed() {
    let mut data = UsageData::default();
    data.session.resets_at = from_now(-5);
    assert!(is_past_reset(&data));
}

#[test]
fn is_past_reset_false_when_reset_time_is_future_or_absent() {
    let mut data = UsageData::default();
    data.session.resets_at = from_now(3600);
    assert!(!is_past_reset(&data));

    let empty = UsageData::default();
    assert!(!is_past_reset(&empty));
}

#[test]
fn app_is_past_reset_checks_both_apps() {
    let mut past = UsageData::default();
    past.weekly.resets_at = from_now(-1);

    let data = AppUsageData {
        codex: Some(past),
        ..Default::default()
    };
    assert!(app_is_past_reset(&data));

    let empty = AppUsageData::default();
    assert!(!app_is_past_reset(&empty));
}

#[test]
fn reset_is_past_from_its_very_instant_on() {
    let mut data = UsageData::default();
    data.weekly.resets_at = Some(at(100));
    assert!(!is_past_reset_at(&data, at(99)));
    assert!(is_past_reset_at(&data, at(100)));
    let app = AppUsageData {
        claude_code: Some(data),
        codex: None,
    };
    assert!(!app_is_past_reset_at(&app, at(99)));
    assert!(app_is_past_reset_at(&app, at(1000)));
}
