use usage_monitor::binary64::{clamp_utilization, format_whole, percent_of, Binary64};
use usage_monitor::models::UsageData;
use usage_monitor::poller::{
    fetch_usage_via_messages, fetch_usage_with_fallback, FetchStep, MessagesStep,
};
use usage_monitor::requests::{
    codex_request, fallback_model, messages_request, usage_request, HttpRequest, MODEL_FALLBACKS,
};
use usage_monitor::time::{unix_to_system_time, UnixTime};
use usage_monitor::usage::{
    codex_usage_from_response, fetch_codex_usage, parse_rate_limit_headers, try_usage_endpoint,
    CodexRateLimitDetails, CodexRateLimitWindow, CodexUsageResponse, MessagesReply, PollError,
    RateLimitHeaders, Reply, UsageBucket, UsageResponse,
};

fn b(x: f64) -> Binary64 {
    Binary64 { bits: x.to_bits() }
}

fn f(x: Binary64) -> f64 {
    f64::from_bits(x.bits)
}

fn at(secs: i64) -> Option<UnixTime> {
    Some(UnixTime { secs, nanos: 0 })
}

#[test]
fn clamp_utilization_passes_through_normal_values() {
    assert_eq!(f(clamp_utilization(b(0.0))), 0.0);
    assert_eq!(f(clamp_utilization(b(0.5))), 0.5);
    assert_eq!(f(clamp_utilization(b(1.0))), 1.0);
}

#[test]
fn clamp_utilization_clamps_above_one() {
    assert_eq!(f(clamp_utilization(b(1.5))), 1.0);
    assert_eq!(f(clamp_utilization(b(f64::INFINITY))), 0.0);
}

#[test]
fn clamp_utilization_floors_negative_and_nan() {
    assert_eq!(f(clamp_utilization(b(-0.5))), 0.0);
    assert_eq!(f(clamp_utilization(b(f64::NAN))), 0.0);
}

#[test]
fn clamp_utilization_keeps_minus_zero_and_drops_other_negatives() {
    assert_eq!(clamp_utilization(b(-0.0)).bits, (-0.0f64).to_bits());
    assert_eq!(clamp_utilization(b(f64::NEG_INFINITY)).bits, 0);
    assert_eq!(clamp_utilization(b(-f64::MIN_POSITIVE)).bits, 0);
}

#[test]
fn percent_of_agrees_with_binary64_multiplication() {
    let mut x = 0.0f64;
    while x <= 1.0 {
        assert_eq!(percent_of(b(x)).bits, (x * 100.0).to_bits(), "{x}");
        x += 0.000_731;
    }
    for x in [
        0.07,
        0.28,
        0.29,
        0.57,
        1.0,
        f64::MIN_POSITIVE,
        5e-324,
        3.3e-310,
        -0.0,
        0.1 + 0.2,
    ] {
        assert_eq!(percent_of(b(x)).bits, (x * 100.0).to_bits(), "{x}");
    }
}

#[test]
fn format_whole_agrees_with_formatting() {
    for x in [
        0.0,
        -0.0,
        0.4,
        0.5,
        0.500_000_1,
        1.5,
        2.5,
        -2.5,
        49.5,
        50.5,
        99.999_999,
        100.0,
        12.34,
        1e15,
        4_503_599_627_370_497.5,
        9.007_199_254_740_993e15,
        1e22,
        1.7e308,
        5e-324,
        f64::NAN,
        f64::INFINITY,
        f64::NEG_INFINITY,
        0.25,
        0.249_999,
    ] {
        assert_eq!(format_whole(b(x)), format!("{:.0}", x), "{x}");
    }
}

#[test]
fn codex_usage_from_response_maps_windows_to_sections() {
    let response = CodexUsageResponse {
        rate_limit: Some(Some(Box::new(CodexRateLimitDetails {
            primary_window: Some(Some(Box::new(CodexRateLimitWindow {
                used_percent: b(12.5),
                reset_at: 1000,
            }))),
            secondary_window: Some(Some(Box::new(CodexRateLimitWindow {
                used_percent: b(60.0),
                reset_at: 2000,
            }))),
        }))),
    };

    let data = codex_usage_from_response(response).unwrap();
    assert_eq!(f(data.session.percentage), 12.5);
    assert_eq!(data.session.resets_at.unwrap().secs, 1000);
    assert_eq!(f(data.weekly.percentage), 60.0);
}

#[test]
fn codex_usage_from_response_none_when_rate_limit_missing() {
    let response = CodexUsageResponse { rate_limit: None };
    assert!(codex_usage_from_response(response).is_none());

    let response_null = CodexUsageResponse {
        rate_limit: Some(None),
    };
    assert!(codex_usage_from_response(response_null).is_none());
}

#[test]
fn codex_usage_from_response_defaults_missing_windows() {
    let response = CodexUsageResponse {
        rate_limit: Some(Some(Box::new(CodexRateLimitDetails {
            primary_window: None,
            secondary_window: None,
        }))),
    };
    let data = codex_usage_from_response(response).unwrap();
    assert_eq!(f(data.session.percentage), 0.0);
    assert_eq!(f(data.weekly.percentage), 0.0);
}

#[test]
fn unix_to_system_time_converts_valid_timestamp() {
    let t = unix_to_system_time(Some(1000)).unwrap();
    assert_eq!(t.secs, 1000);
}

#[test]
fn unix_to_system_time_rejects_none_negative_and_far_future() {
    assert!(unix_to_system_time(None).is_none());
    assert!(unix_to_system_time(Some(-1)).is_none());
    assert!(unix_to_system_time(Some(7_258_118_401)).is_none());
}

#[test]
fn unix_to_system_time_accepts_its_limits() {
    assert_eq!(unix_to_system_time(Some(0)), at(0));
    assert_eq!(unix_to_system_time(Some(7_258_118_400)), at(7_258_118_400));
}

fn no_headers() -> RateLimitHeaders {
    RateLimitHeaders {
        session_utilization: None,
        weekly_utilization: None,
        session_reset: None,
        weekly_reset: None,
        overall_reset: None,
        status: None,
        claim: None,
    }
}

fn text(s: &str) -> Option<String> {
    Some(s.to_string())
}

#[test]
fn rate_limit_headers_give_percentages_and_resets() {
    let headers = RateLimitHeaders {
        session_utilization: Some(Some(b(0.29))),
        weekly_utilization: Some(Some(b(1.7))),
        session_reset: text("1700000000"),
        weekly_reset: text("-5"),
        overall_reset: text("1800000000"),
        ..no_headers()
    };
    let data = parse_rate_limit_headers(&headers);
    assert_eq!(f(data.session.percentage), 0.29 * 100.0);
    assert_eq!(f(data.weekly.percentage), 100.0);
    assert_eq!(data.session.resets_at, at(1_700_000_000));
    assert_eq!(data.weekly.resets_at, None);
}

#[test]
fn rejected_request_fills_the_window_that_it_was_rejected_for() {
    let rejected = RateLimitHeaders {
        status: text("rejected"),
        claim: text("five_hour"),
        overall_reset: text("1800000000"),
        ..no_headers()
    };
    let data = parse_rate_limit_headers(&rejected);
    assert_eq!(f(data.session.percentage), 100.0);
    assert_eq!(f(data.weekly.percentage), 0.0);
    assert_eq!(data.session.resets_at, at(1_800_000_000));

    let weekly = RateLimitHeaders {
        claim: text("seven_day"),
        ..rejected
    };
    let data = parse_rate_limit_headers(&weekly);
    assert_eq!(f(data.session.percentage), 0.0);
    assert_eq!(f(data.weekly.percentage), 100.0);
}

#[test]
fn claim_counts_only_for_rejected_requests_without_figures() {
    let allowed = RateLimitHeaders {
        status: text("allowed"),
        claim: text("five_hour"),
        ..no_headers()
    };
    assert_eq!(f(parse_rate_limit_headers(&allowed).session.percentage), 0.0);

    let with_figures = RateLimitHeaders {
        status: text("rejected"),
        claim: text("five_hour"),
        weekly_utilization: Some(Some(b(0.5))),
        overall_reset: text("1800000000"),
        ..no_headers()
    };
    let data = parse_rate_limit_headers(&with_figures);
    assert_eq!(f(data.session.percentage), 0.0);
    assert_eq!(f(data.weekly.percentage), 50.0);
    assert_eq!(data.session.resets_at, None);
}

#[test]
fn usage_endpoint_reply_is_read() {
    let reply = Reply::Answer(UsageResponse {
        five_hour: Some(UsageBucket {
            utilization: b(42.0),
            resets_at: text("2026-03-05T08:00:00.321598+00:00"),
        }),
        seven_day: None,
    });
    let data = try_usage_endpoint(&reply).unwrap().unwrap();
    assert_eq!(f(data.session.percentage), 42.0);
    assert_eq!(data.session.resets_at, at(1_772_697_600));
    assert_eq!(data.weekly, UsageData::default().weekly);
}

#[test]
fn usage_endpoint_errors() {
    assert!(matches!(
        try_usage_endpoint(&Reply::NoAgent),
        Err(PollError::RequestFailed)
    ));
    assert!(matches!(
        try_usage_endpoint(&Reply::Status(401)),
        Err(PollError::AuthRequired)
    ));
    assert!(matches!(
        try_usage_endpoint(&Reply::Status(403)),
        Err(PollError::AuthRequired)
    ));
    assert!(matches!(try_usage_endpoint(&Reply::Status(500)), Ok(None)));
    assert!(matches!(try_usage_endpoint(&Reply::Unreachable), Ok(None)));
    assert!(matches!(try_usage_endpoint(&Reply::Unreadable), Ok(None)));
}

#[test]
fn codex_endpoint_errors() {
    assert!(matches!(
        fetch_codex_usage(Reply::NoAgent),
        Err(PollError::RequestFailed)
    ));
    assert!(matches!(
        fetch_codex_usage(Reply::Status(403)),
        Err(PollError::AuthRequired)
    ));
    assert!(matches!(
        fetch_codex_usage(Reply::Status(500)),
        Err(PollError::RequestFailed)
    ));
    assert!(matches!(
        fetch_codex_usage(Reply::Unreachable),
        Err(PollError::RequestFailed)
    ));
    assert!(matches!(
        fetch_codex_usage(Reply::Answer(CodexUsageResponse { rate_limit: None })),
        Err(PollError::RequestFailed)
    ));
}

#[test]
fn missing_resets_are_filled_in_from_the_messages_api() {
    let mut data = UsageData::default();
    data.session.percentage = b(10.0);
    data.weekly.percentage = b(20.0);
    data.weekly.resets_at = at(5);
    let mut fallback = UsageData::default();
    fallback.session.percentage = b(77.0);
    fallback.session.resets_at = at(7);
    fallback.weekly.resets_at = at(9);

    assert_eq!(
        fetch_usage_with_fallback(None, None),
        FetchStep::AskUsageEndpoint
    );
    assert_eq!(
        fetch_usage_with_fallback(Some(Ok(Some(data))), None),
        FetchStep::AskMessages
    );
    match fetch_usage_with_fallback(Some(Ok(Some(data))), Some(Ok(fallback))) {
        FetchStep::Done(Ok(merged)) => {
            assert_eq!(f(merged.session.percentage), 10.0);
            assert_eq!(merged.session.resets_at, at(7));
            assert_eq!(merged.weekly.resets_at, at(5));
        }
        other => panic!("{other:?}"),
    }
    assert_eq!(
        fetch_usage_with_fallback(Some(Ok(Some(data))), Some(Err(PollError::RequestFailed))),
        FetchStep::Done(Ok(data))
    );
    assert_eq!(
        fetch_usage_with_fallback(Some(Ok(None)), Some(Err(PollError::AuthRequired))),
        FetchStep::Done(Err(PollError::AuthRequired))
    );
    assert_eq!(
        fetch_usage_with_fallback(Some(Err(PollError::AuthRequired)), None),
        FetchStep::Done(Err(PollError::AuthRequired))
    );
}

#[test]
fn models_are_asked_in_turn() {
    let with_limits = || RateLimitHeaders {
        session_utilization: Some(Some(b(0.5))),
        ..no_headers()
    };
    assert_eq!(
        fetch_usage_via_messages(false, &vec![]),
        MessagesStep::Done(Err(PollError::RequestFailed))
    );
    assert_eq!(
        fetch_usage_via_messages(true, &vec![]),
        MessagesStep::Ask(0)
    );
    assert_eq!(
        fetch_usage_via_messages(true, &vec![MessagesReply::Unreachable]),
        MessagesStep::Ask(1)
    );
    assert_eq!(
        fetch_usage_via_messages(
            true,
            &vec![MessagesReply::Unreachable, MessagesReply::Unreachable]
        ),
        MessagesStep::Done(Err(PollError::RequestFailed))
    );
    assert_eq!(
        fetch_usage_via_messages(
            true,
            &vec![
                MessagesReply::Unreachable,
                MessagesReply::Response {
                    status: 403,
                    headers: with_limits(),
                },
            ]
        ),
        MessagesStep::Done(Err(PollError::AuthRequired))
    );
    match fetch_usage_via_messages(
        true,
        &vec![MessagesReply::Response {
            status: 429,
            headers: with_limits(),
        }],
    ) {
        MessagesStep::Done(Ok(data)) => assert_eq!(f(data.session.percentage), 50.0),
        other => panic!("{other:?}"),
    }
}

fn header<'a>(request: &'a HttpRequest, name: &str) -> Option<&'a str> {
    request
        .headers
        .iter()
        .find(|h| h.name == name)
        .map(|h| h.value.as_str())
}

#[test]
fn the_chain_of_models_has_two() {
    assert_eq!(MODEL_FALLBACKS, 2);
    assert_eq!(fallback_model("tool", 0).as_deref(), Some("tool-3-haiku-20240307"));
    assert_eq!(fallback_model("tool", 1).as_deref(), Some("tool-haiku-4-5-20251001"));
    assert_eq!(fallback_model("tool", 2), None);
}

#[test]
fn requests_carry_the_token() {
    let request = usage_request("abc");
    assert_eq!(request.url, "https://api.anthropic.com/api/oauth/usage");
    assert_eq!(header(&request, "Authorization"), Some("Bearer abc"));
    assert_eq!(header(&request, "anthropic-beta"), Some("oauth-2025-04-20"));
    assert!(request.body.is_none());

    let request = messages_request("abc", "model-b");
    assert_eq!(header(&request, "Authorization"), Some("Bearer abc"));
    assert_eq!(header(&request, "anthropic-version"), Some("2023-06-01"));
    let body = request.body.unwrap();
    assert_eq!(body.model, "model-b");
    assert_eq!(body.max_tokens, 1);
    assert_eq!((body.role.as_str(), body.content.as_str()), ("user", "."));
}

#[test]
fn codex_account_is_named_only_if_known() {
    let named = codex_request("t", Some("acc"));
    assert_eq!(header(&named, "ChatGPT-Account-Id"), Some("acc"));
    assert_eq!(header(&named, "User-Agent"), Some("codex-cli"));
    assert_eq!(codex_request("t", Some("")).headers.len(), 2);
    assert_eq!(codex_request("t", None).headers.len(), 2);
}
