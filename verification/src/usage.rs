//! What the usage services answer, and what is read out of it.

use vstd::prelude::*;

use crate::binary64;
use crate::binary64::Binary64;
use crate::models::{UsageData, UsageSection};
use crate::text;
use crate::time;

verus! {

/// Why a poll failed.
#[derive(Clone, Copy, Debug, PartialEq, Eq, Structural)]
pub enum PollError {
    AuthRequired,
    NoCredentials,
    TokenExpired,
    RequestFailed,
}

/// What became of a request.
pub enum Reply<T> {
    /// No connection could be set up.
    NoAgent,
    /// The server answered with an error status.
    Status(u16),
    /// No answer came.
    Unreachable,
    /// The answer could not be read.
    Unreadable,
    Answer(T),
}

/// The status says that the token is not accepted.
pub open spec fn auth_status(code: u16) -> bool {
    code == 401 || code == 403
}

/// Answer of the usage endpoint.
pub struct UsageResponse {
    pub five_hour: Option<UsageBucket>,
    pub seven_day: Option<UsageBucket>,
}

/// One usage window in the answer of the usage endpoint.
pub struct UsageBucket {
    pub utilization: Binary64,
    pub resets_at: Option<String>,
}

/// What a window of the answer says.
pub open spec fn bucket_section(bucket: Option<UsageBucket>) -> UsageSection {
    match bucket {
        None => UsageSection::empty(),
        Some(bucket) => UsageSection {
            percentage: bucket.utilization,
            resets_at: time::iso8601_time(
                match bucket.resets_at {
                    Some(s) => Some(s@),
                    None => None,
                },
            ),
        },
    }
}

/// What the answer of the usage endpoint says.
pub open spec fn response_usage(response: UsageResponse) -> UsageData {
    UsageData {
        session: bucket_section(response.five_hour),
        weekly: bucket_section(response.seven_day),
    }
}

/// Reads one window of the answer.
fn section_from_bucket(bucket: &Option<UsageBucket>) -> (section: UsageSection)
    ensures
        section == bucket_section(*bucket),
        section.wf(),
{
    match bucket {
        None => UsageSection::default(),
        Some(bucket) => {
            let resets_at = match &bucket.resets_at {
                Some(s) => time::parse_iso8601(Some(s.as_str())),
                None => None,
            };
            UsageSection { percentage: bucket.utilization, resets_at }
        },
    }
}

/// Reads the answer of the usage endpoint.
pub fn usage_from_response(response: &UsageResponse) -> (data: UsageData)
    ensures
        data == response_usage(*response),
        data.wf(),
{
    UsageData {
        session: section_from_bucket(&response.five_hour),
        weekly: section_from_bucket(&response.seven_day),
    }
}

/// What the usage endpoint's reply amounts to: figures, nothing, or an error.
pub open spec fn endpoint_outcome(reply: Reply<UsageResponse>) -> Result<
    Option<UsageData>,
    PollError,
> {
    match reply {
        Reply::NoAgent => Err(PollError::RequestFailed),
        Reply::Status(code) => if auth_status(code) {
            Err(PollError::AuthRequired)
        } else {
            Ok(None)
        },
        Reply::Unreachable => Ok(None),
        Reply::Unreadable => Ok(None),
        Reply::Answer(response) => Ok(Some(response_usage(response))),
    }
}

/// Reads the usage endpoint's reply. A status that refuses the token is an error, and so
/// is a connection that could not be set up; any other failure just gives nothing.
pub fn try_usage_endpoint(reply: &Reply<UsageResponse>) -> (outcome: Result<
    Option<UsageData>,
    PollError,
>)
    ensures
        outcome == endpoint_outcome(*reply),
        outcome matches Ok(Some(data)) ==> data.wf(),
{
    match reply {
        Reply::NoAgent => Err(PollError::RequestFailed),
        Reply::Status(code) => if *code == 401 || *code == 403 {
            Err(PollError::AuthRequired)
        } else {
            Ok(None)
        },
        Reply::Unreachable => Ok(None),
        Reply::Unreadable => Ok(None),
        Reply::Answer(response) => Ok(Some(usage_from_response(response))),
    }
}

/// Answer of the Codex usage endpoint. A field may be absent, or present and null.
pub struct CodexUsageResponse {
    pub rate_limit: Option<Option<Box<CodexRateLimitDetails>>>,
}

/// The usage windows in the answer of the Codex usage endpoint.
pub struct CodexRateLimitDetails {
    pub primary_window: Option<Option<Box<CodexRateLimitWindow>>>,
    pub secondary_window: Option<Option<Box<CodexRateLimitWindow>>>,
}

/// One usage window in the answer of the Codex usage endpoint.
pub struct CodexRateLimitWindow {
    pub used_percent: Binary64,
    pub reset_at: i64,
}

/// What a window of the Codex answer says.
pub open spec fn window_section(window: Option<Option<Box<CodexRateLimitWindow>>>) -> UsageSection {
    match window {
        Some(Some(window)) => UsageSection {
            percentage: window.used_percent,
            resets_at: time::reported_time(Some(window.reset_at)),
        },
        _ => UsageSection::empty(),
    }
}

/// What the answer of the Codex usage endpoint says.
pub open spec fn codex_usage(response: CodexUsageResponse) -> Option<UsageData> {
    match response.rate_limit {
        Some(Some(details)) => Some(
            UsageData {
                session: window_section(details.primary_window),
                weekly: window_section(details.secondary_window),
            },
        ),
        _ => None,
    }
}

/// Reads one window of the Codex answer.
pub fn codex_section_from_window(window: &CodexRateLimitWindow) -> (section: UsageSection)
    ensures
        section.percentage == window.used_percent,
        section.resets_at == time::reported_time(Some(window.reset_at)),
        section.wf(),
{
    UsageSection {
        percentage: window.used_percent,
        resets_at: time::unix_to_system_time(Some(window.reset_at)),
    }
}

/// Reads the answer of the Codex usage endpoint.
pub fn codex_usage_from_response(response: CodexUsageResponse) -> (data: Option<UsageData>)
    ensures
        data == codex_usage(response),
        data matches Some(d) ==> d.wf(),
{
    let details = match response.rate_limit {
        Some(Some(details)) => *details,
        _ => return None,
    };
    let session = match details.primary_window {
        Some(Some(window)) => codex_section_from_window(&window),
        _ => UsageSection::default(),
    };
    let weekly = match details.secondary_window {
        Some(Some(window)) => codex_section_from_window(&window),
        _ => UsageSection::default(),
    };
    Some(UsageData { session, weekly })
}

/// What the Codex usage endpoint's reply amounts to.
pub open spec fn codex_outcome(reply: Reply<CodexUsageResponse>) -> Result<UsageData, PollError> {
    match reply {
        Reply::Status(code) => if auth_status(code) {
            Err(PollError::AuthRequired)
        } else {
            Err(PollError::RequestFailed)
        },
        Reply::Answer(response) => match codex_usage(response) {
            Some(data) => Ok(data),
            None => Err(PollError::RequestFailed),
        },
        _ => Err(PollError::RequestFailed),
    }
}

/// Reads the Codex usage endpoint's reply.
pub fn fetch_codex_usage(reply: Reply<CodexUsageResponse>) -> (outcome: Result<UsageData, PollError>)
    ensures
        outcome == codex_outcome(reply),
        outcome matches Ok(data) ==> data.wf(),
{
    match reply {
        Reply::Status(code) => if code == 401 || code == 403 {
            Err(PollError::AuthRequired)
        } else {
            Err(PollError::RequestFailed)
        },
        Reply::Answer(response) => match codex_usage_from_response(response) {
            Some(data) => Ok(data),
            None => Err(PollError::RequestFailed),
        },
        _ => Err(PollError::RequestFailed),
    }
}

/// The rate limit headers of an answer of the Messages API. A utilization is there with
/// its header; it is nothing inside if the header is no number.
pub struct RateLimitHeaders {
    /// `anthropic-ratelimit-unified-5h-utilization`
    pub session_utilization: Option<Option<Binary64>>,
    /// `anthropic-ratelimit-unified-7d-utilization`
    pub weekly_utilization: Option<Option<Binary64>>,
    /// `anthropic-ratelimit-unified-5h-reset`
    pub session_reset: Option<String>,
    /// `anthropic-ratelimit-unified-7d-reset`
    pub weekly_reset: Option<String>,
    /// `anthropic-ratelimit-unified-reset`
    pub overall_reset: Option<String>,
    /// `anthropic-ratelimit-unified-status`
    pub status: Option<String>,
    /// `anthropic-ratelimit-unified-representative-claim`
    pub claim: Option<String>,
}

/// The number in a header; 0 without one.
pub open spec fn header_number(header: Option<Option<Binary64>>) -> Binary64 {
    match header {
        Some(Some(x)) => x,
        _ => Binary64 { bits: 0 },
    }
}

/// The integer in a header; nothing without one.
pub open spec fn header_integer(header: Option<String>) -> Option<i64> {
    match header {
        None => None,
        Some(s) => match text::signed_number(s@, i64::MAX as nat) {
            None => None,
            Some(n) => Some(n as i64),
        },
    }
}

/// The header is there and says `value`.
pub open spec fn header_says(header: Option<String>, value: Seq<char>) -> bool {
    header matches Some(s) && s@ == value
}

/// The percentage in a utilization header.
pub open spec fn header_percent(header: Option<Option<Binary64>>) -> Binary64 {
    binary64::hundredfold(binary64::clamped(header_number(header)))
}

/// A percentage of zero.
pub open spec fn unused(percent: Binary64) -> bool {
    percent.value() == 0
}

impl RateLimitHeaders {
    /// The answer has one of the headers that tell it from an answer without figures.
    pub open spec fn has_limits(self) -> bool {
        self.session_utilization is Some || self.weekly_utilization is Some || self.status is Some
    }

    /// Neither window has a utilization.
    pub open spec fn without_figures(self) -> bool {
        unused(header_percent(self.session_utilization)) && unused(
            header_percent(self.weekly_utilization),
        )
    }

    /// The service rejected the request on account of the named window.
    pub open spec fn rejected_for(self, window: Seq<char>) -> bool {
        self.without_figures() && header_says(self.status, "rejected"@) && header_says(
            self.claim,
            window,
        )
    }

    /// What the headers say. Where they have no utilization, a rejected request means that
    /// the window it was rejected for is used up, and the reset of the session falls back
    /// on the overall one.
    pub open spec fn usage(self) -> UsageData {
        let hundred = Binary64 { bits: binary64::HUNDRED_BITS };
        let session_reset = time::reported_time(header_integer(self.session_reset));
        UsageData {
            session: UsageSection {
                percentage: if self.rejected_for("five_hour"@) {
                    hundred
                } else {
                    header_percent(self.session_utilization)
                },
                resets_at: if self.without_figures() && session_reset is None {
                    time::reported_time(header_integer(self.overall_reset))
                } else {
                    session_reset
                },
            },
            weekly: UsageSection {
                percentage: if self.rejected_for("seven_day"@) {
                    hundred
                } else {
                    header_percent(self.weekly_utilization)
                },
                resets_at: time::reported_time(header_integer(self.weekly_reset)),
            },
        }
    }
}

/// Reads the percentage in a utilization header.
fn percent_from_header(header: Option<Option<Binary64>>) -> (percent: Binary64)
    ensures
        percent == header_percent(header),
        !percent.nan(),
        0 <= percent.value() <= 100 * binary64::unit(),
{
    let raw = match header {
        Some(Some(x)) => x,
        _ => Binary64 { bits: 0 },
    };
    binary64::percent_of(binary64::clamp_utilization(raw))
}

/// Reads the integer in a header.
fn integer_from_header(header: &Option<String>) -> (n: Option<i64>)
    ensures
        n == header_integer(*header),
{
    match header {
        None => None,
        Some(s) => text::parse_signed(&text::chars_of(s.as_str())),
    }
}

/// Tests what a header says.
fn header_is(header: &Option<String>, value: &str) -> (yes: bool)
    ensures
        yes == header_says(*header, value@),
{
    match header {
        None => false,
        Some(s) => text::same_text(s.as_str(), value),
    }
}

/// Reads the rate limit headers.
pub fn parse_rate_limit_headers(headers: &RateLimitHeaders) -> (data: UsageData)
    ensures
        data == headers.usage(),
        data.wf(),
        !data.session.percentage.nan(),
        0 <= data.session.percentage.value() <= 100 * binary64::unit(),
        !data.weekly.percentage.nan(),
        0 <= data.weekly.percentage.value() <= 100 * binary64::unit(),
{
    let mut session_percent = percent_from_header(headers.session_utilization);
    let mut session_reset = time::unix_to_system_time(integer_from_header(&headers.session_reset));
    let mut weekly_percent = percent_from_header(headers.weekly_utilization);
    let weekly_reset = time::unix_to_system_time(integer_from_header(&headers.weekly_reset));
    let overall_reset = integer_from_header(&headers.overall_reset);

    if session_percent.is_zero() && weekly_percent.is_zero() {
        if header_is(&headers.status, "rejected") {
            proof {
                reveal_strlit("five_hour");
                reveal_strlit("seven_day");
                assert("five_hour"@[0] != "seven_day"@[0]);
                binary64::lemma_named_patterns();
            }
            if header_is(&headers.claim, "five_hour") {
                session_percent = Binary64 { bits: binary64::HUNDRED_BITS };
            } else if header_is(&headers.claim, "seven_day") {
                weekly_percent = Binary64 { bits: binary64::HUNDRED_BITS };
            }
        }
        if session_reset.is_none() {
            session_reset = time::unix_to_system_time(overall_reset);
        }
    }
    UsageData {
        session: UsageSection { percentage: session_percent, resets_at: session_reset },
        weekly: UsageSection { percentage: weekly_percent, resets_at: weekly_reset },
    }
}

/// What an answer of the Messages API may be.
pub enum MessagesReply {
    /// No answer came.
    Unreachable,
    /// An answer with any status.
    Response { status: u16, headers: RateLimitHeaders },
}

/// What the usage endpoint's reply comes to. An answer gives figures: the session is the
/// window of five hours, the week that of seven days, each with its utilization and the
/// instant that its timestamp names, or with nothing used and no reset if it is not there.
/// The statuses 401 and 403 mean that the token is not accepted, and a connection that could
/// not be set up that the request failed; no other reply is an error.
pub proof fn law_endpoint_outcome(reply: Reply<UsageResponse>)
    ensures
        endpoint_outcome(reply) == Err::<Option<UsageData>, PollError>(PollError::AuthRequired)
            <==> reply == Reply::<UsageResponse>::Status(401) || reply
            == Reply::<UsageResponse>::Status(403),
        endpoint_outcome(reply) == Err::<Option<UsageData>, PollError>(PollError::RequestFailed)
            <==> reply is NoAgent,
        endpoint_outcome(reply) is Err ==> reply is NoAgent || reply is Status,
        (endpoint_outcome(reply) matches Ok(Some(_))) <==> reply is Answer,
        reply matches Reply::Answer(response) ==> (endpoint_outcome(reply) matches Ok(Some(data))
            && {
            &&& response.five_hour matches Some(bucket) ==> {
                &&& data.session.percentage == bucket.utilization
                &&& bucket.resets_at is None ==> data.session.resets_at is None
                &&& bucket.resets_at matches Some(s) ==> data.session.resets_at
                    == time::iso8601_time(Some(s@))
            }
            &&& response.seven_day matches Some(bucket) ==> {
                &&& data.weekly.percentage == bucket.utilization
                &&& bucket.resets_at is None ==> data.weekly.resets_at is None
                &&& bucket.resets_at matches Some(s) ==> data.weekly.resets_at
                    == time::iso8601_time(Some(s@))
            }
            &&& response.five_hour is None ==> data.session.percentage.bits == 0
                && data.session.resets_at is None
            &&& response.seven_day is None ==> data.weekly.percentage.bits == 0
                && data.weekly.resets_at is None
        }),
{
}

/// What the Codex usage endpoint's reply comes to. An answer with rate limits gives figures:
/// the session is the primary window, the week the secondary one, each with its percentage
/// and the instant of its reset, or with nothing used and no reset if it is not there. The
/// statuses 401 and 403 mean that the token is not accepted; anything else is a failure.
pub proof fn law_codex_outcome(reply: Reply<CodexUsageResponse>)
    ensures
        codex_outcome(reply) == Err::<UsageData, PollError>(PollError::AuthRequired) <==> reply
            == Reply::<CodexUsageResponse>::Status(401) || reply
            == Reply::<CodexUsageResponse>::Status(403),
        codex_outcome(reply) matches Err(error) ==> error == PollError::AuthRequired || error
            == PollError::RequestFailed,
        codex_outcome(reply) is Ok <==> (reply matches Reply::Answer(response) && (
        response.rate_limit matches Some(Some(_)))),
        reply matches Reply::Answer(response) ==> (response.rate_limit matches Some(Some(details))
            ==> (codex_outcome(reply) matches Ok(data) && {
            &&& details.primary_window matches Some(Some(window)) ==> {
                &&& data.session.percentage == window.used_percent
                &&& data.session.resets_at == time::reported_time(Some(window.reset_at))
            }
            &&& details.secondary_window matches Some(Some(window)) ==> {
                &&& data.weekly.percentage == window.used_percent
                &&& data.weekly.resets_at == time::reported_time(Some(window.reset_at))
            }
            &&& !(details.primary_window matches Some(Some(_))) ==> data.session.percentage.bits
                == 0 && data.session.resets_at is None
            &&& !(details.secondary_window matches Some(Some(_))) ==> data.weekly.percentage.bits
                == 0 && data.weekly.resets_at is None
        })),
{
}

/// A utilization header of a number from 0 to 1 means the binary64 number next to a hundred
/// times it. One below counts as 0, one above as 1, and so does NaN, an infinity or a header
/// that is no number as 0.
pub proof fn law_header_percent_in_numbers(header: Option<Option<Binary64>>, nearest: Binary64)
    ensures
        header matches Some(Some(x)) ==> {
            &&& !x.nan() && !x.infinite() && !x.sign() && x.magnitude() <= binary64::unit()
                && binary64::rounds_to(100 * x.magnitude(), nearest) ==> header_percent(header)
                == nearest
            &&& !x.nan() && !x.infinite() && x.value() > binary64::unit() ==> header_percent(
                header,
            ).value() == 100 * binary64::unit()
            &&& x.nan() || x.infinite() || x.value() < 0 ==> header_percent(header).value() == 0
        },
        !(header matches Some(Some(_))) ==> header_percent(header).value() == 0,
{
    binary64::lemma_named_patterns();
    binary64::law_hundredfold_in_numbers(binary64::clamped(header_number(header)), nearest);
}

/// Without a utilization in either window, a rejected request means that the window it was
/// rejected for is used up, and the session resets when the whole does if nothing better is
/// known. With one, the percentages are those of the headers and the resets those of the
/// windows. The week's reset is always its own.
pub proof fn law_headers_usage(headers: RateLimitHeaders)
    ensures
        ({
            let data = headers.usage();
            let session = header_percent(headers.session_utilization);
            let weekly = header_percent(headers.weekly_utilization);
            let used = session.value() != 0 || weekly.value() != 0;
            let rejected = header_says(headers.status, "rejected"@);
            let five_hour = header_says(headers.claim, "five_hour"@);
            let seven_day = header_says(headers.claim, "seven_day"@);
            let own_reset = time::reported_time(header_integer(headers.session_reset));
            &&& used || !rejected || !five_hour ==> data.session.percentage == session
            &&& used || !rejected || !seven_day ==> data.weekly.percentage == weekly
            &&& !used && rejected && five_hour ==> data.session.percentage.value() == 100
                * binary64::unit()
            &&& !used && rejected && seven_day ==> data.weekly.percentage.value() == 100
                * binary64::unit()
            &&& used || own_reset is Some ==> data.session.resets_at == own_reset
            &&& !used && own_reset is None ==> data.session.resets_at == time::reported_time(
                header_integer(headers.overall_reset),
            )
            &&& data.weekly.resets_at == time::reported_time(header_integer(headers.weekly_reset))
        }),
{
    binary64::lemma_named_patterns();
}

} // verus!
