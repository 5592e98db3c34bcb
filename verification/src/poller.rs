//! The course of a poll: what is asked for next, and what comes out.
//!
//! Reading files, running programs and sending requests is up to the caller. A function
//! here is given what is known so far, or what has just happened, and says what to do
//! next or what the result is.

use vstd::prelude::*;

use crate::credentials::CredentialSource;
use crate::models::{AppUsageData, UsageData, UsageSection};
use crate::requests::MODEL_FALLBACKS;
use crate::text;
use crate::time;
use crate::time::UnixTime;
use crate::usage;
use crate::usage::{MessagesReply, PollError};

verus! {

/// What a poll does next.
#[derive(Clone, Copy, Debug, PartialEq, Eq)]
pub enum PollStep {
    PollClaude,
    PollCodex,
    Done(Result<AppUsageData, PollError>),
}

/// The figures in an outcome.
pub open spec fn figures(outcome: Option<Result<UsageData, PollError>>) -> Option<UsageData> {
    match outcome {
        Some(Ok(data)) => Some(data),
        _ => None,
    }
}

/// What a poll comes to, when every shown service was polled. A failure of Anthropic is
/// the poll's failure; one of Codex is only if Codex is all that is shown.
pub open spec fn poll_result(
    show_claude_code: bool,
    show_codex: bool,
    claude: Option<Result<UsageData, PollError>>,
    codex: Option<Result<UsageData, PollError>>,
) -> Result<AppUsageData, PollError> {
    let data = AppUsageData {
        claude_code: if show_claude_code {
            figures(claude)
        } else {
            None
        },
        codex: if show_codex {
            figures(codex)
        } else {
            None
        },
    };
    match (show_claude_code, show_codex, claude, codex) {
        (true, _, Some(Err(error)), _) => Err(error),
        (false, true, _, Some(Err(error))) => Err(error),
        _ => if data.claude_code is None && data.codex is None {
            Err(PollError::RequestFailed)
        } else {
            Ok(data)
        },
    }
}

/// What a poll does next: Anthropic before Codex, each if it is shown, and nothing more
/// once Anthropic has failed.
pub open spec fn poll_next(
    show_claude_code: bool,
    show_codex: bool,
    claude: Option<Result<UsageData, PollError>>,
    codex: Option<Result<UsageData, PollError>>,
) -> PollStep {
    if show_claude_code && claude is None {
        PollStep::PollClaude
    } else if show_codex && codex is None && !(show_claude_code && claude matches Some(Err(_))) {
        PollStep::PollCodex
    } else {
        PollStep::Done(poll_result(show_claude_code, show_codex, claude, codex))
    }
}

/// Decides what a poll does next, from the outcomes that are known so far.
pub fn poll(
    show_claude_code: bool,
    show_codex: bool,
    claude: Option<Result<UsageData, PollError>>,
    codex: Option<Result<UsageData, PollError>>,
) -> (step: PollStep)
    ensures
        step == poll_next(show_claude_code, show_codex, claude, codex),
{
    let mut data = AppUsageData::default();

    if show_claude_code {
        match claude {
            None => return PollStep::PollClaude,
            Some(Err(error)) => return PollStep::Done(Err(error)),
            Some(Ok(usage)) => data.claude_code = Some(usage),
        }
    }

    if show_codex {
        match codex {
            None => return PollStep::PollCodex,
            Some(Ok(usage)) => data.codex = Some(usage),
            Some(Err(error)) => if !show_claude_code {
                return PollStep::Done(Err(error));
            },
        }
    }

    if data.claude_code.is_none() && data.codex.is_none() {
        PollStep::Done(Err(PollError::RequestFailed))
    } else {
        PollStep::Done(Ok(data))
    }
}

/// A poll asks for each shown service at most once and then ends: asked for an outcome, it
/// goes on to something else once the outcome is there.
pub proof fn law_poll_ends(
    show_claude_code: bool,
    show_codex: bool,
    claude: Result<UsageData, PollError>,
    codex: Result<UsageData, PollError>,
)
    ensures
        poll_next(show_claude_code, show_codex, None, None) is PollClaude <==> show_claude_code,
        poll_next(show_claude_code, show_codex, Some(claude), None) is PollCodex <==> show_codex
            && !(show_claude_code && claude is Err),
        poll_next(show_claude_code, show_codex, Some(claude), Some(codex)) is Done,
{
}

/// Figures of Anthropic are never lost to a failure of Codex, and a poll that succeeds
/// has figures, only of services that are shown.
pub proof fn law_poll_keeps_figures(
    show_claude_code: bool,
    show_codex: bool,
    claude: Option<Result<UsageData, PollError>>,
    codex: Option<Result<UsageData, PollError>>,
)
    ensures
        show_claude_code ==> (claude matches Some(Ok(data)) ==> (poll_result(
            show_claude_code,
            show_codex,
            claude,
            codex,
        ) matches Ok(app) && app.claude_code == Some(data))),
        poll_result(show_claude_code, show_codex, claude, codex) matches Ok(app) ==> {
            &&& app.claude_code is Some || app.codex is Some
            &&& app.claude_code is Some ==> show_claude_code
            &&& app.codex is Some ==> show_codex
        },
{
}

/// What a poll comes to once it has asked for all that it needs. It succeeds exactly if a
/// service is shown, Anthropic gave figures if it is shown, and Codex did if it is all that
/// is shown; then the figures of each shown service are the ones that it gave. It fails with
/// the error of a shown service, or because none is shown.
pub proof fn law_poll_outcome(
    show_claude_code: bool,
    show_codex: bool,
    claude: Option<Result<UsageData, PollError>>,
    codex: Option<Result<UsageData, PollError>>,
)
    requires
        show_claude_code ==> claude is Some,
        show_codex ==> codex is Some || (show_claude_code && claude.unwrap() is Err),
    ensures
        poll_next(show_claude_code, show_codex, claude, codex) matches PollStep::Done(result) && {
            &&& result is Ok <==> {
                &&& show_claude_code || show_codex
                &&& show_claude_code ==> claude.unwrap() is Ok
                &&& show_codex && !show_claude_code ==> codex.unwrap() is Ok
            }
            &&& result matches Ok(app) ==> {
                &&& forall|data: UsageData|
                    app.claude_code == Some(data) <==> show_claude_code && claude == Some(
                        Ok::<UsageData, PollError>(data),
                    )
                &&& forall|data: UsageData|
                    app.codex == Some(data) <==> show_codex && codex == Some(
                        Ok::<UsageData, PollError>(data),
                    )
            }
            &&& result matches Err(error) ==> {
                ||| show_claude_code && claude == Some(Err::<UsageData, PollError>(error))
                ||| !show_claude_code && show_codex && codex == Some(
                    Err::<UsageData, PollError>(error),
                )
                ||| !show_claude_code && !show_codex && error == PollError::RequestFailed
            }
        },
{
}

/// What happened in a poll of Anthropic.
#[derive(Clone, Copy, Debug, PartialEq, Eq)]
pub enum ClaudeEvent {
    Started,
    /// The credentials were looked for.
    Credentials { found: bool },
    /// The credentials were refreshed, or could not be.
    Refreshed(Result<(), PollError>),
    Usage(Result<UsageData, PollError>),
}

/// What a poll of Anthropic does next.
#[derive(Clone, Copy, Debug, PartialEq, Eq)]
pub enum ClaudeStep {
    ReadCredentials,
    RefreshCredentials,
    FetchUsage,
    Done(Result<UsageData, PollError>),
}

/// What a poll of Anthropic does next.
pub open spec fn claude_next(event: ClaudeEvent) -> ClaudeStep {
    match event {
        ClaudeEvent::Started => ClaudeStep::ReadCredentials,
        ClaudeEvent::Credentials { found } => if found {
            ClaudeStep::RefreshCredentials
        } else {
            ClaudeStep::Done(Err(PollError::NoCredentials))
        },
        ClaudeEvent::Refreshed(Ok(_)) => ClaudeStep::FetchUsage,
        ClaudeEvent::Refreshed(Err(error)) => ClaudeStep::Done(Err(error)),
        ClaudeEvent::Usage(outcome) => ClaudeStep::Done(outcome),
    }
}

/// Decides what a poll of Anthropic does next.
pub fn poll_claude_code(event: ClaudeEvent) -> (step: ClaudeStep)
    ensures
        step == claude_next(event),
{
    match event {
        ClaudeEvent::Started => ClaudeStep::ReadCredentials,
        ClaudeEvent::Credentials { found } => if found {
            ClaudeStep::RefreshCredentials
        } else {
            ClaudeStep::Done(Err(PollError::NoCredentials))
        },
        ClaudeEvent::Refreshed(Ok(_)) => ClaudeStep::FetchUsage,
        ClaudeEvent::Refreshed(Err(error)) => ClaudeStep::Done(Err(error)),
        ClaudeEvent::Usage(outcome) => ClaudeStep::Done(outcome),
    }
}

/// How a poll of Anthropic runs on from an event, for the outcomes of the steps that it may
/// take: the steps up to the last one, which says what the poll comes to.
pub open spec fn claude_run(
    event: ClaudeEvent,
    found: bool,
    refreshed: Result<(), PollError>,
    usage: Result<UsageData, PollError>,
    fuel: nat,
) -> Seq<ClaudeStep>
    decreases fuel,
{
    let step = claude_next(event);
    if fuel == 0 {
        seq![step]
    } else {
        seq![step] + match step {
            ClaudeStep::ReadCredentials => claude_run(
                ClaudeEvent::Credentials { found },
                found,
                refreshed,
                usage,
                (fuel - 1) as nat,
            ),
            ClaudeStep::RefreshCredentials => claude_run(
                ClaudeEvent::Refreshed(refreshed),
                found,
                refreshed,
                usage,
                (fuel - 1) as nat,
            ),
            ClaudeStep::FetchUsage => claude_run(
                ClaudeEvent::Usage(usage),
                found,
                refreshed,
                usage,
                (fuel - 1) as nat,
            ),
            ClaudeStep::Done(_) => Seq::empty(),
        }
    }
}

/// A poll of Anthropic ends. It gives the figures that were fetched exactly if credentials
/// were found and could be made ready; before that it fetches nothing. Else it fails for the
/// first of these that went wrong.
pub proof fn law_claude_poll_outcome(
    found: bool,
    refreshed: Result<(), PollError>,
    usage: Result<UsageData, PollError>,
)
    ensures
        ({
            let run = claude_run(ClaudeEvent::Started, found, refreshed, usage, 4);
            &&& run.len() > 0
            &&& run.last() matches ClaudeStep::Done(result) && {
                &&& !found ==> result == Err::<UsageData, PollError>(PollError::NoCredentials)
                &&& found && refreshed is Err ==> result == Err::<UsageData, PollError>(
                    refreshed->Err_0,
                )
                &&& found && refreshed is Ok ==> result == usage
            }
            &&& run.contains(ClaudeStep::FetchUsage) <==> found && refreshed is Ok
            &&& run.contains(ClaudeStep::RefreshCredentials) <==> found
        }),
{
    reveal_with_fuel(claude_run, 5);
    let done = |r: Result<UsageData, PollError>| ClaudeStep::Done(r);
    let run = claude_run(ClaudeEvent::Started, found, refreshed, usage, 4);
    if !found {
        let end = done(Err(PollError::NoCredentials));
        assert(run =~= seq![ClaudeStep::ReadCredentials, end]);
    } else if let Err(error) = refreshed {
        assert(run =~= seq![
            ClaudeStep::ReadCredentials,
            ClaudeStep::RefreshCredentials,
            done(Err(error)),
        ]);
        assert(run[1] == ClaudeStep::RefreshCredentials);
    } else {
        assert(run =~= seq![
            ClaudeStep::ReadCredentials,
            ClaudeStep::RefreshCredentials,
            ClaudeStep::FetchUsage,
            done(usage),
        ]);
        assert(run[1] == ClaudeStep::RefreshCredentials);
        assert(run[2] == ClaudeStep::FetchUsage);
    }
}

/// What happened in a poll of Codex.
#[derive(Clone, Copy, Debug, PartialEq, Eq)]
pub enum CodexEvent {
    Started,
    /// The credentials were looked for.
    Credentials { found: bool },
    Usage(Result<UsageData, PollError>),
    /// The command line tool was run to refresh the token.
    Refreshed,
    /// The credentials were looked for once more.
    Reread { found: bool },
    /// The second attempt at the figures.
    Retried(Result<UsageData, PollError>),
}

/// What a poll of Codex does next.
#[derive(Clone, Copy, Debug, PartialEq, Eq)]
pub enum CodexStep {
    ReadCredentials,
    FetchUsage,
    RefreshToken,
    RereadCredentials,
    Retry,
    Done(Result<UsageData, PollError>),
}

/// What a poll of Codex does next. A token that is not accepted is refreshed, and the
/// figures are asked for once more.
pub open spec fn codex_next(event: CodexEvent) -> CodexStep {
    match event {
        CodexEvent::Started => CodexStep::ReadCredentials,
        CodexEvent::Credentials { found } => if found {
            CodexStep::FetchUsage
        } else {
            CodexStep::Done(Err(PollError::NoCredentials))
        },
        CodexEvent::Usage(outcome) => if outcome == Err::<UsageData, PollError>(
            PollError::AuthRequired,
        ) {
            CodexStep::RefreshToken
        } else {
            CodexStep::Done(outcome)
        },
        CodexEvent::Refreshed => CodexStep::RereadCredentials,
        CodexEvent::Reread { found } => if found {
            CodexStep::Retry
        } else {
            CodexStep::Done(Err(PollError::TokenExpired))
        },
        CodexEvent::Retried(outcome) => CodexStep::Done(outcome),
    }
}

/// Decides what a poll of Codex does next.
pub fn poll_codex(event: CodexEvent) -> (step: CodexStep)
    ensures
        step == codex_next(event),
{
    match event {
        CodexEvent::Started => CodexStep::ReadCredentials,
        CodexEvent::Credentials { found } => if found {
            CodexStep::FetchUsage
        } else {
            CodexStep::Done(Err(PollError::NoCredentials))
        },
        CodexEvent::Usage(Ok(data)) => CodexStep::Done(Ok(data)),
        CodexEvent::Usage(Err(PollError::AuthRequired)) => CodexStep::RefreshToken,
        CodexEvent::Usage(Err(error)) => CodexStep::Done(Err(error)),
        CodexEvent::Refreshed => CodexStep::RereadCredentials,
        CodexEvent::Reread { found } => if found {
            CodexStep::Retry
        } else {
            CodexStep::Done(Err(PollError::TokenExpired))
        },
        CodexEvent::Retried(outcome) => CodexStep::Done(outcome),
    }
}

/// How a poll of Codex runs on from an event, for the outcomes of the steps that it may
/// take: the steps up to the last one, which says what the poll comes to.
pub open spec fn codex_run(
    event: CodexEvent,
    found: bool,
    usage: Result<UsageData, PollError>,
    found_again: bool,
    retried: Result<UsageData, PollError>,
    fuel: nat,
) -> Seq<CodexStep>
    decreases fuel,
{
    let step = codex_next(event);
    let next = match step {
        CodexStep::ReadCredentials => Some(CodexEvent::Credentials { found }),
        CodexStep::FetchUsage => Some(CodexEvent::Usage(usage)),
        CodexStep::RefreshToken => Some(CodexEvent::Refreshed),
        CodexStep::RereadCredentials => Some(CodexEvent::Reread { found: found_again }),
        CodexStep::Retry => Some(CodexEvent::Retried(retried)),
        CodexStep::Done(_) => None,
    };
    match next {
        Some(event) => if fuel == 0 {
            seq![step]
        } else {
            seq![step] + codex_run(event, found, usage, found_again, retried, (fuel - 1) as nat)
        },
        None => seq![step],
    }
}

/// A poll of Codex ends. It gives what the endpoint said, if there are credentials; only
/// where the token was not accepted, it runs the tool that refreshes the token, reads the
/// credentials again, and gives what the endpoint said the second time. Credentials that are
/// gone then count as expired.
pub proof fn law_codex_poll_outcome(
    found: bool,
    usage: Result<UsageData, PollError>,
    found_again: bool,
    retried: Result<UsageData, PollError>,
)
    ensures
        ({
            let run = codex_run(CodexEvent::Started, found, usage, found_again, retried, 6);
            let refused = usage == Err::<UsageData, PollError>(PollError::AuthRequired);
            &&& run.len() > 0
            &&& run.last() matches CodexStep::Done(result) && {
                &&& !found ==> result == Err::<UsageData, PollError>(PollError::NoCredentials)
                &&& found && !refused ==> result == usage
                &&& found && refused && !found_again ==> result == Err::<UsageData, PollError>(
                    PollError::TokenExpired,
                )
                &&& found && refused && found_again ==> result == retried
            }
            &&& run.contains(CodexStep::FetchUsage) <==> found
            &&& run.contains(CodexStep::RefreshToken) <==> found && refused
            &&& run.contains(CodexStep::Retry) <==> found && refused && found_again
        }),
{
    reveal_with_fuel(codex_run, 7);
    let run = codex_run(CodexEvent::Started, found, usage, found_again, retried, 6);
    let refused = usage == Err::<UsageData, PollError>(PollError::AuthRequired);
    let read = CodexStep::ReadCredentials;
    let fetch = CodexStep::FetchUsage;
    if !found {
        assert(run =~= seq![read, CodexStep::Done(Err(PollError::NoCredentials))]);
    } else if !refused {
        assert(run =~= seq![read, fetch, CodexStep::Done(usage)]);
        assert(run[1] == fetch);
    } else if !found_again {
        assert(run =~= seq![
            read,
            fetch,
            CodexStep::RefreshToken,
            CodexStep::RereadCredentials,
            CodexStep::Done(Err(PollError::TokenExpired)),
        ]);
        assert(run[1] == fetch && run[2] == CodexStep::RefreshToken);
    } else {
        assert(run =~= seq![
            read,
            fetch,
            CodexStep::RefreshToken,
            CodexStep::RereadCredentials,
            CodexStep::Retry,
            CodexStep::Done(retried),
        ]);
        assert(run[1] == fetch && run[2] == CodexStep::RefreshToken && run[4] == CodexStep::Retry);
    }
}

/// What happened to credentials that are being made ready for use.
#[derive(Clone, Copy, Debug, PartialEq, Eq, Structural)]
pub enum RefreshEvent {
    /// Credentials with the given expiry are at hand.
    AtHand { expires_at: Option<i64>, now: UnixTime },
    /// The command line tool was run to refresh their token.
    Refreshed,
    /// Their source was read again: the expiry of the credentials found there, or nothing.
    Reread { credentials: Option<Option<i64>>, now: UnixTime },
    /// Credentials were looked for in the sources behind theirs.
    Next { found: bool },
}

/// What is done next to make credentials ready for use.
#[derive(Clone, Copy, Debug, PartialEq, Eq, Structural)]
pub enum RefreshStep {
    /// Use the credentials at hand.
    UseCurrent,
    /// Run the command line tool of their source.
    RunRefresh,
    /// Read their source again.
    Reread,
    /// Use what was read again.
    UseReread,
    /// Look for credentials in the sources behind theirs.
    FindNext,
    /// Start over with the ones that were found.
    TakeNext,
    Fail(PollError),
}

/// What is done next to make credentials ready for use.
pub open spec fn refresh_next(event: RefreshEvent) -> RefreshStep {
    match event {
        RefreshEvent::AtHand { expires_at, now } => if time::expired_at(expires_at, now) {
            RefreshStep::RunRefresh
        } else {
            RefreshStep::UseCurrent
        },
        RefreshEvent::Refreshed => RefreshStep::Reread,
        RefreshEvent::Reread { credentials, now } => match credentials {
            Some(at) => if time::expired_at(at, now) {
                RefreshStep::FindNext
            } else {
                RefreshStep::UseReread
            },
            None => RefreshStep::FindNext,
        },
        RefreshEvent::Next { found } => if found {
            RefreshStep::TakeNext
        } else {
            RefreshStep::Fail(PollError::TokenExpired)
        },
    }
}

/// Decides what is done next to make credentials ready for use: expired ones are
/// refreshed, and given up for the next source if that does not help.
pub fn refresh_or_fallback(event: RefreshEvent) -> (step: RefreshStep)
    ensures
        step == refresh_next(event),
{
    match event {
        RefreshEvent::AtHand { expires_at, now } => {
            if !time::is_token_expired_at(expires_at, now) {
                RefreshStep::UseCurrent
            } else {
                RefreshStep::RunRefresh
            }
        },
        RefreshEvent::Refreshed => RefreshStep::Reread,
        RefreshEvent::Reread { credentials, now } => match credentials {
            Some(at) => if !time::is_token_expired_at(at, now) {
                RefreshStep::UseReread
            } else {
                RefreshStep::FindNext
            },
            None => RefreshStep::FindNext,
        },
        RefreshEvent::Next { found } => if found {
            RefreshStep::TakeNext
        } else {
            RefreshStep::Fail(PollError::TokenExpired)
        },
    }
}

/// What one source yields: the expiry of its credentials when they are at hand, and the
/// expiry, if there are credentials, when it is read again.
pub struct SourceRound {
    pub expires_at: Option<i64>,
    pub now: UnixTime,
    pub reread: Option<Option<i64>>,
    pub reread_now: UnixTime,
}

impl SourceRound {
    /// The credentials have not expired when they are at hand.
    pub open spec fn fresh(self) -> bool {
        !time::expired_at(self.expires_at, self.now)
    }

    /// The credentials are there and have not expired when the source is read again.
    pub open spec fn fresh_after_refresh(self) -> bool {
        self.reread matches Some(at) && !time::expired_at(at, self.reread_now)
    }
}

/// How making credentials ready goes on from source `k` of those that are found one after
/// the other: which source is used, and whether it was read again; or the error.
pub open spec fn refresh_run(rounds: Seq<SourceRound>, k: int) -> Result<(int, bool), PollError>
    decreases rounds.len() - k,
{
    let round = rounds[k];
    if k < 0 || k >= rounds.len() {
        Err(PollError::TokenExpired)
    } else {
        match refresh_next(
            RefreshEvent::AtHand { expires_at: round.expires_at, now: round.now },
        ) {
            RefreshStep::UseCurrent => Ok((k, false)),
            RefreshStep::Fail(error) => Err(error),
            _ => match refresh_next(
                RefreshEvent::Reread { credentials: round.reread, now: round.reread_now },
            ) {
                RefreshStep::UseReread => Ok((k, true)),
                RefreshStep::Fail(error) => Err(error),
                _ => match refresh_next(RefreshEvent::Next { found: k + 1 < rounds.len() }) {
                    RefreshStep::TakeNext => refresh_run(rounds, k + 1),
                    RefreshStep::Fail(error) => Err(error),
                    _ => Err(PollError::TokenExpired),
                },
            },
        }
    }
}

/// The first source whose credentials can be used, as they are or after a refresh, is the
/// one that is used; if there is none, the token counts as expired.
pub proof fn law_first_usable_source_is_used(rounds: Seq<SourceRound>, k: int)
    requires
        0 <= k < rounds.len(),
    ensures
        match refresh_run(rounds, k) {
            Ok((used, reread)) => {
                &&& k <= used < rounds.len()
                &&& reread == !rounds[used].fresh()
                &&& reread ==> rounds[used].fresh_after_refresh()
                &&& forall|i: int|
                    k <= i < used ==> !(#[trigger] rounds[i]).fresh()
                        && !rounds[i].fresh_after_refresh()
            },
            Err(error) => {
                &&& error == PollError::TokenExpired
                &&& forall|i: int|
                    k <= i < rounds.len() ==> !(#[trigger] rounds[i]).fresh()
                        && !rounds[i].fresh_after_refresh()
            },
        },
    decreases rounds.len() - k,
{
    if !rounds[k].fresh() && !rounds[k].fresh_after_refresh() && k + 1 < rounds.len() {
        law_first_usable_source_is_used(rounds, k + 1);
    }
}

/// The tool that refreshes a token is run exactly for credentials that have expired, their
/// source is read again behind it, and what is read again is used exactly if it is there and
/// has not expired. Only then are the sources behind it looked at, and only if those have
/// nothing the token counts as expired.
pub proof fn law_expired_credentials_are_refreshed(
    expires_at: Option<i64>,
    now: UnixTime,
    reread: Option<Option<i64>>,
    reread_now: UnixTime,
    found: bool,
)
    ensures
        ({
            let at_hand = refresh_next(RefreshEvent::AtHand { expires_at, now });
            let again = refresh_next(
                RefreshEvent::Reread { credentials: reread, now: reread_now },
            );
            let next = refresh_next(RefreshEvent::Next { found });
            let usable = reread is Some && !time::expired_at(reread.unwrap(), reread_now);
            &&& at_hand is RunRefresh <==> time::expired_at(expires_at, now)
            &&& at_hand is UseCurrent <==> !time::expired_at(expires_at, now)
            &&& refresh_next(RefreshEvent::Refreshed) is Reread
            &&& again is UseReread <==> usable
            &&& again is FindNext <==> !usable
            &&& next is TakeNext <==> found
            &&& next == RefreshStep::Fail(PollError::TokenExpired) <==> !found
        }),
{
}

/// What a search for credentials does next. Distributions go by their place in the list.
#[derive(Clone, Copy, Debug, PartialEq, Eq, Structural)]
pub enum SearchStep {
    ReadWindows,
    ListDistros,
    ReadWsl(usize),
    /// The last ones that were read are the ones.
    Found,
    Missing,
}

/// How the search in the distributions from `start` on goes on, when the outcomes of the
/// reads so far are known: until one has credentials, or there is none left.
pub open spec fn search_next(start: nat, count: nat, reads: Seq<bool>) -> SearchStep {
    if reads.contains(true) {
        SearchStep::Found
    } else if start + reads.len() < count {
        SearchStep::ReadWsl((start + reads.len()) as usize)
    } else {
        SearchStep::Missing
    }
}

/// Goes on with the search in the distributions from `start` on.
fn search(start: usize, count: usize, reads: &Vec<bool>) -> (step: SearchStep)
    ensures
        step == search_next(start as nat, count as nat, reads@),
{
    let mut i: usize = 0;
    while i < reads.len()
        invariant
            i <= reads@.len(),
            forall|j: int| 0 <= j < i ==> !reads@[j],
        decreases reads@.len() - i,
    {
        if reads[i] {
            assert(reads@.contains(reads@[i as int]));
            return SearchStep::Found;
        }
        i += 1;
    }
    assert(!reads@.contains(true));
    if start < count && reads.len() < count - start {
        SearchStep::ReadWsl(start + reads.len())
    } else {
        SearchStep::Missing
    }
}

/// How the search for the first credentials goes on: those of the Windows user, else those
/// of the first distribution that has any.
pub open spec fn first_next(
    windows: Option<bool>,
    distro_count: Option<nat>,
    reads: Seq<bool>,
) -> SearchStep {
    match (windows, distro_count) {
        (None, _) => SearchStep::ReadWindows,
        (Some(true), _) => SearchStep::Found,
        (Some(false), None) => SearchStep::ListDistros,
        (Some(false), Some(count)) => search_next(0, count, reads),
    }
}

/// Decides how the search for the first credentials goes on. It is given whether the
/// Windows user has some, how many distributions there are, and whether each of those that
/// were read has some, as far as it is known.
pub fn read_first_credentials(
    windows: Option<bool>,
    distro_count: Option<usize>,
    reads: &Vec<bool>,
) -> (step: SearchStep)
    ensures
        step == first_next(
            windows,
            match distro_count {
                Some(n) => Some(n as nat),
                None => None,
            },
            reads@,
        ),
{
    match windows {
        None => SearchStep::ReadWindows,
        Some(true) => SearchStep::Found,
        Some(false) => match distro_count {
            None => SearchStep::ListDistros,
            Some(count) => search(0, count, reads),
        },
    }
}

/// What a step of the search for the first credentials means. It ends well exactly if the
/// Windows user or a distribution that was read has some. It is given up only if the Windows
/// user has none, every distribution was read, and none of them has any. A distribution is
/// read in its turn: behind those that were read, as long as none of them has any.
pub proof fn law_first_search_leaves_nothing_out(
    windows: Option<bool>,
    distro_count: Option<nat>,
    reads: Seq<bool>,
)
    requires
        distro_count matches Some(count) ==> reads.len() <= count <= usize::MAX,
        distro_count is None ==> reads.len() == 0,
        windows != Some(false) ==> reads.len() == 0,
    ensures
        ({
            let step = first_next(windows, distro_count, reads);
            let failed = forall|i: int| 0 <= i < reads.len() ==> !reads[i];
            &&& step is ReadWindows <==> windows is None
            &&& step is ListDistros <==> windows == Some(false) && distro_count is None
            &&& step is Found <==> windows == Some(true) || !failed
            &&& step is Missing <==> windows == Some(false) && distro_count == Some(reads.len())
                && failed
            &&& step matches SearchStep::ReadWsl(at) ==> at == reads.len() && windows == Some(
                false,
            ) && distro_count is Some && reads.len() < distro_count.unwrap() && failed
        }),
{
    if exists|i: int| 0 <= i < reads.len() && reads[i] {
        let i = choose|i: int| 0 <= i < reads.len() && reads[i];
        assert(reads.contains(reads[i]));
    }
}

/// How the search for the first credentials runs, where `windows` says whether the Windows
/// user has some, and `stocked` whether each distribution does, from the point where the first
/// `k` distributions were read: the last step, and how many were read.
pub open spec fn first_run(windows: bool, stocked: Seq<bool>, k: nat) -> (SearchStep, nat)
    decreases stocked.len() - k,
{
    let step = first_next(Some(windows), Some(stocked.len()), stocked.take(k as int));
    if step is ReadWsl && k < stocked.len() {
        first_run(windows, stocked, k + 1)
    } else {
        (step, k)
    }
}

/// Run to its end, the search for the first credentials finds those of the Windows user if
/// there are some, else those of the first distribution that has any; it finds none exactly
/// if neither has any.
pub proof fn law_first_search_finds_the_first(windows: bool, stocked: Seq<bool>, k: nat)
    requires
        stocked.len() <= usize::MAX,
        k <= stocked.len(),
        forall|i: int| 0 <= i < k ==> !stocked[i],
        windows ==> k == 0,
    ensures
        ({
            let (step, read) = first_run(windows, stocked, k);
            &&& windows ==> step is Found && read == 0
            &&& !windows && (exists|i: int| 0 <= i < stocked.len() && stocked[i]) ==> {
                &&& step is Found
                &&& 0 < read <= stocked.len()
                &&& stocked[read - 1]
                &&& forall|i: int| 0 <= i < read - 1 ==> !stocked[i]
            }
            &&& !windows && !(exists|i: int| 0 <= i < stocked.len() && stocked[i]) ==> step is Missing
                && read == stocked.len()
        }),
    decreases stocked.len() - k,
{
    let reads = stocked.take(k as int);
    law_first_search_leaves_nothing_out(
        Some(windows),
        Some(stocked.len()),
        if windows {
            Seq::empty()
        } else {
            reads
        },
    );
    assert(windows ==> reads =~= Seq::<bool>::empty());
    if !windows && k < stocked.len() {
        if stocked[k as int] {
            let more = stocked.take(k as int + 1);
            assert(more[k as int]);
            law_first_search_leaves_nothing_out(Some(false), Some(stocked.len()), more);
            assert(first_run(windows, stocked, k + 1) == (SearchStep::Found, (k + 1) as nat));
        } else {
            law_first_search_finds_the_first(windows, stocked, k + 1);
        }
    }
}

/// The place of the first distribution with the given name, or the number of them.
pub open spec fn distro_place(distros: Seq<String>, name: Seq<char>) -> nat
    decreases distros.len(),
{
    if distros.len() == 0 {
        0
    } else if distros[0]@ == name {
        0
    } else {
        1 + distro_place(distros.drop_first(), name)
    }
}

/// Where the search goes on behind a source: with all distributions behind the Windows
/// user, and with those behind its own place behind a distribution. A distribution that is
/// not in the list has none behind it.
pub open spec fn place_after(source: CredentialSource, distros: Seq<String>) -> nat {
    match source {
        CredentialSource::Windows(_) => 0,
        CredentialSource::Wsl { distro } => {
            let place = distro_place(distros, distro@);
            if place < distros.len() {
                place + 1
            } else {
                distros.len()
            }
        },
    }
}

/// `distro_place` is the one place without the name in front of it that holds the name or
/// is the end.
proof fn lemma_distro_place(distros: Seq<String>, name: Seq<char>, i: int)
    requires
        0 <= i <= distros.len(),
        forall|j: int| 0 <= j < i ==> (#[trigger] distros[j])@ != name,
        i < distros.len() ==> distros[i]@ == name,
    ensures
        distro_place(distros, name) == i,
    decreases distros.len(),
{
    if distros.len() > 0 && distros[0]@ != name {
        let rest = distros.drop_first();
        assert forall|j: int| 0 <= j < i - 1 implies (#[trigger] rest[j])@ != name by {
            assert(rest[j] == distros[j + 1]);
        }
        lemma_distro_place(rest, name, i - 1);
    }
}

/// Finds where the search goes on behind a source.
fn find_place_after(source: &CredentialSource, distros: &Vec<String>) -> (start: usize)
    ensures
        start == place_after(*source, distros@),
        start <= distros@.len(),
{
    match source {
        CredentialSource::Windows(_) => 0,
        CredentialSource::Wsl { distro } => {
            let mut i: usize = 0;
            while i < distros.len() && !text::same_text(distros[i].as_str(), distro.as_str())
                invariant
                    i <= distros@.len(),
                    forall|j: int| 0 <= j < i ==> (#[trigger] distros@[j])@ != distro@,
                decreases distros@.len() - i,
            {
                i += 1;
            }
            proof {
                lemma_distro_place(distros@, distro@, i as int);
            }
            if i < distros.len() {
                i + 1
            } else {
                i
            }
        },
    }
}

/// How the search behind a source goes on.
pub open spec fn after_next(
    source: CredentialSource,
    distros: Option<Seq<String>>,
    reads: Seq<bool>,
) -> SearchStep {
    match distros {
        None => SearchStep::ListDistros,
        Some(distros) => search_next(place_after(source, distros), distros.len(), reads),
    }
}

/// Decides how the search for credentials behind `source` goes on. It is given the
/// distributions, and whether each of those that were read has some, as far as it is known.
pub fn read_next_credentials_after(
    source: &CredentialSource,
    distros: Option<&Vec<String>>,
    reads: &Vec<bool>,
) -> (step: SearchStep)
    ensures
        step == after_next(
            *source,
            match distros {
                Some(list) => Some(list@),
                None => None,
            },
            reads@,
        ),
{
    match distros {
        None => SearchStep::ListDistros,
        Some(list) => search(find_place_after(source, list), list.len(), reads),
    }
}

/// What a step of the search behind a source means, where `start` is the place from which on
/// the distributions stand behind it: all of them behind the Windows user, and those behind
/// its own place behind a distribution. The search is given up only if all of these were
/// read and none has any credentials; else the next one in turn is read, until one has some.
pub proof fn law_search_behind_leaves_nothing_out(
    source: CredentialSource,
    distros: Seq<String>,
    reads: Seq<bool>,
    start: nat,
)
    requires
        distros.len() <= usize::MAX,
        start + reads.len() <= distros.len(),
        match source {
            CredentialSource::Windows(_) => start == 0,
            CredentialSource::Wsl { distro } => {
                &&& start >= 1
                &&& distros[start - 1]@ == distro@
                &&& forall|i: int| 0 <= i < start - 1 ==> (#[trigger] distros[i])@ != distro@
            },
        },
    ensures
        ({
            let step = after_next(source, Some(distros), reads);
            let failed = forall|i: int| 0 <= i < reads.len() ==> !reads[i];
            &&& after_next(source, None, reads) is ListDistros
            &&& step is Found <==> !failed
            &&& step is Missing <==> failed && start + reads.len() == distros.len()
            &&& step is ReadWsl <==> failed && start + reads.len() < distros.len()
            &&& step matches SearchStep::ReadWsl(at) ==> at == start + reads.len()
        }),
{
    if let CredentialSource::Wsl { distro } = source {
        lemma_distro_place(distros, distro@, start - 1);
    }
    if exists|i: int| 0 <= i < reads.len() && reads[i] {
        let i = choose|i: int| 0 <= i < reads.len() && reads[i];
        assert(reads.contains(reads[i]));
    }
}

/// Behind a distribution that is not in the list there is nothing to be found.
pub proof fn law_nothing_stands_behind_an_unlisted_source(
    distro: String,
    distros: Seq<String>,
    reads: Seq<bool>,
)
    requires
        forall|i: int| 0 <= i < distros.len() ==> (#[trigger] distros[i])@ != distro@,
        reads.len() == 0,
    ensures
        after_next(CredentialSource::Wsl { distro }, Some(distros), reads) is Missing,
{
    lemma_distro_place(distros, distro@, distros.len() as int);
}

/// The search behind a source moves on: among distributions with different names it only
/// ever reads ones that stand behind the source, so that falling back from source to
/// source comes to an end.
pub proof fn law_fallback_moves_on(
    source: CredentialSource,
    distros: Seq<String>,
    reads: Seq<bool>,
    next: CredentialSource,
)
    requires
        distros.len() <= usize::MAX,
        forall|i: int, j: int|
            0 <= i < j < distros.len() ==> (#[trigger] distros[i])@ != (#[trigger] distros[j])@,
        after_next(source, Some(distros), reads) matches SearchStep::ReadWsl(at) && next
            == (CredentialSource::Wsl { distro: distros[at as int] }),
    ensures
        place_after(source, distros) < place_after(next, distros) <= distros.len(),
{
    let at = (place_after(source, distros) + reads.len()) as int;
    lemma_distro_place(distros, distros[at]@, at);
}

/// What fetching the figures of Anthropic does next.
#[derive(Clone, Copy, Debug, PartialEq, Eq)]
pub enum FetchStep {
    AskUsageEndpoint,
    AskMessages,
    Done(Result<UsageData, PollError>),
}

/// A window with its own figures, and its reset time from `other` if it has none.
pub open spec fn with_reset_from(section: UsageSection, other: UsageSection) -> UsageSection {
    UsageSection {
        percentage: section.percentage,
        resets_at: if section.resets_at is Some {
            section.resets_at
        } else {
            other.resets_at
        },
    }
}

/// Figures with their missing reset times filled in.
pub open spec fn with_resets_from(data: UsageData, other: UsageData) -> UsageData {
    UsageData {
        session: with_reset_from(data.session, other.session),
        weekly: with_reset_from(data.weekly, other.weekly),
    }
}

/// Both reset times are known.
pub open spec fn has_resets(data: UsageData) -> bool {
    data.session.resets_at is Some && data.weekly.resets_at is Some
}

/// What fetching the figures of Anthropic does next. The Messages API is asked where the
/// usage endpoint gave nothing, and for the reset times that it did not give.
pub open spec fn fetch_next(
    endpoint: Option<Result<Option<UsageData>, PollError>>,
    messages: Option<Result<UsageData, PollError>>,
) -> FetchStep {
    match (endpoint, messages) {
        (None, _) => FetchStep::AskUsageEndpoint,
        (Some(Err(error)), _) => FetchStep::Done(Err(error)),
        (Some(Ok(Some(data))), None) => if has_resets(data) {
            FetchStep::Done(Ok(data))
        } else {
            FetchStep::AskMessages
        },
        (Some(Ok(Some(data))), Some(Ok(fallback))) => FetchStep::Done(
            Ok(with_resets_from(data, fallback)),
        ),
        (Some(Ok(Some(data))), Some(Err(_))) => FetchStep::Done(Ok(data)),
        (Some(Ok(None)), None) => FetchStep::AskMessages,
        (Some(Ok(None)), Some(outcome)) => FetchStep::Done(outcome),
    }
}

/// Decides what fetching the figures of Anthropic does next, from the outcomes that are
/// known so far.
pub fn fetch_usage_with_fallback(
    endpoint: Option<Result<Option<UsageData>, PollError>>,
    messages: Option<Result<UsageData, PollError>>,
) -> (step: FetchStep)
    ensures
        step == fetch_next(endpoint, messages),
{
    // Try the dedicated usage endpoint first.
    match endpoint {
        None => FetchStep::AskUsageEndpoint,
        Some(Err(error)) => FetchStep::Done(Err(error)),
        Some(Ok(Some(data))) => {
            // If reset timers are missing, fill them in from the Messages API.
            if data.session.resets_at.is_none() || data.weekly.resets_at.is_none() {
                match messages {
                    None => FetchStep::AskMessages,
                    Some(Ok(fallback)) => {
                        let mut merged = data;
                        if merged.session.resets_at.is_none() {
                            merged.session.resets_at = fallback.session.resets_at;
                        }
                        if merged.weekly.resets_at.is_none() {
                            merged.weekly.resets_at = fallback.weekly.resets_at;
                        }
                        FetchStep::Done(Ok(merged))
                    },
                    Some(Err(_)) => FetchStep::Done(Ok(data)),
                }
            } else {
                FetchStep::Done(Ok(data))
            }
        },
        // Fall back to Messages API with rate limit headers.
        Some(Ok(None)) => match messages {
            None => FetchStep::AskMessages,
            Some(outcome) => FetchStep::Done(outcome),
        },
    }
}

/// What the usage endpoint reports is kept: its percentages, and the reset times that it
/// gives, are those of the result, whatever the Messages API says.
pub proof fn law_endpoint_figures_are_kept(
    data: UsageData,
    messages: Option<Result<UsageData, PollError>>,
)
    ensures
        match fetch_next(Some(Ok(Some(data))), messages) {
            FetchStep::Done(Ok(result)) => {
                &&& result.session.percentage == data.session.percentage
                &&& result.weekly.percentage == data.weekly.percentage
                &&& data.session.resets_at is Some ==> result.session.resets_at
                    == data.session.resets_at
                &&& data.weekly.resets_at is Some ==> result.weekly.resets_at
                    == data.weekly.resets_at
            },
            FetchStep::AskMessages => messages is None && !has_resets(data),
            _ => false,
        },
{
}

/// What fetching the figures of Anthropic comes to. An error of the usage endpoint ends it.
/// Its figures are the result, each missing reset time taken from the Messages API if that
/// gave figures; where the endpoint has nothing, the result is that of the Messages API,
/// which is asked only where something is missing.
pub proof fn law_fetch_outcome(
    endpoint: Result<Option<UsageData>, PollError>,
    messages: Result<UsageData, PollError>,
)
    ensures
        fetch_next(None, None) is AskUsageEndpoint,
        endpoint matches Err(error) ==> fetch_next(Some(endpoint), None) == FetchStep::Done(
            Err(error),
        ),
        fetch_next(Some(endpoint), None) is AskMessages <==> (endpoint matches Ok(data) && (
        data is None || data.unwrap().session.resets_at is None
            || data.unwrap().weekly.resets_at is None)),
        endpoint == Ok::<Option<UsageData>, PollError>(None) ==> fetch_next(
            Some(endpoint),
            Some(messages),
        ) == FetchStep::Done(messages),
        endpoint matches Ok(Some(data)) ==> {
            &&& fetch_next(Some(endpoint), Some(messages)) matches FetchStep::Done(Ok(result)) && {
                &&& result.session.percentage == data.session.percentage
                &&& result.weekly.percentage == data.weekly.percentage
                &&& data.session.resets_at is Some ==> result.session.resets_at
                    == data.session.resets_at
                &&& data.weekly.resets_at is Some ==> result.weekly.resets_at
                    == data.weekly.resets_at
                &&& messages is Err ==> result == data
                &&& messages matches Ok(other) ==> {
                    &&& data.session.resets_at is None ==> result.session.resets_at
                        == other.session.resets_at
                    &&& data.weekly.resets_at is None ==> result.weekly.resets_at
                        == other.weekly.resets_at
                }
            }
            &&& data.session.resets_at is Some && data.weekly.resets_at is Some ==> fetch_next(
                Some(endpoint),
                None,
            ) == FetchStep::Done(Ok(data))
        },
{
}

/// What asking the Messages API does next.
#[derive(Clone, Copy, Debug, PartialEq, Eq)]
pub enum MessagesStep {
    /// Ask with the model at the given place.
    Ask(usize),
    Done(Result<UsageData, PollError>),
}

/// A reply settles the matter: the token is not accepted, or there are figures.
pub open spec fn settled(reply: MessagesReply) -> Option<Result<UsageData, PollError>> {
    match reply {
        MessagesReply::Unreachable => None,
        MessagesReply::Response { status, headers } => if usage::auth_status(status) {
            Some(Err(PollError::AuthRequired))
        } else if headers.has_limits() {
            Some(Ok(headers.usage()))
        } else {
            None
        },
    }
}

/// How asking the Messages API goes on from the `k`-th model: its reply settles the matter,
/// or the next model of the chain is asked, until there is none left.
pub open spec fn messages_next(replies: Seq<MessagesReply>, k: int) -> MessagesStep
    decreases MODEL_FALLBACKS - k,
{
    if k >= MODEL_FALLBACKS {
        MessagesStep::Done(Err(PollError::RequestFailed))
    } else if k >= replies.len() {
        MessagesStep::Ask(k as usize)
    } else {
        match settled(replies[k]) {
            Some(outcome) => MessagesStep::Done(outcome),
            None => messages_next(replies, k + 1),
        }
    }
}

/// Reads one reply of the Messages API (see [`settled`]).
fn settle(reply: &MessagesReply) -> (outcome: Option<Result<UsageData, PollError>>)
    ensures
        outcome == settled(*reply),
{
    match reply {
        MessagesReply::Unreachable => None,
        MessagesReply::Response { status, headers } => {
            if *status == 401 || *status == 403 {
                Some(Err(PollError::AuthRequired))
            } else if headers.session_utilization.is_some() || headers.weekly_utilization.is_some()
                || headers.status.is_some() {
                Some(Ok(usage::parse_rate_limit_headers(headers)))
            } else {
                None
            }
        },
    }
}

/// Decides how asking the Messages API with one model after the other for its rate limit
/// headers goes on, from the replies to the requests so far. Nothing can be asked if no
/// connection could be set up. The models are those of [`crate::requests::fallback_model`].
pub fn fetch_usage_via_messages(
    agent_ready: bool,
    replies: &Vec<MessagesReply>,
) -> (step: MessagesStep)
    ensures
        step == (if agent_ready {
            messages_next(replies@, 0)
        } else {
            MessagesStep::Done(Err(PollError::RequestFailed))
        }),
        step matches MessagesStep::Ask(place) ==> place < MODEL_FALLBACKS,
{
    if !agent_ready {
        return MessagesStep::Done(Err(PollError::RequestFailed));
    }
    let mut k: usize = 0;
    while k < MODEL_FALLBACKS
        invariant
            agent_ready,
            k <= MODEL_FALLBACKS,
            messages_next(replies@, 0) == messages_next(replies@, k as int),
        decreases MODEL_FALLBACKS - k,
    {
        if k >= replies.len() {
            return MessagesStep::Ask(k);
        }
        if let Some(outcome) = settle(&replies[k]) {
            return MessagesStep::Done(outcome);
        }
        k += 1;
    }
    MessagesStep::Done(Err(PollError::RequestFailed))
}

/// A reply settles the matter in two ways only: its status refuses the token, or it has a
/// header that goes with figures, whatever its status else.
pub proof fn law_what_settles(reply: MessagesReply)
    ensures
        match reply {
            MessagesReply::Unreachable => settled(reply) is None,
            MessagesReply::Response { status, headers } => {
                let marked = headers.session_utilization is Some || headers.weekly_utilization
                    is Some || headers.status is Some;
                &&& settled(reply) == Some(Err::<UsageData, PollError>(PollError::AuthRequired))
                    <==> status == 401 || status == 403
                &&& settled(reply) is None <==> status != 401 && status != 403 && !marked
                &&& status != 401 && status != 403 && marked ==> settled(reply) == Some(
                    Ok::<UsageData, PollError>(headers.usage()),
                )
            },
        },
{
}

/// Asking the Messages API comes to what the first reply says that settles the matter, and
/// asks two models at most: it fails exactly if neither reply settles it, and asks for the
/// next reply as long as those that are there do not.
pub proof fn law_first_settling_reply_counts(replies: Seq<MessagesReply>)
    ensures
        ({
            let step = messages_next(replies, 0);
            let first = replies.len() >= 1 && settled(replies[0]) is Some;
            let second = replies.len() >= 2 && settled(replies[1]) is Some;
            &&& replies.len() == 0 ==> step == MessagesStep::Ask(0)
            &&& first ==> step == MessagesStep::Done(settled(replies[0]).unwrap())
            &&& replies.len() == 1 && !first ==> step == MessagesStep::Ask(1)
            &&& replies.len() >= 2 && !first && second ==> step == MessagesStep::Done(
                settled(replies[1]).unwrap(),
            )
            &&& replies.len() >= 2 && !first && !second ==> step == MessagesStep::Done(
                Err(PollError::RequestFailed),
            )
        }),
{
    reveal_with_fuel(messages_next, 3);
}

} // verus!
