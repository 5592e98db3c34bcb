//! The diagnostic log: what is written to it, if it is switched on.

use vstd::prelude::*;

use crate::text;
use crate::time;
use crate::time::UnixTime;

verus! {

/// Whether the diagnostic log is switched on.
#[derive(Clone, Copy, Debug, PartialEq, Eq, Structural)]
pub struct DiagnoseState {
    pub enabled: bool,
}

/// What switching on the diagnostic log says.
pub const ENABLED_MESSAGE: &'static str = "diagnostic logging enabled";

/// What is said when the log file at `path` could not be opened.
pub open spec fn open_failure(path: Seq<char>, error: Seq<char>) -> Seq<char> {
    "Unable to open diagnostic log file "@ + path + ": "@ + error
}

/// Switches on the diagnostic log, if its file at `path` could be opened; else `open_error`
/// says why it could not. A log that is on stays on.
pub fn init(state: &mut DiagnoseState, path: &str, open_error: Option<&str>) -> (result: Result<
    String,
    String,
>)
    ensures
        match open_error {
            None => {
                &&& result matches Ok(p) && p@ == path@
                &&& final(state).enabled
            },
            Some(error) => {
                &&& result matches Err(message) && message@ == open_failure(path@, error@)
                &&& *final(state) == *old(state)
            },
        },
{
    match open_error {
        None => {
            state.enabled = true;
            Ok(text::copy(path))
        },
        Some(error) => {
            let mut message = text::copy("Unable to open diagnostic log file ");
            text::append(&mut message, path);
            text::append(&mut message, ": ");
            text::append(&mut message, error);
            Err(message)
        },
    }
}

/// Tests whether the diagnostic log is switched on.
pub fn is_enabled(state: &DiagnoseState) -> (yes: bool)
    ensures
        yes == state.enabled,
{
    state.enabled
}

/// The whole seconds since the epoch; 0 before it.
pub open spec fn log_seconds(now: UnixTime) -> nat {
    if now.secs >= 0 {
        now.secs as nat
    } else {
        0
    }
}

/// A line of the log: the time in brackets, and the message.
pub open spec fn log_line(message: Seq<char>, now: UnixTime) -> Seq<char> {
    "["@ + text::decimal(log_seconds(now)) + "] "@ + message
}

/// The line that is written for a message at the time `now`, if the log is switched on.
pub fn log_at(state: &DiagnoseState, message: &str, now: UnixTime) -> (line: Option<String>)
    ensures
        line is Some == state.enabled,
        line matches Some(l) ==> l@ == log_line(message@, now),
{
    if !state.enabled {
        return None;
    }
    let seconds: u64 = if now.secs >= 0 {
        now.secs as u64
    } else {
        0
    };
    let mut line = text::copy("[");
    text::append(&mut line, text::decimal_text(seconds).as_str());
    text::append(&mut line, "] ");
    text::append(&mut line, message);
    Some(line)
}

/// The line that is written for a message now, if the log is switched on.
pub fn log(state: &DiagnoseState, message: &str) -> (line: Option<String>)
    ensures
        line is Some == state.enabled,
        line matches Some(l) ==> exists|now: UnixTime|
            now.wf() && time::shown(now) && l@ == #[trigger] log_line(message@, now),
{
    let now = time::now();
    log_at(state, message, now)
}

/// What is logged about an error.
pub open spec fn error_message(context: Seq<char>, error: Seq<char>) -> Seq<char> {
    context + ": "@ + error
}

/// A line begins with the seconds since the epoch in brackets, 0 before it, and ends with
/// the message. So both can be read off it.
pub proof fn law_log_line_holds_time_and_message(
    message: Seq<char>,
    now: UnixTime,
    other_message: Seq<char>,
    other: UnixTime,
)
    requires
        now.secs >= 0,
        other.secs >= 0,
        log_line(message, now) == log_line(other_message, other),
    ensures
        log_line(message, now) == "["@ + text::decimal(now.secs as nat) + "] "@ + message,
        now.secs == other.secs,
        message == other_message,
{
    reveal_strlit("[");
    reveal_strlit("] ");
    let a = text::decimal(now.secs as nat);
    let b = text::decimal(other.secs as nat);
    let whole = log_line(message, now);
    text::law_decimal_reads_back(now.secs as nat);
    text::law_decimal_reads_back(other.secs as nat);
    if a.len() < b.len() {
        assert(whole[1 + a.len() as int] == ']');
        assert(log_line(other_message, other)[1 + a.len() as int] == b[a.len() as int]);
    } else if b.len() < a.len() {
        assert(log_line(other_message, other)[1 + b.len() as int] == ']');
        assert(whole[1 + b.len() as int] == a[b.len() as int]);
    }
    assert(a =~= whole.subrange(1, 1 + a.len() as int));
    assert(b =~= log_line(other_message, other).subrange(1, 1 + b.len() as int));
    let from = 3 + a.len() as int;
    assert(message =~= whole.skip(from));
    assert(other_message =~= log_line(other_message, other).skip(from));
}

/// The line that is written for an error at the time `now`, if the log is switched on.
pub fn log_error_at(state: &DiagnoseState, context: &str, error: &str, now: UnixTime) -> (line:
    Option<String>)
    ensures
        line is Some == state.enabled,
        line matches Some(l) ==> l@ == log_line(error_message(context@, error@), now),
{
    let mut message = text::copy(context);
    text::append(&mut message, ": ");
    text::append(&mut message, error);
    log_at(state, message.as_str(), now)
}

/// The line that is written for an error now, if the log is switched on.
pub fn log_error(state: &DiagnoseState, context: &str, error: &str) -> (line: Option<String>)
    ensures
        line is Some == state.enabled,
        line matches Some(l) ==> exists|now: UnixTime|
            now.wf() && time::shown(now) && l@ == #[trigger] log_line(
                error_message(context@, error@),
                now,
            ),
{
    let now = time::now();
    log_error_at(state, context, error, now)
}

/// A line is written exactly if the log is on, for a time that the clock showed.
pub proof fn law_log_is_written_when_it_is_on(
    state: &DiagnoseState,
    message: &str,
    line: Option<String>,
)
    requires
        call_ensures(log, (state, message), line),
    ensures
        line is Some <==> state.enabled,
        line matches Some(l) ==> exists|now: UnixTime| #[trigger]
            time::shown(now) && l@ == log_line(message@, now),
{
    if let Some(l) = line {
        let now = choose|now: UnixTime|
            now.wf() && time::shown(now) && l@ == #[trigger] log_line(message@, now);
        assert(time::shown(now));
    }
}

} // verus!
