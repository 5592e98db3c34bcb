use usage_monitor::binary64::Binary64;
use usage_monitor::commands::{
    claude_refresh_command, claude_tool_names, cli_refresh_codex_token, cli_refresh_token, cli_refresh_windows_token,
    cli_refresh_wsl_token, codex_refresh_command, codex_tool_names, first_printed_path, list_distros_command,
    lookup_command, probe_command, resolve_windows_claude_path, resolve_windows_codex_path,
    run_with_timeout, wait_for_refresh, wsl_credentials_command, wsl_watch_command, CommandLine,
    RefreshPlan, ResolveStep, RunStep, WaitEvent, WaitStep, PROBE_TIMEOUT_SECS,
};
use usage_monitor::credentials::CredentialSource;
use usage_monitor::diagnose::{
    init, is_enabled, log, log_at, log_error, log_error_at, DiagnoseState, ENABLED_MESSAGE,
};
use usage_monitor::models::{AppUsageData, UsageData};
use usage_monitor::poller::{
    poll, poll_claude_code, poll_codex, read_first_credentials, read_next_credentials_after,
    refresh_or_fallback, ClaudeEvent, ClaudeStep, CodexEvent, CodexStep, PollStep, RefreshEvent,
    RefreshStep, SearchStep,
};
use usage_monitor::time::UnixTime;
use usage_monitor::usage::PollError;
use usage_monitor::version::pack_version;

fn figures(percent: f64) -> UsageData {
    let mut data = UsageData::default();
    data.session.percentage = Binary64 {
        bits: percent.to_bits(),
    };
    data
}

#[test]
fn poll_asks_for_shown_services_only() {
    assert_eq!(poll(true, true, None, None), PollStep::PollClaude);
    assert_eq!(
        poll(true, true, Some(Ok(figures(1.0))), None),
        PollStep::PollCodex
    );
    assert_eq!(poll(false, true, None, None), PollStep::PollCodex);
    assert_eq!(
        poll(false, false, None, None),
        PollStep::Done(Err(PollError::RequestFailed))
    );
}

#[test]
fn poll_keeps_claude_figures_when_codex_fails() {
    let claude = Some(Ok(figures(1.0)));
    assert_eq!(
        poll(true, true, claude, Some(Err(PollError::NoCredentials))),
        PollStep::Done(Ok(AppUsageData {
            claude_code: Some(figures(1.0)),
            codex: None,
        }))
    );
    assert_eq!(
        poll(false, true, None, Some(Err(PollError::NoCredentials))),
        PollStep::Done(Err(PollError::NoCredentials))
    );
    assert_eq!(
        poll(true, true, Some(Err(PollError::TokenExpired)), None),
        PollStep::Done(Err(PollError::TokenExpired))
    );
    assert_eq!(
        poll(true, true, claude, Some(Ok(figures(2.0)))),
        PollStep::Done(Ok(AppUsageData {
            claude_code: Some(figures(1.0)),
            codex: Some(figures(2.0)),
        }))
    );
}

#[test]
fn claude_poll_runs_through_its_steps() {
    assert_eq!(
        poll_claude_code(ClaudeEvent::Started),
        ClaudeStep::ReadCredentials
    );
    assert_eq!(
        poll_claude_code(ClaudeEvent::Credentials { found: false }),
        ClaudeStep::Done(Err(PollError::NoCredentials))
    );
    assert_eq!(
        poll_claude_code(ClaudeEvent::Credentials { found: true }),
        ClaudeStep::RefreshCredentials
    );
    assert_eq!(
        poll_claude_code(ClaudeEvent::Refreshed(Err(PollError::TokenExpired))),
        ClaudeStep::Done(Err(PollError::TokenExpired))
    );
    assert_eq!(
        poll_claude_code(ClaudeEvent::Refreshed(Ok(()))),
        ClaudeStep::FetchUsage
    );
    assert_eq!(
        poll_claude_code(ClaudeEvent::Usage(Ok(figures(3.0)))),
        ClaudeStep::Done(Ok(figures(3.0)))
    );
}

#[test]
fn codex_poll_retries_once_after_a_refused_token() {
    assert_eq!(
        poll_codex(CodexEvent::Started),
        CodexStep::ReadCredentials
    );
    assert_eq!(
        poll_codex(CodexEvent::Credentials { found: false }),
        CodexStep::Done(Err(PollError::NoCredentials))
    );
    assert_eq!(
        poll_codex(CodexEvent::Usage(Err(PollError::AuthRequired))),
        CodexStep::RefreshToken
    );
    assert_eq!(
        poll_codex(CodexEvent::Usage(Err(PollError::RequestFailed))),
        CodexStep::Done(Err(PollError::RequestFailed))
    );
    assert_eq!(poll_codex(CodexEvent::Refreshed), CodexStep::RereadCredentials);
    assert_eq!(
        poll_codex(CodexEvent::Reread { found: false }),
        CodexStep::Done(Err(PollError::TokenExpired))
    );
    assert_eq!(
        poll_codex(CodexEvent::Retried(Err(PollError::AuthRequired))),
        CodexStep::Done(Err(PollError::AuthRequired))
    );
}

#[test]
fn expired_credentials_are_refreshed_then_given_up() {
    let now = UnixTime {
        secs: 1000,
        nanos: 0,
    };
    let at_hand = |expires_at| refresh_or_fallback(RefreshEvent::AtHand { expires_at, now });
    let reread = |credentials| refresh_or_fallback(RefreshEvent::Reread { credentials, now });
    assert_eq!(at_hand(None), RefreshStep::UseCurrent);
    assert_eq!(at_hand(Some(1_000_001)), RefreshStep::UseCurrent);
    assert_eq!(at_hand(Some(1_000_000)), RefreshStep::RunRefresh);
    assert_eq!(
        refresh_or_fallback(RefreshEvent::Refreshed),
        RefreshStep::Reread
    );
    assert_eq!(reread(Some(None)), RefreshStep::UseReread);
    assert_eq!(reread(Some(Some(5))), RefreshStep::FindNext);
    assert_eq!(reread(None), RefreshStep::FindNext);
    assert_eq!(
        refresh_or_fallback(RefreshEvent::Next { found: true }),
        RefreshStep::TakeNext
    );
    assert_eq!(
        refresh_or_fallback(RefreshEvent::Next { found: false }),
        RefreshStep::Fail(PollError::TokenExpired)
    );
}

#[test]
fn credentials_are_searched_in_order() {
    assert_eq!(
        read_first_credentials(None, None, &vec![]),
        SearchStep::ReadWindows
    );
    assert_eq!(
        read_first_credentials(Some(true), None, &vec![]),
        SearchStep::Found
    );
    assert_eq!(
        read_first_credentials(Some(false), None, &vec![]),
        SearchStep::ListDistros
    );
    assert_eq!(
        read_first_credentials(Some(false), Some(2), &vec![false]),
        SearchStep::ReadWsl(1)
    );
    assert_eq!(
        read_first_credentials(Some(false), Some(2), &vec![false, true]),
        SearchStep::Found
    );
    assert_eq!(
        read_first_credentials(Some(false), Some(2), &vec![false, false]),
        SearchStep::Missing
    );
}

#[test]
fn search_goes_on_behind_the_current_source() {
    let distros = vec!["A".to_string(), "B".to_string(), "C".to_string()];
    let windows = CredentialSource::Windows("p".to_string());
    let wsl = |d: &str| CredentialSource::Wsl {
        distro: d.to_string(),
    };
    assert_eq!(
        read_next_credentials_after(&windows, None, &vec![]),
        SearchStep::ListDistros
    );
    assert_eq!(
        read_next_credentials_after(&windows, Some(&distros), &vec![]),
        SearchStep::ReadWsl(0)
    );
    assert_eq!(
        read_next_credentials_after(&wsl("A"), Some(&distros), &vec![]),
        SearchStep::ReadWsl(1)
    );
    assert_eq!(
        read_next_credentials_after(&wsl("A"), Some(&distros), &vec![false]),
        SearchStep::ReadWsl(2)
    );
    assert_eq!(
        read_next_credentials_after(&wsl("C"), Some(&distros), &vec![]),
        SearchStep::Missing
    );
    assert_eq!(
        read_next_credentials_after(&wsl("gone"), Some(&distros), &vec![]),
        SearchStep::Missing
    );
}

fn words(c: &CommandLine) -> Vec<&str> {
    let mut all = vec![c.program.as_str()];
    all.extend(c.args.iter().map(String::as_str));
    all
}

#[test]
fn claude_is_refreshed_by_its_kind_of_program() {
    let script = cli_refresh_windows_token("C:\\Tools\\Tool.CMD");
    assert_eq!(
        words(&script),
        vec!["cmd.exe", "/c", "C:\\Tools\\Tool.CMD", "-p", "."]
    );
    assert_eq!(
        script.removed_vars,
        vec!["CLAUDECODE", "CLAUDE_CODE_ENTRYPOINT"]
    );
    assert_eq!(
        words(&cli_refresh_windows_token("tool")),
        vec!["tool", "-p", "."]
    );
    assert_eq!(
        words(&claude_refresh_command("X", "x.cmd")),
        vec!["cmd.exe", "/c", "X", "-p", "."]
    );
}

#[test]
fn codex_is_refreshed_by_its_kind_of_program() {
    assert_eq!(
        words(&cli_refresh_codex_token("codex.cmd")),
        vec!["cmd.exe", "/c", "codex.cmd", "exec", "."]
    );
    assert_eq!(
        words(&cli_refresh_codex_token("C:\\codex.PS1")),
        vec![
            "powershell.exe",
            "-NoProfile",
            "-ExecutionPolicy",
            "Bypass",
            "-File",
            "C:\\codex.PS1",
            "exec",
            ".",
        ]
    );
    let direct = cli_refresh_codex_token("codex.exe");
    assert_eq!(words(&direct), vec!["codex.exe", "exec", "."]);
    assert!(direct.removed_vars.is_empty());
    assert_eq!(words(&codex_refresh_command("X", "y")), vec!["X", "exec", "."]);
}

#[test]
fn distro_names_stand_for_themselves() {
    let refresh = cli_refresh_wsl_token("tool", "Ubuntu 22");
    assert_eq!(
        &words(&refresh)[..6],
        &["wsl.exe", "-d", "Ubuntu 22", "--", "bash", "-lic"]
    );
    assert_eq!(
        refresh.args[5],
        "if command -v tool >/dev/null 2>&1; then tool -p .; \
         elif [ -x \"$HOME/.local/bin/tool\" ]; then \"$HOME/.local/bin/tool\" -p .; \
         else exit 127; fi"
    );
    assert_eq!(refresh.removed_vars.len(), 2);
    assert_eq!(
        words(&wsl_credentials_command("tool", "D")),
        vec![
            "wsl.exe",
            "-d",
            "D",
            "--",
            "sh",
            "-lc",
            "cat ~/.tool/.credentials.json"
        ]
    );
    let watch = wsl_watch_command("tool", "D");
    assert_eq!(
        watch.args[5],
        "if [ -f ~/.tool/.credentials.json ]; then \
         stat -c 'present|%s|%Y' ~/.tool/.credentials.json; \
         else echo missing; fi"
    );
    assert_eq!(words(&list_distros_command()), vec!["wsl.exe", "-l", "-q"]);
    match cli_refresh_token("tool", &CredentialSource::Wsl {
        distro: "D".to_string(),
    }) {
        RefreshPlan::Run(c) => assert_eq!(c.args[1], "D"),
        RefreshPlan::FindTool => panic!("a distribution has its own tool"),
    }
    assert!(matches!(
        cli_refresh_token("tool", &CredentialSource::Windows("p".to_string())),
        RefreshPlan::FindTool
    ));
}

fn resolved(step: ResolveStep) -> Option<String> {
    match step {
        ResolveStep::Resolved(path) => Some(path),
        _ => None,
    }
}

#[test]
fn tools_are_probed_then_looked_up() {
    assert!(matches!(
        resolve_windows_claude_path("tool", &vec![], &vec![]),
        ResolveStep::Probe(0)
    ));
    assert_eq!(
        resolved(resolve_windows_claude_path("tool", &vec![false, true], &vec![])),
        Some("tool".to_string())
    );
    assert!(matches!(
        resolve_windows_claude_path("tool", &vec![false, false], &vec![]),
        ResolveStep::LookUp(0)
    ));
    let printed = |s: &str| Some(s.as_bytes().to_vec());
    assert_eq!(
        resolved(resolve_windows_claude_path(
            "tool",
            &vec![false, false],
            &vec![None, printed("  C:\\tool.exe \r\nD:\\other\r\n")]
        )),
        Some("C:\\tool.exe".to_string())
    );
    assert_eq!(
        resolved(resolve_windows_claude_path(
            "tool",
            &vec![false, false],
            &vec![printed("\r\nC:\\x"), printed("")]
        )),
        Some("tool.cmd".to_string())
    );
    assert!(matches!(
        resolve_windows_codex_path(&vec![false, false, false], &vec![]),
        ResolveStep::Probe(3)
    ));
    assert_eq!(
        resolved(resolve_windows_codex_path(
            &vec![false; 4],
            &vec![None, None, None, None]
        )),
        Some("codex.cmd".to_string())
    );
    assert_eq!(
        resolved(resolve_windows_codex_path(
            &vec![false; 4],
            &vec![Some(b"a\xFF.exe".to_vec())]
        )),
        Some("a\u{FFFD}.exe".to_string())
    );
    assert_eq!(claude_tool_names("tool"), vec!["tool.cmd", "tool"]);
    assert_eq!(
        codex_tool_names(),
        vec!["codex.cmd", "codex.ps1", "codex.exe", "codex"]
    );
    assert_eq!(first_printed_path("\t x \nq"), Some("x".to_string()));
    assert_eq!(first_printed_path(""), None);
    assert_eq!(words(&probe_command("tool")), vec!["tool", "--version"]);
    assert_eq!(words(&lookup_command("tool")), vec!["where.exe", "tool"]);
}

#[test]
fn programs_are_waited_for_only_so_long() {
    let running = |elapsed_nanos| WaitEvent::Running { elapsed_nanos };
    let run = |event| run_with_timeout(event, PROBE_TIMEOUT_SECS);
    assert_eq!(run(WaitEvent::NotStarted), RunStep::GiveUp);
    assert_eq!(run(WaitEvent::Exited), RunStep::Collect);
    assert_eq!(run(WaitEvent::Unknown), RunStep::GiveUp);
    assert_eq!(run(running(5_000_000_000)), RunStep::Sleep { millis: 100 });
    assert_eq!(run(running(5_000_000_001)), RunStep::KillAndReap);
    assert_eq!(
        run_with_timeout(running(u128::MAX), u64::MAX),
        RunStep::KillAndReap
    );

    assert_eq!(wait_for_refresh(WaitEvent::Exited), WaitStep::Stop);
    assert_eq!(wait_for_refresh(WaitEvent::Unknown), WaitStep::Stop);
    assert_eq!(wait_for_refresh(WaitEvent::NotStarted), WaitStep::Stop);
    assert_eq!(
        wait_for_refresh(running(30_000_000_000)),
        WaitStep::Sleep { millis: 500 }
    );
    assert_eq!(wait_for_refresh(running(30_000_000_001)), WaitStep::Kill);
}

#[test]
fn log_lines_carry_the_time_if_the_log_is_on() {
    let mut state = DiagnoseState { enabled: false };
    let at = UnixTime {
        secs: 1234,
        nanos: 5,
    };
    assert!(!is_enabled(&state));
    assert_eq!(log_at(&state, "hello", at), None);
    assert_eq!(log(&state, "hello"), None);
    assert_eq!(log_error(&state, "reading", "no file"), None);
    assert_eq!(
        init(&mut state, "C:\\log", Some("denied")),
        Err("Unable to open diagnostic log file C:\\log: denied".to_string())
    );
    assert!(!is_enabled(&state));
    assert_eq!(init(&mut state, "C:\\log", None), Ok("C:\\log".to_string()));
    assert!(is_enabled(&state));
    assert_eq!(log_at(&state, "hello", at), Some("[1234] hello".to_string()));
    assert_eq!(
        log_error_at(&state, "reading", "no file", at),
        Some("[1234] reading: no file".to_string())
    );
    let early = UnixTime { secs: -9, nanos: 0 };
    assert_eq!(log_at(&state, "x", early), Some("[0] x".to_string()));
    let line = log(&state, ENABLED_MESSAGE).unwrap();
    assert!(line.starts_with('[') && line.ends_with("] diagnostic logging enabled"));
    assert!(log_error(&state, "a", "b").unwrap().ends_with("] a: b"));
}

#[test]
fn versions_are_packed_into_words() {
    assert_eq!(pack_version("1.2.3"), (1 << 48) | (2 << 32) | (3 << 16));
    assert_eq!(pack_version("1.2.3-beta.4"), pack_version("1.2.3"));
    assert_eq!(pack_version("7"), 7 << 48);
    assert_eq!(pack_version("x.70000.+5"), (65_535 << 32) | (5 << 16));
    assert_eq!(pack_version(""), 0);
    assert!(pack_version("1.9.9") < pack_version("1.10.0"));
}
