use usage_monitor::credential_watch::{
    credential_watch_signature, credential_watch_snapshot, watched_sources,
    windows_credential_watch_signature, wsl_credential_watch_signature, CredentialWatchMode,
    FileState, SeenState, WatchOutput, WatchStep,
};
use usage_monitor::credentials::{
    all_known_credential_sources, credentials_from_members, parse_credentials,
    read_codex_credentials, read_credentials_from_source, read_file_credentials,
    read_windows_credentials, read_wsl_credentials, CodexTokenData, CredentialSource,
    SourceContent, WindowsFile, WindowsReadStep,
};
use usage_monitor::json::{JsonField, JsonMember};
use usage_monitor::locations::{
    codex_auth_path, log_location, windows_credential_location, BaseDir,
};
use usage_monitor::wsl::{
    decode_utf16le, decode_wsl_text, is_safe_wsl_distro_name, list_wsl_distros, looks_like_utf16le,
};

fn windows() -> CredentialSource {
    CredentialSource::Windows("C:\\creds.json".to_string())
}

#[test]
fn is_safe_wsl_distro_name_accepts_typical_names() {
    assert!(is_safe_wsl_distro_name("Ubuntu-22.04"));
    assert!(is_safe_wsl_distro_name("Debian GNU_Linux"));
}

#[test]
fn is_safe_wsl_distro_name_rejects_empty_or_shell_metacharacters() {
    assert!(!is_safe_wsl_distro_name(""));
    assert!(!is_safe_wsl_distro_name("Ubuntu; rm -rf /"));
    assert!(!is_safe_wsl_distro_name("$(whoami)"));
    assert!(!is_safe_wsl_distro_name(&"a".repeat(257)));
}

#[test]
fn distro_names_are_measured_in_bytes_and_may_have_any_letters() {
    assert!(is_safe_wsl_distro_name("\u{dc}bung"));
    assert!(is_safe_wsl_distro_name(&"a".repeat(256)));
    assert!(is_safe_wsl_distro_name(&"\u{e9}".repeat(128)));
    assert!(!is_safe_wsl_distro_name(&"\u{e9}".repeat(129)));
    assert!(!is_safe_wsl_distro_name("a\u{2192}b"));
}

#[test]
fn decode_wsl_text_decodes_utf16le_with_bom() {
    // 0xFF 0xFE is the little-endian UTF-16 BOM, followed by "hi" as UTF-16LE code units.
    let mut bytes = vec![0xFF, 0xFE];
    for ch in "hi".encode_utf16() {
        bytes.extend_from_slice(&ch.to_le_bytes());
    }
    assert_eq!(decode_wsl_text(&bytes), "hi");
}

#[test]
fn decode_wsl_text_falls_back_to_utf8_for_plain_text() {
    assert_eq!(decode_wsl_text(b"present|123|456"), "present|123|456");
}

#[test]
fn decode_wsl_text_keeps_any_utf8_without_a_zero() {
    for text in ["a", "ab", "\u{1}\u{2}", "grün und 漢字", "\u{FFFD}x", "🦀🦀"] {
        assert_eq!(decode_wsl_text(text.as_bytes()), text);
    }
}

#[test]
fn decode_wsl_text_handles_empty_input() {
    assert_eq!(decode_wsl_text(b""), "");
}

#[test]
fn utf16_is_recognised_without_a_mark() {
    let text = "Ubuntu\u{1F600}";
    let mut bytes: Vec<u8> = Vec::new();
    for unit in text.encode_utf16() {
        bytes.extend_from_slice(&unit.to_le_bytes());
    }
    assert!(looks_like_utf16le(&bytes));
    assert_eq!(decode_wsl_text(&bytes), text);
    assert!(!looks_like_utf16le(b"plain text"));
    assert!(!looks_like_utf16le(b"x"));
    assert_eq!(decode_utf16le(&bytes[..3]), None);
    // A lone surrogate is replaced.
    assert_eq!(
        decode_utf16le(&[0xFF, 0xFE, 0x00, 0xD8, 0x41, 0x00]),
        Some("\u{FFFD}A".to_string())
    );
}

#[test]
fn bytes_that_are_no_utf8_are_replaced() {
    assert_eq!(decode_wsl_text(b"a\xFFb"), "a\u{FFFD}b");
}

#[test]
fn distros_are_listed_in_order_without_unsafe_names() {
    let listing = "Ubuntu\r\n\r\n  Debian \u{3000}\r\nbad;name\r\nArch";
    assert_eq!(
        list_wsl_distros(Some(listing.as_bytes())),
        vec!["Ubuntu", "Debian", "Arch"]
    );
    assert!(list_wsl_distros(None).is_empty());
}

#[test]
fn parse_credentials_extracts_token_and_expiry() {
    let json = r#"{"claudeAiOauth":{"accessToken":"abc123","expiresAt":9999999999}}"#;
    let creds = parse_credentials(json, windows()).unwrap();
    assert_eq!(creds.access_token, "abc123");
    assert_eq!(creds.expires_at, Some(9999999999));
}

#[test]
fn parse_credentials_rejects_missing_oauth_block() {
    assert!(parse_credentials("{}", windows()).is_none());
}

#[test]
fn parse_credentials_rejects_invalid_json() {
    assert!(parse_credentials("not json", windows()).is_none());
}

#[test]
fn parse_credentials_rejects_empty_token() {
    let json = r#"{"claudeAiOauth":{"accessToken":""}}"#;
    assert!(parse_credentials(json, windows()).is_none());
}

#[test]
fn parse_credentials_rejects_control_characters_in_token() {
    let json = "{\"claudeAiOauth\":{\"accessToken\":\"abc\\u0007def\"}}";
    assert!(parse_credentials(json, windows()).is_none());
}

#[test]
fn parse_credentials_reads_only_what_it_needs() {
    let json = r#"{"x":[1],"claudeAiOauth":{"accessToken":"t","expiresAt":"soon","more":{}}}"#;
    let creds = parse_credentials(json, windows()).unwrap();
    assert_eq!(creds.expires_at, None);
    assert!(parse_credentials(r#"{"claudeAiOauth":"t"}"#, windows()).is_none());
    assert!(parse_credentials(r#"[{"claudeAiOauth":{}}]"#, windows()).is_none());
    assert!(parse_credentials(r#"{"claudeAiOauth":{"accessToken":5}}"#, windows()).is_none());
    let float = r#"{"claudeAiOauth":{"accessToken":"t","expiresAt":1.5}}"#;
    assert_eq!(parse_credentials(float, windows()).unwrap().expires_at, None);
}

#[test]
fn tokens_have_a_longest_length() {
    let json = |n: usize| {
        format!(
            "{{\"claudeAiOauth\":{{\"accessToken\":\"{}\"}}}}",
            "a".repeat(n)
        )
    };
    assert!(parse_credentials(&json(8192), windows()).is_some());
    assert!(parse_credentials(&json(8193), windows()).is_none());
    let wide = "{\"claudeAiOauth\":{\"accessToken\":\"\u{e9}\"}}";
    assert!(parse_credentials(wide, windows()).is_none());
    let deleted = "{\"claudeAiOauth\":{\"accessToken\":\"a\u{7f}\"}}";
    assert!(parse_credentials(deleted, windows()).is_none());
}

#[test]
fn credentials_come_from_the_members() {
    let field = |name: &str, text: Option<&str>, integer: Option<i64>| JsonField {
        name: name.to_string(),
        text: text.map(str::to_string),
        integer,
    };
    let members = vec![
        JsonMember {
            name: "other".to_string(),
            fields: Some(vec![field("accessToken", Some("wrong"), None)]),
        },
        JsonMember {
            name: "claudeAiOauth".to_string(),
            fields: Some(vec![
                field("expiresAt", None, Some(7)),
                field("accessToken", Some("right"), None),
            ]),
        },
    ];
    let no_object = vec![JsonMember {
        name: "claudeAiOauth".to_string(),
        fields: None,
    }];
    assert!(credentials_from_members(&no_object, windows()).is_none());
    let creds = credentials_from_members(&members, windows()).unwrap();
    assert_eq!(creds.access_token, "right");
    assert_eq!(creds.expires_at, Some(7));
    assert!(matches!(creds.source, CredentialSource::Windows(_)));
}

#[test]
fn links_are_not_followed() {
    let seen = |file_is_link, dir_is_link| {
        read_windows_credentials(WindowsFile::Seen {
            file_is_link,
            dir_is_link,
        })
    };
    assert_eq!(seen(false, false), WindowsReadStep::Read);
    assert_eq!(seen(true, false), WindowsReadStep::Refuse);
    assert_eq!(seen(false, true), WindowsReadStep::Refuse);
    assert_eq!(
        read_windows_credentials(WindowsFile::Unseen),
        WindowsReadStep::CheckLinks
    );
    assert_eq!(
        read_windows_credentials(WindowsFile::NoHome),
        WindowsReadStep::Nothing
    );
}

#[test]
fn credentials_are_read_from_their_source() {
    let json = r#"{"claudeAiOauth":{"accessToken":"abc"}}"#;
    let creds = read_file_credentials("C:\\x", Some(json)).unwrap();
    assert!(matches!(&creds.source, CredentialSource::Windows(p) if p == "C:\\x"));
    assert!(read_file_credentials("C:\\x", None).is_none());

    let output = Some((true, json.as_bytes().to_vec()));
    let creds = read_wsl_credentials("Ubuntu", output.clone()).unwrap();
    assert!(matches!(&creds.source, CredentialSource::Wsl { distro } if distro == "Ubuntu"));
    assert!(read_wsl_credentials("Ubuntu", Some((false, json.as_bytes().to_vec()))).is_none());
    assert!(read_wsl_credentials("Ubuntu", None).is_none());
    let mut broken = json.as_bytes().to_vec();
    broken.push(0xFF);
    assert!(read_wsl_credentials("Ubuntu", Some((true, broken))).is_none());

    assert!(read_credentials_from_source(&creds.source, SourceContent::Printed(output)).is_some());
    let file = SourceContent::File(Some(json.to_string()));
    assert!(read_credentials_from_source(&windows(), file).is_some());
    assert!(read_credentials_from_source(&windows(), SourceContent::File(None)).is_none());
}

#[test]
fn codex_tokens_must_not_be_empty() {
    let tokens = |token: &str| {
        Some(CodexTokenData {
            access_token: token.to_string(),
            account_id: None,
        })
    };
    assert!(read_codex_credentials(tokens("t")).is_some());
    assert!(read_codex_credentials(tokens("")).is_none());
    assert!(read_codex_credentials(None).is_none());
}

#[test]
fn known_sources_start_with_windows() {
    let distros = vec!["A".to_string(), "B".to_string()];
    let sources = all_known_credential_sources(Some("p"), &distros);
    assert_eq!(sources.len(), 3);
    assert!(matches!(&sources[0], CredentialSource::Windows(p) if p == "p"));
    assert!(matches!(&sources[2], CredentialSource::Wsl { distro } if distro == "B"));
    assert_eq!(all_known_credential_sources(None, &distros).len(), 2);
}

#[test]
fn watched_sources_depend_on_the_mode() {
    let active = CredentialWatchMode::ActiveSource;
    assert_eq!(watched_sources(active, None), WatchStep::FindFirst);
    assert_eq!(watched_sources(active, Some(true)), WatchStep::WatchActive);
    assert_eq!(watched_sources(active, Some(false)), WatchStep::WatchAll);
    assert_eq!(
        watched_sources(CredentialWatchMode::AllSources, None),
        WatchStep::WatchAll
    );
}

#[test]
fn signatures_show_the_state_of_a_source() {
    let state = FileState {
        len: 120,
        modified_secs: Some(1_700_000_000),
    };
    assert_eq!(
        windows_credential_watch_signature("C:\\x", Some(state)),
        "win:C:\\x|present|120|1700000000"
    );
    let undated = FileState {
        modified_secs: None,
        ..state
    };
    assert_eq!(
        windows_credential_watch_signature("C:\\x", Some(undated)),
        "win:C:\\x|present|120|0"
    );
    assert_eq!(
        windows_credential_watch_signature("C:\\x", None),
        "win:C:\\x|missing"
    );
    assert_eq!(
        wsl_credential_watch_signature(
            "Ubuntu",
            Some(WatchOutput::Printed(b" present|5|6\n".to_vec()))
        ),
        Some("wsl:Ubuntu|present|5|6".to_string())
    );
    assert_eq!(
        wsl_credential_watch_signature(
            "Ubuntu",
            Some(WatchOutput::Failed("exit code: 1".to_string()))
        ),
        Some("wsl:Ubuntu|status-exit code: 1".to_string())
    );
    assert_eq!(wsl_credential_watch_signature("Ubuntu", None), None);
    assert_eq!(
        credential_watch_signature(&windows(), SeenState::File(None)),
        Some("win:C:\\creds.json|missing".to_string())
    );
    let wsl = CredentialSource::Wsl {
        distro: "D".to_string(),
    };
    assert_eq!(
        credential_watch_signature(&wsl, SeenState::Command(None)),
        None
    );
}

#[test]
fn snapshots_are_sorted_and_hold_nothing_twice() {
    let s = |t: &str| Some(t.to_string());
    let snapshot = credential_watch_snapshot(&vec![
        s("wsl:b|x"),
        None,
        s("win:c|y"),
        s("wsl:b|x"),
        s("wsl:B|x"),
        s("wsl:\u{e9}|x"),
    ]);
    let mut expected = vec!["wsl:b|x", "win:c|y", "wsl:B|x", "wsl:\u{e9}|x"];
    expected.sort();
    assert_eq!(snapshot, expected);
    let other = credential_watch_snapshot(&vec![
        s("wsl:\u{e9}|x"),
        s("wsl:B|x"),
        s("wsl:b|x"),
        s("win:c|y"),
    ]);
    assert_eq!(snapshot, other);
}

#[test]
fn locations_of_files() {
    let l = windows_credential_location("tool", true).unwrap();
    assert_eq!(l.base, BaseDir::Home);
    assert_eq!(l.parts, vec![".tool", ".credentials.json"]);
    assert!(windows_credential_location("tool", false).is_none());

    let l = codex_auth_path(true, false).unwrap();
    assert_eq!((l.base, l.parts), (BaseDir::CodexHome, vec!["auth.json".to_string()]));
    let l = codex_auth_path(false, true).unwrap();
    assert_eq!(l.base, BaseDir::Home);
    assert_eq!(l.parts, vec![".codex", "auth.json"]);
    assert!(codex_auth_path(false, false).is_none());

    assert_eq!(log_location("tool", true).base, BaseDir::LocalAppData);
    assert_eq!(log_location("tool", false).base, BaseDir::Temp);
    assert_eq!(log_location("tool", false).parts, vec!["tool-code-usage-monitor.log"]);
}
