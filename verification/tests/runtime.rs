use vintage::files::{
    check_relative, classify, entry_path, extension_of, image_dimensions, listing, text_content,
    Content, Entry, ImageKind, WorkspaceFiles, MAX_TEXT_BYTES,
};
use vintage::hook::{accept_report, check_report_size, child_env, token_hex, HookReport};
use vintage::session::{accept_session, check_start, check_write, launch_env, pane_session_id};
use vintage::updates::{Poll, WakeState};
use vintage::{SessionId, TerminalSize};

#[test]
fn image_headers_are_bounded_and_malformed_data_is_rejected() {
    let mut png = b"\x89PNG\r\n\x1a\n\0\0\0\rIHDR".to_vec();
    png.extend(2u32.to_be_bytes());
    png.extend(3u32.to_be_bytes());
    assert_eq!(image_dimensions(&png), Some((ImageKind::Png, 2, 3)));
    assert!(image_dimensions(&[0xff, 0xd8, 0xff, 0xc0, 0, 1]).is_none());
    png[16..20].copy_from_slice(&100000u32.to_be_bytes());
    assert!(matches!(classify("png", png), Content::Unsupported(_)));
}

#[test]
fn jpeg_frames_give_their_size() {
    let jpeg = [
        0xff, 0xd8, 0xff, 0xff, 0xe0, 0, 4, 1, 2, 0xff, 0xd0, 0xff, 0xc2, 0, 8, 8, 0, 20, 0, 30, 3,
    ];
    assert_eq!(image_dimensions(&jpeg), Some((ImageKind::Jpeg, 30, 20)));
    assert!(image_dimensions(&[0xff, 0xd8, 0xff, 0xd9]).is_none());
    assert!(image_dimensions(&[0xff, 0xd8, 0x00]).is_none());
    assert!(image_dimensions(&[0xff, 0xd8, 0xff, 0xc0, 0, 1, 0]).is_none());
    match classify("JPG", jpeg.to_vec()) {
        Content::Unsupported(_) => {}
        _ => panic!("uppercase extensions are lowered by extension_of, not by classify"),
    }
    assert!(matches!(classify("jpg", jpeg.to_vec()), Content::Image { kind: ImageKind::Jpeg, .. }));
}

#[test]
fn request_paths_are_normalized_and_scoped() {
    for path in ["../outside", "/etc/passwd", "a/../z.md", "a//b", "a/./b", "C:\\outside", "\\\\host\\share"] {
        assert!(check_relative(path).is_err(), "{path}");
    }
    assert!(check_relative("").is_ok());
    assert!(check_relative("docs/a.md").is_ok());
    assert_eq!(check_relative(&"a".repeat(8193)), Err("The file path is too long"));
    let files = WorkspaceFiles::register(1, std::path::PathBuf::from("/w")).unwrap();
    assert!(WorkspaceFiles::register(0, std::path::PathBuf::from("/w")).is_err());
    assert!(files.check_request(1, "z.md").is_ok());
    assert!(files.check_request(2, "z.md").is_err());
    files.revoke();
    assert!(files.authorize(1).is_err());
}

#[test]
fn listings_put_folders_first_then_names() {
    let entry = |name: &str, directory: bool| Entry {
        name: name.into(),
        path: entry_path("", name),
        directory,
        symlink: false,
    };
    let list = listing(
        vec![entry("z.md", false), entry("B", false), entry("a", true), entry("b", false)],
        false,
    );
    let names: Vec<&str> = list.entries.iter().map(|e| e.name.as_str()).collect();
    assert_eq!(names, vec!["a", "B", "b", "z.md"]);
    assert_eq!(entry_path("docs", "a.md"), "docs/a.md");
}

#[test]
fn previews_classify_text_binary_and_cut_characters() {
    assert_eq!(extension_of("docs/README.MD"), "md");
    assert_eq!(extension_of(".bashrc"), "");
    assert_eq!(extension_of("a/b.tar.GZ"), "gz");
    let mut text = "x".repeat(MAX_TEXT_BYTES - 1);
    text.push_str("日本語");
    match classify("txt", text.into_bytes()) {
        Content::Text { text, truncated, markdown } => {
            assert!(truncated);
            assert!(!markdown);
            assert_eq!(text.len(), MAX_TEXT_BYTES - 1);
        }
        _ => panic!("text expected"),
    }
    assert!(matches!(classify("txt", vec![0, 1, 2]), Content::Unsupported(_)));
    assert!(matches!(classify("txt", vec![0xff, 0x41]), Content::Unsupported(_)));
    assert!(matches!(classify("md", b"# t".to_vec()), Content::Text { markdown: true, .. }));
    assert!(matches!(classify("txt", Vec::new()), Content::Text { text, .. } if text.is_empty()));
}

#[test]
fn only_a_character_cut_by_the_limit_is_dropped() {
    let cut = |bytes: &[u8], truncated: bool| match text_content(bytes.to_vec(), truncated, false) {
        Content::Text { text, truncated: t, .. } => {
            assert_eq!(t, truncated);
            Some(text)
        }
        Content::Unsupported(m) => {
            assert_eq!(m, "This file is not UTF-8 text; binary preview is unavailable");
            None
        }
        Content::Image { .. } => panic!("text or refusal expected"),
    };
    assert_eq!(cut(b"a\xe2\x82", true), Some("a".to_string()));
    assert_eq!(cut(b"a\xf0\x9f\x98", true), Some("a".to_string()));
    assert_eq!(cut(b"a\xc3", true), Some("a".to_string()));
    assert_eq!(cut(b"a\xe2\x82", false), None);
    assert_eq!(cut(b"a\xe2\x41", true), None);
    assert_eq!(cut(b"a\xe0\x80", true), None);
    assert_eq!(cut(b"a\xf4\x90", true), None);
    assert_eq!(cut(b"a\x80", true), None);
    assert_eq!(cut(b"a\xe2\x82\xac", true), Some("a\u{20ac}".to_string()));
    let mut bytes = "x".repeat(MAX_TEXT_BYTES - 2).into_bytes();
    bytes.extend_from_slice("\u{20ac}".as_bytes());
    match classify("md", bytes) {
        Content::Text { text, truncated, markdown } => {
            assert!(truncated);
            assert!(markdown);
            assert_eq!(text, "x".repeat(MAX_TEXT_BYTES - 2));
        }
        _ => panic!("text expected"),
    }
}

#[test]
fn child_environment_has_fresh_private_connection_data() {
    let values: std::collections::BTreeMap<_, _> =
        child_env(40123, &[0xa5; 32], 7, 1, "opencode").into_iter().collect();
    assert_eq!(values.get("VINTAGE_PANE_ID").map(String::as_str), Some("pane-7"));
    assert_eq!(values.get("VINTAGE_GENERATION").map(String::as_str), Some("1"));
    assert_eq!(values.get("VINTAGE_AGENT").map(String::as_str), Some("opencode"));
    assert_eq!(values.get("VINTAGE_HOOK_TOKEN").map(String::len), Some(64));
    assert_eq!(values.get("VINTAGE_HOOK_PORT").map(String::as_str), Some("40123"));
}

#[test]
fn token_text_is_lowercase_hex() {
    assert_eq!(token_hex(&[0x00, 0x0f, 0xa0, 0xff]), "000fa0ff");
    assert_eq!(token_hex(&[]), "");
}

fn report(pane: &str, token: Option<&str>) -> HookReport {
    HookReport {
        pane_id: pane.into(),
        generation: 1,
        agent: "opencode".into(),
        state: Some("working".into()),
        session_id: Some("s".into()),
        auth_token: token.map(Into::into),
    }
}

#[test]
fn reports_need_the_token_an_active_pane_and_valid_fields() {
    let activity = accept_report(report("pane-7", Some("secret")), "secret", &[7]).unwrap();
    assert_eq!(activity.pane, 7);
    assert_eq!(activity.agent.as_deref(), Some("opencode"));
    assert_eq!(
        accept_report(report("pane-7", Some("other")), "secret", &[7]).unwrap_err(),
        "Hook IPC report has an invalid token."
    );
    assert_eq!(
        accept_report(report("pane-7", None), "secret", &[7]).unwrap_err(),
        "Hook IPC report has an invalid token."
    );
    assert_eq!(
        accept_report(report("pane-x", Some("secret")), "secret", &[7]).unwrap_err(),
        "Hook IPC report has an invalid pane reference."
    );
    assert_eq!(
        accept_report(report("pane-99999999999999999999", Some("secret")), "secret", &[7]).unwrap_err(),
        "Hook IPC report has an invalid pane reference."
    );
    assert_eq!(
        accept_report(report("pane-8", Some("secret")), "secret", &[7]).unwrap_err(),
        "Hook IPC report has invalid fields."
    );
    assert_eq!(accept_report(report("pane-+7", Some("secret")), "secret", &[7]).unwrap().pane, 7);
    let mut bad = report("pane-7", Some("secret"));
    bad.state = Some("sleeping".into());
    assert_eq!(
        accept_report(bad, "secret", &[7]).unwrap_err(),
        "Hook IPC report has an invalid state."
    );
    let mut anonymous = report("pane-7", Some("secret"));
    anonymous.agent = String::new();
    assert_eq!(accept_report(anonymous, "secret", &[7]).unwrap().agent, None);
    assert!(check_report_size(0).is_err());
    assert!(check_report_size(16 * 1024).is_ok());
    assert!(check_report_size(16 * 1024 + 1).is_err());
}

#[test]
fn idle_wait_does_not_wake_and_burst_coalesces() {
    let mut state = WakeState::new();
    assert_eq!(state.poll(), Poll::Pending);
    let mut wakes = 0;
    for _ in 0..10_000 {
        if state.notify() {
            wakes += 1;
        }
    }
    assert_eq!(wakes, 1);
    assert_eq!(state.poll(), Poll::Changed);
}

#[test]
fn notification_before_wait_and_close_preserve_final_refresh() {
    let mut state = WakeState::new();
    state.notify();
    state.close();
    assert_eq!(state.poll(), Poll::Changed);
    assert_eq!(state.poll(), Poll::Closed);
}

#[test]
fn close_wakes_waiter_and_receiver_drop_releases_waker() {
    let mut state = WakeState::new();
    assert_eq!(state.poll(), Poll::Pending);
    assert!(state.close());
    assert_eq!(state.poll(), Poll::Closed);
    let mut state = WakeState::new();
    assert_eq!(state.poll(), Poll::Pending);
    state.release();
    assert!(!state.waiting);
    assert!(!state.notify());
}

#[test]
fn session_requests_are_checked_before_use() {
    let id = SessionId::new("t", "p", 1).unwrap();
    let size = TerminalSize::new(80, 24).unwrap();
    assert!(check_start(&id, size, 1000).is_ok());
    assert_eq!(check_start(&id, size, 999), Err("Unsupported scrollback capacity"));
    let other = SessionId::new("t", "p", 2).unwrap();
    assert_eq!(check_write(&id, &other, 1, false), Err("Stale terminal session"));
    assert_eq!(check_write(&id, &id, 64 * 1024 + 1, false), Err("Terminal input exceeds the size limit"));
    assert_eq!(check_write(&id, &id, 1, true), Err("The terminal session has ended"));
    assert!(check_write(&id, &id, 1, false).is_ok());
    assert!(accept_session(false, false, 63).is_ok());
    assert!(accept_session(false, false, 64).is_err());
    assert!(accept_session(false, true, 64).is_ok());
    assert!(accept_session(true, true, 0).is_err());
    let pane = pane_session_id(12);
    assert_eq!((pane.terminal.as_str(), pane.pane.as_str(), pane.generation), ("terminal-12", "pane-12", 1));
    let env = launch_env(vec![("A".into(), "1".into())], vec![("B".into(), "2".into())]);
    assert_eq!(env[0], ("TERM".into(), "xterm-256color".into()));
    assert_eq!(env[2], ("A".into(), "1".into()));
    assert_eq!(env[3], ("B".into(), "2".into()));
}
