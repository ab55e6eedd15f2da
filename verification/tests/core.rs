use vintage::composition::Composition;
use vintage::focus::FocusReporter;
use vintage::mouse::{Button, Encoding, MouseAction, MouseMode, Tracking};
use vintage::workspace::{Axis, Layout, PaneKind, Workspaces, MAX_DEPTH, MAX_PANES};
use vintage::{encode_key, encode_paste, Modifiers, SessionId, TerminalSize, MAX_INPUT_BYTES};

#[test]
fn preedit_replacement_and_utf16_selection() {
    let mut composition = Composition::default();
    composition.replace(None, "に🙂ご", Some(1..3)).unwrap();
    assert_eq!(composition.selection(), 1..3);
    assert_eq!(composition.text_for_range(1..3).as_deref(), Some("🙂"));
    composition.replace(Some(1..3), "ほん", Some(2..2)).unwrap();
    assert_eq!(composition.text(), "にほんご");
    assert_eq!(composition.selection(), 3..3);
    composition.replace(None, "日本語", None).unwrap();
    assert_eq!(composition.text().as_bytes(), "日本語".as_bytes());
    composition.clear();
    assert_eq!(composition.marked_range(), None);
    assert_eq!(composition.selection(), 0..0);
}

#[test]
fn invalid_or_oversized_composition_does_not_mutate_text() {
    let mut composition = Composition::default();
    composition.replace(None, "🙂", None).unwrap();
    assert!(composition.replace(Some(1..2), "x", None).is_err());
    assert!(composition.replace(None, "x", Some(0..usize::MAX)).is_err());
    assert!(composition
        .replace(None, &"x".repeat(MAX_INPUT_BYTES + 1), None)
        .is_err());
    assert_eq!(composition.text(), "🙂");
}

#[test]
fn reports_only_when_requested_and_focus_changes() {
    let mut reporter = FocusReporter::default();
    assert_eq!(reporter.pending(false, true), None);
    assert_eq!(reporter.pending(true, true), Some(b"\x1b[I".as_slice()));
    reporter.acknowledge(true);
    assert_eq!(reporter.pending(true, true), None);
    assert_eq!(reporter.pending(true, false), Some(b"\x1b[O".as_slice()));
    reporter.acknowledge(false);
    assert_eq!(reporter.pending(true, false), None);
    assert_eq!(reporter.pending(true, true), Some(b"\x1b[I".as_slice()));
}

#[test]
fn reenable_synchronizes_even_when_focus_did_not_change() {
    let mut reporter = FocusReporter::default();
    reporter.acknowledge(false);
    assert_eq!(reporter.pending(false, false), None);
    assert_eq!(reporter.pending(true, false), Some(b"\x1b[O".as_slice()));
}

#[test]
fn failed_send_retries_current_state_without_stale_events() {
    let mut reporter = FocusReporter::default();
    assert_eq!(reporter.pending(true, false), Some(b"\x1b[O".as_slice()));
    assert_eq!(reporter.pending(true, false), Some(b"\x1b[O".as_slice()));
    assert_eq!(reporter.pending(true, true), Some(b"\x1b[I".as_slice()));
    reporter.acknowledge(true);
    // An unsent blur that was superseded by focus requires no notification.
    assert_eq!(reporter.pending(true, false), Some(b"\x1b[O".as_slice()));
    assert_eq!(reporter.pending(true, true), None);
}

#[test]
fn rejects_invalid_session_and_dimensions() {
    assert!(SessionId::new("../bad", "p", 1).is_err());
    assert!(SessionId::new("t", "p", 0).is_err());
    assert!(TerminalSize::new(0, 24).is_err());
    assert!(TerminalSize::new(501, 24).is_err());
    assert!(TerminalSize::new(80, 24).is_ok());
}

#[test]
fn text_is_reserved_for_ime_and_control_keys_are_encoded() {
    assert_eq!(encode_key("a", Modifiers::default(), false), None);
    assert_eq!(
        encode_key(
            "c",
            Modifiers {
                control: true,
                ..Default::default()
            },
            false
        ),
        Some(vec![3])
    );
    assert_eq!(
        encode_key("up", Modifiers::default(), true),
        Some(b"\x1bOA".to_vec())
    );
    assert_eq!(
        encode_key(
            "left",
            Modifiers {
                control: true,
                ..Default::default()
            },
            false
        ),
        Some(b"\x1b[1;5D".to_vec())
    );
}

#[test]
fn paste_cannot_inject_end_marker() {
    assert_eq!(
        encode_paste("a\r\nb\x1b[201~", true).unwrap(),
        b"\x1b[200~a\rb[201~\x1b[201~"
    );
    assert!(encode_paste(&"x".repeat(MAX_INPUT_BYTES), false).is_err());
}

fn mode(tracking: Tracking, encoding: Encoding) -> MouseMode {
    MouseMode { tracking, encoding }
}

#[test]
fn sgr_buttons_release_and_modifiers() {
    let mode = mode(Tracking::Click, Encoding::Sgr);
    for (button, code) in [(Button::Left, 0), (Button::Middle, 1), (Button::Right, 2)] {
        for (action, suffix) in [
            (MouseAction::Press(button), 'M'),
            (MouseAction::Release(button), 'm'),
        ] {
            assert_eq!(
                mode.encode(
                    action,
                    (499, 299),
                    Modifiers {
                        control: true,
                        alt: true,
                        shift: false
                    }
                ),
                Some(format!("\x1b[<{};500;300{suffix}", code + 24).into_bytes())
            );
        }
    }
}

#[test]
fn motion_requires_requested_tracking() {
    for tracking in [
        Tracking::Off,
        Tracking::Click,
        Tracking::Drag,
        Tracking::Motion,
    ] {
        let mode = mode(tracking, Encoding::Sgr);
        assert_eq!(
            mode.encode(
                MouseAction::Move(Some(Button::Left)),
                (1, 2),
                Modifiers::default()
            ),
            matches!(tracking, Tracking::Drag | Tracking::Motion)
                .then(|| b"\x1b[<32;2;3M".to_vec())
        );
        assert_eq!(
            mode.encode(MouseAction::Move(None), (1, 2), Modifiers::default()),
            (tracking == Tracking::Motion).then(|| b"\x1b[<35;2;3M".to_vec())
        );
    }
    assert!(MouseMode::default()
        .encode(
            MouseAction::Press(Button::Left),
            (0, 0),
            Modifiers::default()
        )
        .is_none());
}

#[test]
fn legacy_release_keeps_modifiers_and_coordinates_do_not_wrap() {
    let mode = mode(Tracking::Click, Encoding::Legacy);
    assert_eq!(
        mode.encode(
            MouseAction::Release(Button::Right),
            (222, 222),
            Modifiers {
                control: true,
                ..Default::default()
            }
        ),
        Some(vec![27, b'[', b'M', 51, 255, 255])
    );
    assert!(mode
        .encode(
            MouseAction::Press(Button::Left),
            (223, 0),
            Modifiers::default()
        )
        .is_none());
    assert!(mode
        .encode(
            MouseAction::Press(Button::Left),
            (0, usize::MAX),
            Modifiers::default()
        )
        .is_none());
}

#[test]
fn utf8_coordinates_and_wheel() {
    let mode = mode(Tracking::Click, Encoding::Utf8);
    assert_eq!(
        mode.encode(
            MouseAction::Wheel { up: true },
            (300, 0),
            Modifiers::default()
        ),
        Some("\x1b[M`ō!".as_bytes().to_vec())
    );
    assert_eq!(
        mode.encode(
            MouseAction::Wheel { up: false },
            (0, 0),
            Modifiers::default()
        ),
        Some(b"\x1b[Ma!!".to_vec())
    );
    assert!(mode
        .encode(
            MouseAction::Press(Button::Left),
            (2014, 2014),
            Modifiers::default()
        )
        .is_some());
    assert!(mode
        .encode(
            MouseAction::Press(Button::Left),
            (0, 2015),
            Modifiers::default()
        )
        .is_none());
    assert!(MouseMode {
        tracking: Tracking::Click,
        encoding: Encoding::Sgr
    }
    .encode(
        MouseAction::Press(Button::Left),
        (usize::MAX, 0),
        Modifiers::default()
    )
    .is_none());
}

#[test]
fn navigation_wraps_and_preserves_inactive_panes() {
    let mut s = Workspaces::default();
    s.navigate(0);
    s.navigate(5);
    let a = s.add_workspace("/a".into()).unwrap();
    let first = s.tab().unwrap().active_pane;
    let second = s.split(Axis::Horizontal).unwrap();
    s.navigate(3);
    assert_eq!(s.tab().unwrap().active_pane, first);
    s.navigate(2);
    assert_eq!(s.tab().unwrap().active_pane, second);
    let tab = s.tab().unwrap().id;
    s.add_tab().unwrap();
    s.navigate(1);
    assert_eq!(s.tab().unwrap().id, tab);
    let b = s.add_workspace("/b".into()).unwrap();
    s.navigate(5);
    assert_eq!(s.active, Some(a));
    s.navigate(4);
    assert_eq!(s.active, Some(b));
    assert_eq!(s.pane_count(), 4);
}

fn selection(s: &Workspaces) -> (Option<u64>, Vec<(Option<u64>, Vec<u64>)>) {
    let items = s
        .items
        .iter()
        .map(|w| (w.active_tab, w.tabs.iter().map(|t| t.active_pane).collect()))
        .collect();
    (s.active, items)
}

fn assert_structure(s: &Workspaces) {
    let mut seen = Vec::new();
    for (x, w) in s.items.iter().enumerate() {
        assert!(s.items[..x].iter().all(|v| v.id != w.id));
        for (y, t) in w.tabs.iter().enumerate() {
            assert!(w.tabs[..y].iter().all(|u| u.id != t.id));
            let panes = t.layout.panes();
            assert!(panes.contains(&t.active_pane));
            for p in panes {
                assert!(!seen.contains(&p));
                seen.push(p);
            }
        }
        match w.active_tab {
            None => assert!(w.tabs.is_empty()),
            Some(id) => assert!(w.tabs.iter().any(|t| t.id == id)),
        }
    }
    match s.active {
        None => assert!(s.items.is_empty()),
        Some(id) => assert!(s.items.iter().any(|w| w.id == id)),
    }
}

#[test]
fn stepping_back_then_forward_restores_the_selection() {
    let mut s = Workspaces::default();
    s.add_workspace("/a".into()).unwrap();
    s.split(Axis::Horizontal).unwrap();
    s.split(Axis::Vertical).unwrap();
    s.add_tab().unwrap();
    s.add_tab().unwrap();
    s.add_workspace("/b".into()).unwrap();
    s.add_workspace("/c".into()).unwrap();
    s.navigate(4);
    s.navigate(4);
    s.navigate(0);
    s.navigate(3);
    for k in 0..3 {
        let before = selection(&s);
        s.navigate(2 * k);
        s.navigate(2 * k + 1);
        assert_eq!(selection(&s), before);
    }
    let before = selection(&s);
    s.navigate(6);
    s.navigate(99);
    assert_eq!(selection(&s), before);
}

#[test]
fn every_operation_keeps_identifiers_distinct_and_the_selection_valid() {
    let mut s = Workspaces::default();
    assert_structure(&s);
    let a = s.add_workspace("/a".into()).unwrap();
    assert_structure(&s);
    let p = s.split(Axis::Horizontal).unwrap();
    s.open_file_pane("notes.md").unwrap();
    assert_structure(&s);
    let tab_pane = s.add_tab().unwrap();
    s.add_workspace("/b".into()).unwrap();
    s.add_tab().unwrap();
    assert_structure(&s);
    s.activate(a, None);
    s.focus(p);
    s.navigate(3);
    assert_structure(&s);
    let owner = s.pane_location(p).unwrap().1;
    s.close_tab(owner);
    assert_structure(&s);
    s.close_pane(tab_pane);
    assert_structure(&s);
    let b = s.items[1].id;
    s.close_workspace(b);
    assert_structure(&s);
    s.close_workspace(a);
    assert_structure(&s);
    assert!(s.items.is_empty());
    assert!(s.active.is_none());
}

#[test]
fn pane_location_finds_inactive_tabs_and_workspaces() {
    let mut state = Workspaces::default();
    let first_workspace = state.add_workspace("/a".into()).unwrap();
    let first_tab = state.tab().unwrap().id;
    let first_pane = state.tab().unwrap().active_pane;
    let second_workspace = state.add_workspace("/b".into()).unwrap();
    let second_tab = state.tab().unwrap().id;
    let second_pane = state.tab().unwrap().active_pane;

    assert_eq!(
        state.pane_location(first_pane),
        Some((first_workspace, first_tab))
    );
    assert_eq!(
        state.pane_location(second_pane),
        Some((second_workspace, second_tab))
    );
    assert_eq!(state.pane_location(999), None);
}

#[test]
fn recursive_splits_collapse_and_last_close_leaves_empty_workspace() {
    let mut state = Workspaces::default();
    state.add_workspace("/a".into()).unwrap();
    let first = state.tab().unwrap().active_pane;
    let second = state.split(Axis::Horizontal).unwrap();
    let third = state.split(Axis::Vertical).unwrap();
    assert_eq!(
        state.tab().unwrap().layout.panes(),
        vec![first, second, third]
    );
    assert_eq!(state.close_pane(second), vec![second]);
    assert_eq!(
        state.tab().unwrap().layout,
        Layout::Split {
            axis: Axis::Horizontal,
            first: Box::new(Layout::Pane {
                id: first,
                kind: PaneKind::Terminal
            }),
            second: Box::new(Layout::Pane {
                id: third,
                kind: PaneKind::Terminal
            })
        }
    );
    state.close_pane(third);
    assert_eq!(state.tab().unwrap().active_pane, first);
    state.close_pane(first);
    assert!(state.tab().is_none());
    assert!(state.current().is_some());
    state.add_tab().unwrap();
    assert_eq!(state.pane_count(), 1);
}

#[test]
fn file_panes_split_beside_the_active_pane_and_dedupe_by_path() {
    let mut state = Workspaces::default();
    state.add_workspace("/a".into()).unwrap();
    let terminal = state.tab().unwrap().active_pane;
    let viewer = state.open_file_pane("docs/plan.md").unwrap();
    assert_eq!(state.tab().unwrap().active_pane, viewer);
    assert_eq!(state.open_file_pane("docs/plan.md").unwrap(), viewer);
    assert_eq!(state.pane_count(), 2);
    let other = state.split(Axis::Horizontal).unwrap();
    assert_eq!(
        state.tab().unwrap().layout.panes_with_kinds(),
        vec![
            (terminal, PaneKind::Terminal),
            (
                viewer,
                PaneKind::File {
                    path: "docs/plan.md".into()
                }
            ),
            (other, PaneKind::Terminal),
        ]
    );
    state.close_pane(viewer);
    assert_eq!(
        state.tab().unwrap().layout.panes_with_kinds(),
        vec![(terminal, PaneKind::Terminal), (other, PaneKind::Terminal)]
    );
}

#[test]
fn file_pane_paths_are_validated_before_layout_changes() {
    let mut state = Workspaces::default();
    state.add_workspace("/a".into()).unwrap();
    for path in ["", "/abs", "../up", "a/./b", "a//b", "C:\\temp", "a\0b"] {
        assert!(state.open_file_pane(path).is_err(), "{path}");
    }
    assert_eq!(state.pane_count(), 1);
    assert!(state.open_file_pane("ok.txt").is_ok());
}

#[test]
fn switching_preserves_tabs_and_close_returns_only_owned_panes() {
    let mut s = Workspaces::default();
    let a = s.add_workspace("/a".into()).unwrap();
    let tab = s.tab().unwrap().id;
    let pane = s.tab().unwrap().active_pane;
    let other = s.add_tab().unwrap();
    let b = s.add_workspace("/b".into()).unwrap();
    let b_pane = s.tab().unwrap().active_pane;
    s.activate(a, Some(tab));
    assert_eq!(s.tab().unwrap().active_pane, pane);
    assert_eq!(s.close_tab(tab), vec![pane]);
    assert_eq!(s.tab().unwrap().active_pane, other);
    assert_eq!(s.close_workspace(a), vec![other]);
    assert_eq!(s.active, Some(b));
    assert_eq!(s.tab().unwrap().active_pane, b_pane);
    assert_eq!(s.add_workspace("/b".into()).unwrap(), b);
    assert_eq!(s.pane_count(), 1);
}

#[test]
fn limits_and_unknown_ids_do_not_corrupt_layout() {
    let mut s = Workspaces::default();
    s.add_workspace("/a".into()).unwrap();
    for _ in 0..MAX_DEPTH {
        s.split(Axis::Horizontal).unwrap();
    }
    let before = s.tab().unwrap().layout.clone();
    assert!(s.split(Axis::Vertical).is_err());
    assert_eq!(s.tab().unwrap().layout, before);
    assert!(s.close_pane(999).is_empty());
    while s.pane_count() < MAX_PANES {
        s.add_tab().unwrap();
    }
    assert!(s.add_tab().is_err());
    assert!(s.open_file_pane("x").is_err());
    assert!(s.add_workspace("/b".into()).is_err());
    assert_eq!(s.items.len(), 1);
}

#[test]
fn open_file_pane_focuses_existing_viewer_at_the_pane_limit() {
    let mut s = Workspaces::default();
    s.add_workspace("/a".into()).unwrap();
    while s.pane_count() < MAX_PANES - 1 {
        s.add_tab().unwrap();
    }
    let terminal = s.tab().unwrap().active_pane;
    let viewer = s.open_file_pane("notes.md").unwrap();
    assert_eq!(s.pane_count(), MAX_PANES);
    s.focus(terminal);
    assert_eq!(s.tab().unwrap().active_pane, terminal);
    assert_eq!(s.open_file_pane("notes.md"), Ok(viewer));
    assert_eq!(s.tab().unwrap().active_pane, viewer);
    assert_eq!(s.pane_count(), MAX_PANES);
    assert_eq!(s.open_file_pane("other.md"), Err("Pane limit reached (64)"));
}

#[test]
fn add_workspace_compares_roots_by_components() {
    let mut s = Workspaces::default();
    let a = s.add_workspace("/a".into()).unwrap();
    let b = s.add_workspace("/a/b".into()).unwrap();
    assert_ne!(a, b);
    assert_eq!(s.add_workspace("/a/".into()), Ok(a));
    assert_eq!(s.current().unwrap().id, a);
    assert_eq!(s.add_workspace("/a//b".into()), Ok(b));
    assert_eq!(s.add_workspace("/a/./b/.".into()), Ok(b));
    assert_eq!(s.add_workspace("//a".into()), Ok(a));
    assert_eq!(s.items.len(), 2);
    assert_eq!(s.items[0].root, "/a");
    let rel = s.add_workspace("./a".into()).unwrap();
    assert_ne!(rel, a);
    let plain = s.add_workspace("a".into()).unwrap();
    assert_ne!(plain, rel);
    assert_eq!(s.add_workspace("a/.".into()), Ok(plain));
    assert_eq!(s.add_workspace(".//a/".into()), Ok(rel));
    assert_eq!(s.items.len(), 4);
}

#[test]
fn tab_names_are_validated_and_renamed_in_the_current_workspace() {
    let mut state = Workspaces::default();
    state.add_workspace("/a".into()).unwrap();
    let tab = state.tab().unwrap().id;
    assert!(state.rename_tab(tab, "  Build  ".into()).is_ok());
    assert_eq!(state.tab().unwrap().title, "Build");
    assert!(state.rename_tab(tab, " ".into()).is_err());
    assert!(state.rename_tab(tab, "x".repeat(81)).is_err());
    assert!(state.rename_tab(999, "Missing".into()).is_err());
}
