use vintage::activity::{activity_color, activity_mark, PaneActivity};
use vintage::input::{
    ascii_lowercase, route_settings_key, route_terminal_key, route_workspace_key, KeyModifiers,
    SettingsKey, TerminalKey, WorkspaceKey,
};
use vintage::settings::{default_bindings, Binding};
use vintage::sync::plan_sessions;
use vintage::workspace::{Axis, Workspaces};

fn mods(control: bool, alt: bool, shift: bool, platform: bool) -> KeyModifiers {
    KeyModifiers { control, alt, shift, platform }
}

fn none() -> KeyModifiers {
    KeyModifiers::default()
}

#[test]
fn lowercase_touches_ascii_letters_only() {
    assert_eq!(ascii_lowercase("PageUp"), "pageup");
    assert_eq!(ascii_lowercase("ÄB1"), "Äb1");
}

#[test]
fn open_settings_view_takes_every_workspace_key() {
    let bindings = default_bindings();
    assert_eq!(
        route_workspace_key(true, false, ",", mods(true, false, false, false), &bindings),
        WorkspaceKey::Ignore
    );
}

#[test]
fn renaming_takes_enter_and_escape() {
    let bindings = default_bindings();
    assert_eq!(route_workspace_key(false, true, "Enter", none(), &bindings), WorkspaceKey::CommitRename);
    assert_eq!(route_workspace_key(false, true, "return", none(), &bindings), WorkspaceKey::CommitRename);
    assert_eq!(route_workspace_key(false, true, "escape", none(), &bindings), WorkspaceKey::CancelRename);
    assert_eq!(route_workspace_key(false, true, "a", none(), &bindings), WorkspaceKey::Ignore);
}

#[test]
fn workspace_shortcuts_and_fixed_chords() {
    let bindings = vec![Binding { key: "t".to_string(), ctrl: true, alt: false, shift: true }];
    let cs = mods(true, false, true, false);
    assert_eq!(route_workspace_key(false, false, ",", mods(true, false, false, false), &bindings), WorkspaceKey::ToggleSettings);
    assert_eq!(route_workspace_key(false, false, "T", cs, &bindings), WorkspaceKey::Shortcut(0));
    assert_eq!(route_workspace_key(false, false, "t", mods(true, false, true, true), &bindings), WorkspaceKey::Ignore);
    assert_eq!(route_workspace_key(false, false, "f", cs, &bindings), WorkspaceKey::ToggleFiles);
    assert_eq!(route_workspace_key(false, false, "O", cs, &bindings), WorkspaceKey::OpenWorkspace);
    assert_eq!(route_workspace_key(false, false, "tab", cs, &bindings), WorkspaceKey::NextTab);
    assert_eq!(route_workspace_key(false, false, "f", mods(true, true, true, false), &bindings), WorkspaceKey::Ignore);
    assert_eq!(route_workspace_key(false, false, "x", cs, &bindings), WorkspaceKey::Ignore);
}

#[test]
fn search_field_keys() {
    assert_eq!(route_terminal_key(true, false, "escape", none(), false), TerminalKey::CloseSearch);
    assert_eq!(route_terminal_key(true, false, "enter", none(), false), TerminalKey::SearchNext);
    assert_eq!(route_terminal_key(true, false, "enter", mods(false, false, true, false), false), TerminalKey::SearchPrevious);
    assert_eq!(route_terminal_key(true, false, "v", mods(true, false, true, false), false), TerminalKey::PasteIntoSearch);
    assert_eq!(route_terminal_key(true, false, "a", none(), false), TerminalKey::Ignore);
}

#[test]
fn terminal_pane_keys() {
    let cs = mods(true, false, true, false);
    assert_eq!(route_terminal_key(false, false, "C", cs, false), TerminalKey::Copy);
    assert_eq!(route_terminal_key(false, false, "v", cs, false), TerminalKey::Paste);
    assert_eq!(route_terminal_key(false, false, "0", mods(true, false, false, false), false), TerminalKey::FontReset);
    assert_eq!(route_terminal_key(false, false, "-", mods(true, false, false, false), false), TerminalKey::FontSmaller);
    assert_eq!(route_terminal_key(false, false, "=", mods(true, false, false, false), false), TerminalKey::FontLarger);
    assert_eq!(route_terminal_key(false, false, "pageup", mods(false, false, true, false), false), TerminalKey::Scroll(12));
    assert_eq!(route_terminal_key(false, false, "pagedown", mods(false, false, true, false), false), TerminalKey::Scroll(-12));
    assert_eq!(route_terminal_key(false, true, "a", none(), false), TerminalKey::Ignore);
    assert_eq!(route_terminal_key(false, false, "a", none(), false), TerminalKey::Ignore);
    assert_eq!(route_terminal_key(false, false, "enter", none(), false), TerminalKey::Send(vec![13]));
    assert_eq!(route_terminal_key(false, false, "a", mods(true, false, false, false), false), TerminalKey::Send(vec![1]));
    assert_eq!(route_terminal_key(false, false, "up", none(), true), TerminalKey::Send(b"\x1bOA".to_vec()));
    assert_eq!(route_terminal_key(false, false, "up", none(), false), TerminalKey::Send(b"\x1b[A".to_vec()));
}

#[test]
fn settings_view_keys() {
    let ctrl = mods(true, false, false, false);
    assert!(matches!(route_settings_key(true, None, false, "s", ctrl), SettingsKey::Swallow));
    assert!(matches!(route_settings_key(false, Some(2), false, "Escape", none()), SettingsKey::CancelRecording));
    assert!(matches!(route_settings_key(false, Some(2), false, "shift", none()), SettingsKey::Swallow));
    assert!(matches!(route_settings_key(false, Some(2), false, "k", mods(false, false, false, true)), SettingsKey::RefuseSystemKey));
    match route_settings_key(false, Some(2), false, "K", mods(true, true, false, false)) {
        SettingsKey::Record(2, b) => {
            assert_eq!(b, Binding { key: "k".to_string(), ctrl: true, alt: true, shift: false })
        }
        other => panic!("unexpected {other:?}"),
    }
    assert!(matches!(route_settings_key(false, None, true, "escape", none()), SettingsKey::CloseMenu));
    assert!(matches!(route_settings_key(false, None, false, "escape", none()), SettingsKey::Close));
    assert!(matches!(route_settings_key(false, None, false, "s", ctrl), SettingsKey::Save));
    assert!(matches!(route_settings_key(false, None, false, ",", ctrl), SettingsKey::Close));
    assert!(matches!(route_settings_key(false, None, false, "3", ctrl), SettingsKey::SelectSection(2)));
    assert!(matches!(route_settings_key(false, None, false, "6", ctrl), SettingsKey::Ignore));
    assert!(matches!(route_settings_key(false, None, false, "s", none()), SettingsKey::Ignore));
}

#[test]
fn blocked_pane_raises_and_clears_notice() {
    let mut a = PaneActivity::new();
    a.report(3, Some("blocked"), true, true);
    assert_eq!(a.notice(), Some(3));
    assert_eq!(a.state(3), Some("blocked"));
    a.report(3, Some("working"), true, true);
    assert_eq!(a.notice(), None);
    a.report(3, Some("blocked"), true, false);
    assert_eq!(a.notice(), None);
    a.report(4, Some("blocked"), true, true);
    assert_eq!(a.notice(), Some(4));
    a.report(4, Some("released"), true, true);
    assert_eq!(a.notice(), None);
    assert_eq!(a.state(4), None);
    a.preferences_saved(true);
    assert_eq!(a.notice(), Some(3));
    a.preferences_saved(false);
    assert_eq!(a.notice(), None);
}

#[test]
fn reports_for_hidden_panes_are_dropped() {
    let mut a = PaneActivity::new();
    a.report(9, Some("blocked"), false, true);
    assert_eq!(a.state(9), None);
    assert_eq!(a.notice(), None);
}

#[test]
fn forgetting_a_pane_clears_its_notice() {
    let mut a = PaneActivity::new();
    a.report(5, Some("blocked"), true, true);
    a.forget(5);
    assert_eq!(a.notice(), None);
    assert_eq!(a.state(5), None);
    a.report(6, Some("blocked"), true, true);
    a.dismiss();
    assert_eq!(a.notice(), None);
    assert_eq!(a.state(6), Some("blocked"));
}

#[test]
fn most_urgent_activity_wins() {
    let mut a = PaneActivity::new();
    a.report(1, Some("idle"), true, true);
    a.report(2, Some("working"), true, true);
    a.report(3, Some("blocked"), true, false);
    a.report(4, Some("custom"), true, true);
    assert_eq!(a.activity_for_panes(&[1, 2]), Some("working"));
    assert_eq!(a.activity_for_panes(&[3, 2, 1]), Some("blocked"));
    assert_eq!(a.activity_for_panes(&[4, 1]), Some("idle"));
    assert_eq!(a.activity_for_panes(&[4]), Some("custom"));
    assert_eq!(a.activity_for_panes(&[7, 8]), None);
}

#[test]
fn marks_and_colors() {
    assert_eq!(activity_mark(Some("working")), "●");
    assert_eq!(activity_mark(Some("blocked")), "!");
    assert_eq!(activity_mark(Some("idle")), "○");
    assert_eq!(activity_mark(None), "○");
    assert_eq!(activity_color(Some("working")), 0xc6a66b);
    assert_eq!(activity_color(Some("blocked")), 0xe8aa82);
    assert_eq!(activity_color(Some("idle")), 0x9b958a);
    assert_eq!(activity_color(Some("other")), 0x544936);
    assert_eq!(activity_color(None), 0x544936);
}

#[test]
fn shells_follow_the_layouts() {
    let mut state = Workspaces::default();
    state.add_workspace("/a".into()).unwrap();
    let first = state.tab().unwrap().active_pane;
    let second = state.split(Axis::Horizontal).unwrap();
    state.add_workspace("/b".into()).unwrap();
    let third = state.tab().unwrap().active_pane;
    let panes = state.pane_folders();
    assert_eq!(
        panes,
        vec![(first, "/a".to_string()), (second, "/a".to_string()), (third, "/b".to_string())]
    );
    let plan = plan_sessions(&panes, &[first, 42]);
    assert_eq!(plan.close, vec![42]);
    assert_eq!(plan.start, vec![(second, "/a".to_string()), (third, "/b".to_string())]);
    let settled = plan_sessions(&panes, &[first, second, third]);
    assert!(settled.close.is_empty() && settled.start.is_empty());
}

#[test]
fn blocked_panes_are_listed_with_their_tab_titles() {
    let mut s = Workspaces::default();
    s.add_workspace("/a".into()).unwrap();
    let first = s.tab().unwrap().active_pane;
    let second = s.add_tab().unwrap();
    s.rename_tab(s.tab().unwrap().id, "Build".into()).unwrap();
    assert_eq!(s.pane_title(first), Some("Terminal 1".to_string()));
    assert_eq!(s.pane_title(second), Some("Build".to_string()));
    assert_eq!(s.pane_title(999), None);
    let mut a = PaneActivity::new();
    a.report(first, Some("blocked"), true, true);
    a.report(second, Some("working"), true, true);
    a.report(999, Some("blocked"), true, true);
    assert_eq!(a.blocked_panes(&s, true), vec![(first, "Terminal 1".to_string())]);
    assert!(a.blocked_panes(&s, false).is_empty());
    a.report(second, Some("blocked"), true, true);
    let mut listed = a.blocked_panes(&s, true);
    listed.sort();
    assert_eq!(listed, vec![(first, "Terminal 1".to_string()), (second, "Build".to_string())]);
}
