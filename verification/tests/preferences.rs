use vintage::input::SettingsKey;
use vintage::prefs::{copy_settings, settings_equal, KeyEffect, Menu, PreferencesDraft};
use vintage::settings::{Appearance, Binding, Settings};

fn saved() -> Settings {
    Settings::default()
}

#[test]
fn opening_copies_the_saved_settings() {
    let s = saved();
    let p = PreferencesDraft::new(&s, None);
    assert!(settings_equal(&p.draft, &s));
    assert!(!p.dirty(&s));
    let q = PreferencesDraft::new(&s, Some("damaged".to_string()));
    assert!(q.recovery_required);
    assert!(q.dirty(&s));
    assert_eq!(q.error.as_deref(), Some("damaged"));
}

#[test]
fn copies_compare_equal_and_edits_do_not() {
    let s = saved();
    let mut c = copy_settings(&s);
    assert!(settings_equal(&c, &s));
    c.shell = "other".to_string();
    assert!(!settings_equal(&c, &s));
}

#[test]
fn steppers_stay_within_bounds() {
    let s = saved();
    let mut p = PreferencesDraft::new(&s, None);
    p.step(true, true);
    assert_eq!(p.draft.font_size, 13);
    p.draft.font_size = 48;
    p.step(true, true);
    assert_eq!(p.draft.font_size, 48);
    p.step(false, false);
    assert_eq!(p.draft.ui_percent, 95);
    p.draft.ui_percent = 87;
    p.step(false, false);
    assert_eq!(p.draft.ui_percent, 85);
    p.step(false, false);
    assert_eq!(p.draft.ui_percent, 85);
}

#[test]
fn save_needs_changes_and_valid_draft() {
    let s = saved();
    let mut p = PreferencesDraft::new(&s, None);
    assert!(!p.request_save(&s));
    p.set_appearance(Appearance::Dark);
    p.draft.font_size = 100;
    assert!(!p.request_save(&s));
    assert_eq!(p.error.as_deref(), Some("Terminal font size must be 8–48 px"));
    p.draft.font_size = 14;
    p.toggle_menu(Menu::Font);
    assert!(p.request_save(&s));
    assert!(p.saving);
    assert_eq!(p.menu, None);
    p.set_scrollback(5000);
    assert_eq!(p.draft.scrollback, 1000);
    p.save_finished(Err("disk full".to_string()));
    assert!(!p.saving);
    assert_eq!(p.error.as_deref(), Some("Could not save changes: disk full"));
    assert!(p.request_save(&s));
    p.save_finished(Ok(()));
    assert!(!p.recovery_required);
}

#[test]
fn discard_restores_the_saved_settings() {
    let s = saved();
    let mut p = PreferencesDraft::new(&s, None);
    p.choose_font(2);
    assert_eq!(p.draft.font_preset, 2);
    assert_eq!(p.font_label(), "HackGen");
    p.discard(&s);
    assert!(settings_equal(&p.draft, &s));
}

#[test]
fn font_menu_and_installed_fonts() {
    let s = saved();
    let mut p = PreferencesDraft::new(&s, None);
    p.choose_font(5);
    assert_eq!(p.menu, Some(Menu::CustomFont));
    p.choose_installed_font("Iosevka".to_string());
    assert_eq!(p.menu, None);
    assert_eq!(p.font_label(), "Iosevka");
    p.draft.custom_font.clear();
    assert_eq!(p.font_label(), "Choose a font");
    p.choose_shell("unix-bash".to_string());
    assert_eq!(p.draft.shell, "unix-bash");
}

#[test]
fn recorded_shortcuts_are_checked() {
    let s = saved();
    let mut p = PreferencesDraft::new(&s, None);
    p.start_recording(0);
    assert_eq!(p.recording, Some(0));
    let taken = s.bindings[1].clone();
    assert_eq!(p.apply_key(SettingsKey::Record(0, taken), &s), KeyEffect::Nothing);
    assert_eq!(p.error.as_deref(), Some("Shortcut is already assigned"));
    assert_eq!(p.recording, Some(0));
    let fresh = Binding { key: "k".to_string(), ctrl: true, alt: false, shift: true };
    p.apply_key(SettingsKey::Record(0, fresh.clone()), &s);
    assert_eq!(p.draft.bindings[0], fresh);
    assert_eq!(p.recording, None);
    assert_eq!(p.error, None);
    p.apply_key(SettingsKey::RefuseSystemKey, &s);
    assert_eq!(p.error.as_deref(), Some("Use Ctrl or Alt instead of the system key."));
    assert_eq!(p.apply_key(SettingsKey::Close, &s), KeyEffect::Close);
    assert_eq!(p.apply_key(SettingsKey::Save, &s), KeyEffect::Save);
    p.save_finished(Ok(()));
    p.apply_key(SettingsKey::SelectSection(3), &s);
    assert_eq!(p.section, 3);
}
