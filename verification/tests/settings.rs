use vintage::settings::{
    check_settings_size, default_bindings, migrated_bindings, shell_id_on, Appearance, Binding,
    Settings, ACTIONS, FONT_PRESETS, SCROLLBACK,
};

#[test]
fn shortcuts_reject_conflicts_reserved_and_plain_typing() {
    let mut s = Settings::default();
    let before = s.clone();
    assert!(s.rebind(0, s.bindings[1].clone()).is_err());
    assert!(s
        .rebind(
            0,
            Binding {
                key: "t".into(),
                ctrl: true,
                alt: false,
                shift: true
            }
        )
        .is_err());
    assert!(s
        .rebind(
            0,
            Binding {
                key: "x".into(),
                ctrl: false,
                alt: false,
                shift: false
            }
        )
        .is_err());
    assert_eq!(s, before);
    s.rebind(
        0,
        Binding {
            key: "f6".into(),
            ctrl: true,
            alt: false,
            shift: false,
        },
    )
    .unwrap();
    s.validate().unwrap();
}

#[test]
fn bounds_and_future_versions_are_rejected() {
    let mut s = Settings::default();
    s.validate().unwrap();
    s.ui_percent = 201;
    assert!(s.validate().is_err());
    s.ui_percent = 200;
    s.font_size = 49;
    assert!(s.validate().is_err());
    s.font_size = 48;
    s.scrollback = 10001;
    assert!(s.validate().is_err());
    s.scrollback = 10000;
    s.version = 2;
    assert!(s.validate().is_err());
}

#[test]
fn six_binding_lists_gain_the_terminal_actions() {
    let added = migrated_bindings(6);
    assert_eq!(added.len(), 3);
    assert_eq!(added[0].label(), "Ctrl+Shift+n");
    assert_eq!(added[1].label(), "Ctrl+Shift+d");
    assert_eq!(added[2].label(), "Ctrl+Shift+t");
    assert!(migrated_bindings(9).is_empty());
    assert!(migrated_bindings(7).is_empty());
}

#[test]
fn labels_name_every_modifier() {
    let b = Binding {
        key: "k".into(),
        ctrl: true,
        alt: true,
        shift: true,
    };
    assert_eq!(b.label(), "Ctrl+Alt+Shift+k");
    assert_eq!(default_bindings()[4].label(), "Alt+Shift+left");
    assert_eq!(ACTIONS.len(), default_bindings().len());
}

#[test]
fn each_binding_error_has_its_message() {
    let mut b = Binding {
        key: String::new(),
        ctrl: true,
        alt: false,
        shift: false,
    };
    assert_eq!(b.validate(), Err("Invalid shortcut key"));
    b.key = "x".repeat(33);
    assert_eq!(b.validate(), Err("Invalid shortcut key"));
    b.key = "a\u{7}".into();
    assert_eq!(b.validate(), Err("Invalid shortcut key"));
    b.key = "k".into();
    b.ctrl = false;
    assert_eq!(b.validate(), Err("Use Ctrl or Alt in a shortcut"));
    b.alt = true;
    b.key = "escape".into();
    assert_eq!(b.validate(), Err("This key cannot be assigned"));
    b.alt = false;
    b.ctrl = true;
    b.key = "0".into();
    assert_eq!(b.validate(), Err("This shortcut is reserved by VINTAGE"));
    b.shift = true;
    b.key = "tab".into();
    assert_eq!(b.validate(), Err("This shortcut is reserved by VINTAGE"));
    b.alt = true;
    assert_eq!(b.validate(), Ok(()));
}

#[test]
fn settings_errors_follow_the_checks_in_order() {
    let mut s = Settings::default();
    s.ui_percent = 101;
    assert_eq!(s.validate(), Err("UI text size must be 85–200% in 5% steps"));
    s.ui_percent = 85;
    s.font_preset = 5;
    s.custom_font = "   ".into();
    assert_eq!(s.validate(), Err("Enter a custom font name"));
    s.custom_font = "  Iosevka  ".into();
    assert_eq!(s.validate(), Ok(()));
    assert_eq!(s.font_family_on(false), "Iosevka");
    s.font_preset = 6;
    assert_eq!(s.validate(), Err("Invalid font preference"));
    assert_eq!(s.font_family_on(false), "monospace");
    s.font_preset = 0;
    assert_eq!(s.font_family_on(true), "Consolas");
    assert_eq!(s.font_family_on(false), "DejaVu Sans Mono");
    s.font_preset = 2;
    assert_eq!(s.font_family_on(false), FONT_PRESETS[2]);
    s.shell = String::new();
    assert_eq!(s.validate(), Err("Invalid shell preference"));
    s.shell = shell_id_on(false).into();
    s.bindings[3] = s.bindings[2].clone();
    assert_eq!(s.validate(), Err("Shortcut is already assigned"));
    assert!(s.rebind(9, s.bindings[0].clone()).is_err());
}

#[test]
fn defaults_match_the_preview() {
    let s = Settings::default();
    assert_eq!(s.version, 1);
    assert_eq!(s.appearance, Appearance::System);
    assert_eq!(s.ui_percent, 100);
    assert_eq!(s.font_size, 12);
    assert_eq!(s.scrollback, SCROLLBACK[0]);
    assert!(s.shell == "unix-default" || s.shell == "windows-default");
    assert_eq!(shell_id_on(true), "windows-default");
}

#[test]
fn settings_files_are_limited_to_64_kib() {
    assert!(check_settings_size(65536).is_ok());
    assert_eq!(
        check_settings_size(65537),
        Err("Settings file exceeds 64 KiB")
    );
}
