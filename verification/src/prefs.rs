//! The preferences view's working state: a draft of the settings edited
//! locally, the open section and menu, shortcut recording, and the explicit
//! save, which runs outside and reports back.
use vstd::prelude::*;
use crate::input::SettingsKey;
use crate::settings::{
    rebind_error, same_binding, settings_error, with_binding, Appearance, Binding, Settings,
    FONT_PRESETS,
};
use crate::text::str_eq;

verus! {

/// The menu open in the preferences view.
#[derive(Clone, Copy, Debug, PartialEq, Eq, Structural)]
pub enum Menu {
    Font,
    CustomFont,
    Shell,
}

/// The number of sections of the preferences view.
pub const SECTIONS: usize = 5;

/// Equal settings, field by field, texts by their characters.
pub open spec fn same_settings(a: Settings, b: Settings) -> bool {
    &&& a.version == b.version
    &&& a.appearance == b.appearance
    &&& a.ui_percent == b.ui_percent
    &&& a.font_preset == b.font_preset
    &&& a.custom_font@ == b.custom_font@
    &&& a.font_size == b.font_size
    &&& a.scrollback == b.scrollback
    &&& a.shell@ == b.shell@
    &&& forall|i: int| 0 <= i < 9 ==> same_binding(#[trigger] a.bindings@[i], b.bindings@[i])
}

/// Compares two settings as `==` on them does.
pub fn settings_equal(a: &Settings, b: &Settings) -> (r: bool)
    ensures
        r == same_settings(*a, *b),
{
    if a.version != b.version || a.appearance != b.appearance || a.ui_percent != b.ui_percent
        || a.font_preset != b.font_preset || !str_eq(a.custom_font.as_str(), b.custom_font.as_str())
        || a.font_size != b.font_size || a.scrollback != b.scrollback || !str_eq(
        a.shell.as_str(),
        b.shell.as_str(),
    ) {
        return false;
    }
    let mut i: usize = 0;
    while i < 9
        invariant
            i <= 9,
            forall|j: int| 0 <= j < i ==> same_binding(#[trigger] a.bindings@[j], b.bindings@[j]),
        decreases 9 - i,
    {
        if !a.bindings[i].same(&b.bindings[i]) {
            return false;
        }
        i += 1;
    }
    true
}

fn copy_binding(b: &Binding) -> (r: Binding)
    ensures
        same_binding(r, *b),
{
    Binding { key: b.key.clone(), ctrl: b.ctrl, alt: b.alt, shift: b.shift }
}

/// A copy of the settings.
pub fn copy_settings(s: &Settings) -> (r: Settings)
    ensures
        same_settings(r, *s),
{
    let bindings = copy_bindings(&s.bindings);
    Settings {
        version: s.version,
        appearance: s.appearance,
        ui_percent: s.ui_percent,
        font_preset: s.font_preset,
        custom_font: s.custom_font.clone(),
        font_size: s.font_size,
        scrollback: s.scrollback,
        shell: s.shell.clone(),
        bindings,
    }
}

fn copy_bindings(b: &[Binding; 9]) -> (r: [Binding; 9])
    ensures
        forall|i: int| 0 <= i < 9 ==> same_binding(#[trigger] r@[i], b@[i]),
{
    [
        copy_binding(&b[0]),
        copy_binding(&b[1]),
        copy_binding(&b[2]),
        copy_binding(&b[3]),
        copy_binding(&b[4]),
        copy_binding(&b[5]),
        copy_binding(&b[6]),
        copy_binding(&b[7]),
        copy_binding(&b[8]),
    ]
}

/// What the view asks of its owner after a key.
#[derive(Clone, Copy, Debug, PartialEq, Eq, Structural)]
pub enum KeyEffect {
    Nothing,
    /// Close the preferences view.
    Close,
    /// Save the draft, which is valid.
    Save,
}

/// The preferences view's state.
pub struct PreferencesDraft {
    /// The settings as edited.
    pub draft: Settings,
    pub section: usize,
    pub menu: Option<Menu>,
    /// The shortcut being recorded.
    pub recording: Option<usize>,
    pub error: Option<String>,
    /// A save is in flight; nothing can be edited meanwhile.
    pub saving: bool,
    /// The stored settings could not be read, so a save is owed even
    /// without edits.
    pub recovery_required: bool,
}

/// The text of an optional message.
pub open spec fn message(e: Option<String>) -> Option<Seq<char>> {
    match e {
        Some(m) => Some(m@),
        None => None,
    }
}

/// The draft differs from what is saved, or a save is owed.
pub open spec fn is_dirty(p: PreferencesDraft, saved: Settings) -> bool {
    p.recovery_required || !same_settings(p.draft, saved)
}

impl PreferencesDraft {
    /// The view opened on the saved settings; `load_error` tells why they
    /// could not be read, if they could not.
    pub fn new(saved: &Settings, load_error: Option<String>) -> (r: Self)
        ensures
            same_settings(r.draft, *saved),
            r.section == 0,
            r.menu is None,
            r.recording is None,
            message(r.error) == message(load_error),
            !r.saving,
            r.recovery_required == load_error is Some,
    {
        let recovery_required = load_error.is_some();
        PreferencesDraft {
            draft: copy_settings(saved),
            section: 0,
            menu: None,
            recording: None,
            error: load_error,
            saving: false,
            recovery_required,
        }
    }

    /// The draft differs from `saved`, or a save is owed.
    pub fn dirty(&self, saved: &Settings) -> (r: bool)
        ensures
            r == is_dirty(*self, *saved),
    {
        self.recovery_required || !settings_equal(&self.draft, saved)
    }

    /// Drops the edits: the draft is `saved` again.
    pub fn discard(&mut self, saved: &Settings)
        ensures
            old(self).saving ==> *final(self) == *old(self),
            !old(self).saving ==> same_settings(final(self).draft, *saved) && final(self).error is None
                && final(self).menu is None && final(self).recording is None && final(self).section == old(self).section && !final(self).saving && final(self).recovery_required == old(self).recovery_required,
    {
        if self.saving {
            return;
        }
        self.draft = copy_settings(saved);
        self.error = None;
        self.menu = None;
        self.recording = None;
    }

    /// Shows a section; menus close and recording stops.
    pub fn select_section(&mut self, index: usize)
        ensures
            old(self).saving ==> *final(self) == *old(self),
            !old(self).saving ==> final(self).section == index && final(self).menu is None
                && final(self).recording is None && final(self).draft == old(self).draft && final(self).error
                == old(self).error && final(self).saving == old(self).saving && final(self).recovery_required
                == old(self).recovery_required,
    {
        if self.saving {
            return;
        }
        self.section = index;
        self.menu = None;
        self.recording = None;
    }

    /// Opens a menu, or closes it when it is open.
    pub fn toggle_menu(&mut self, menu: Menu)
        ensures
            final(self).menu == (if old(self).menu == Some(menu) {
                None
            } else {
                Some(menu)
            }),
            final(self).draft == old(self).draft,
            final(self).section == old(self).section,
            final(self).recording == old(self).recording,
            final(self).error == old(self).error,
            final(self).saving == old(self).saving,
            final(self).recovery_required == old(self).recovery_required,
    {
        self.menu = if self.menu == Some(menu) {
            None
        } else {
            Some(menu)
        };
    }

    /// Starts recording the shortcut of action `index`.
    pub fn start_recording(&mut self, index: usize)
        ensures
            final(self).recording == Some(index),
            final(self).menu is None,
            final(self).error is None,
            final(self).draft == old(self).draft,
            final(self).section == old(self).section,
            final(self).saving == old(self).saving,
            final(self).recovery_required == old(self).recovery_required,
    {
        self.recording = Some(index);
        self.menu = None;
        self.error = None;
    }

    /// Chooses the appearance.
    pub fn set_appearance(&mut self, appearance: Appearance)
        ensures
            old(self).saving ==> *final(self) == *old(self),
            !old(self).saving ==> final(self).draft == (Settings { appearance, ..old(self).draft })
                && final(self).error is None && final(self).menu == old(self).menu && final(self).recording
                == old(self).recording && final(self).section == old(self).section && final(self).saving
                == old(self).saving && final(self).recovery_required == old(self).recovery_required,
    {
        if self.saving {
            return;
        }
        self.draft.appearance = appearance;
        self.error = None;
    }

    /// Chooses the scrollback capacity.
    pub fn set_scrollback(&mut self, lines: usize)
        ensures
            old(self).saving ==> *final(self) == *old(self),
            !old(self).saving ==> final(self).draft == (Settings { scrollback: lines, ..old(self).draft })
                && final(self).error is None && final(self).menu == old(self).menu && final(self).recording
                == old(self).recording && final(self).section == old(self).section && final(self).saving
                == old(self).saving && final(self).recovery_required == old(self).recovery_required,
    {
        if self.saving {
            return;
        }
        self.draft.scrollback = lines;
        self.error = None;
    }

    /// Chooses the shell from the shell menu, which closes.
    pub fn choose_shell(&mut self, shell: String)
        ensures
            final(self).menu is None,
            old(self).saving ==> final(self).draft == old(self).draft && final(self).error == old(self).error,
            !old(self).saving ==> final(self).draft == (Settings { shell, ..old(self).draft }) && final(self).error is None,
            final(self).recording == old(self).recording,
            final(self).section == old(self).section,
            final(self).saving == old(self).saving,
            final(self).recovery_required == old(self).recovery_required,
    {
        if !self.saving {
            self.draft.shell = shell;
            self.error = None;
        }
        self.menu = None;
    }

    /// Chooses entry `index` of the font menu: the last entry opens the
    /// list of installed fonts, any other selects that preset and closes
    /// the menu.
    pub fn choose_font(&mut self, index: usize)
        ensures
            index == 5 ==> final(self).menu == Some(Menu::CustomFont) && final(self).draft == old(self).draft
                && final(self).error == old(self).error,
            index != 5 ==> final(self).menu is None && if old(self).saving {
                final(self).draft == old(self).draft && final(self).error == old(self).error
            } else {
                final(self).draft == (Settings { font_preset: index, ..old(self).draft }) && final(self).error is None
            },
            final(self).recording == old(self).recording,
            final(self).section == old(self).section,
            final(self).saving == old(self).saving,
            final(self).recovery_required == old(self).recovery_required,
    {
        if index == 5 {
            self.menu = Some(Menu::CustomFont);
            return;
        }
        if !self.saving {
            self.draft.font_preset = index;
            self.error = None;
        }
        self.menu = None;
    }

    /// Chooses an installed font family; the menu closes.
    pub fn choose_installed_font(&mut self, family: String)
        ensures
            final(self).menu is None,
            old(self).saving ==> final(self).draft == old(self).draft && final(self).error == old(self).error,
            !old(self).saving ==> final(self).draft == (Settings {
                font_preset: 5,
                custom_font: family,
                ..old(self).draft
            }) && final(self).error is None,
            final(self).recording == old(self).recording,
            final(self).section == old(self).section,
            final(self).saving == old(self).saving,
            final(self).recovery_required == old(self).recovery_required,
    {
        if !self.saving {
            self.draft.font_preset = 5;
            self.draft.custom_font = family;
            self.error = None;
        }
        self.menu = None;
    }

    /// Steps the terminal font size by 1 px within 8..=48, or the interface
    /// scale by 5% within 85..=200; a step past a bound does nothing.
    pub fn step(&mut self, terminal: bool, up: bool)
        ensures
            ({
                let (value, min, max, step) = if terminal {
                    (old(self).draft.font_size as int, 8int, 48int, 1int)
                } else {
                    (old(self).draft.ui_percent as int, 85int, 200int, 5int)
                };
                let allowed = !old(self).saving && (if up {
                    value < max
                } else {
                    value > min
                });
                let next = if up {
                    if value + step > max {
                        max
                    } else {
                        value + step
                    }
                } else {
                    if value - step < min {
                        min
                    } else {
                        value - step
                    }
                };
                if allowed {
                    final(self).error is None && if terminal {
                        final(self).draft == (Settings { font_size: next as u16, ..old(self).draft })
                    } else {
                        final(self).draft == (Settings { ui_percent: next as u16, ..old(self).draft })
                    }
                } else {
                    final(self).draft == old(self).draft && final(self).error == old(self).error
                }
            }),
            final(self).menu == old(self).menu,
            final(self).recording == old(self).recording,
            final(self).section == old(self).section,
            final(self).saving == old(self).saving,
            final(self).recovery_required == old(self).recovery_required,
    {
        let (value, min, max, step): (u16, u16, u16, u16) = if terminal {
            (self.draft.font_size, 8, 48, 1)
        } else {
            (self.draft.ui_percent, 85, 200, 5)
        };
        let allowed = if up {
            value < max
        } else {
            value > min
        };
        if !allowed || self.saving {
            return;
        }
        let next: u16 = if up {
            if value > max - step {
                max
            } else {
                value + step
            }
        } else {
            if value < min + step {
                min
            } else {
                value - step
            }
        };
        if terminal {
            self.draft.font_size = next;
        } else {
            self.draft.ui_percent = next;
        }
        self.error = None;
    }

    /// Asks to save: refused while saving or without changes, and with a
    /// message when the draft is invalid; otherwise the save starts, and
    /// `true` tells the owner to write the draft.
    pub fn request_save(&mut self, saved: &Settings) -> (start: bool)
        ensures
            start == (!old(self).saving && is_dirty(*old(self), *saved) && settings_error(old(self).draft)
                is None),
            final(self).draft == old(self).draft,
            final(self).section == old(self).section,
            final(self).recovery_required == old(self).recovery_required,
            start ==> final(self).saving && final(self).menu is None && final(self).recording is None
                && final(self).error is None,
            !start && !old(self).saving && is_dirty(*old(self), *saved) ==> (match settings_error(
                old(self).draft,
            ) {
                Some(e) => message(final(self).error) == Some(e@),
                None => false,
            }) && final(self).saving == old(self).saving && final(self).menu == old(self).menu
                && final(self).recording == old(self).recording,
            !start && (old(self).saving || !is_dirty(*old(self), *saved)) ==> *final(self) == *old(self),
    {
        if self.saving || !self.dirty(saved) {
            return false;
        }
        match self.draft.validate() {
            Err(e) => {
                self.error = Some(e.to_owned());
                false
            },
            Ok(()) => {
                self.saving = true;
                self.menu = None;
                self.recording = None;
                self.error = None;
                true
            },
        }
    }

    /// The save ended: on success nothing more is owed; on failure the
    /// reason is shown.
    pub fn save_finished(&mut self, result: Result<(), String>)
        ensures
            !final(self).saving,
            final(self).draft == old(self).draft,
            final(self).section == old(self).section,
            final(self).menu == old(self).menu,
            final(self).recording == old(self).recording,
            match result {
                Ok(()) => !final(self).recovery_required && final(self).error == old(self).error,
                Err(e) => final(self).recovery_required == old(self).recovery_required && message(
                    final(self).error,
                ) == Some("Could not save changes: "@ + e@),
            },
    {
        self.saving = false;
        match result {
            Ok(()) => {
                self.recovery_required = false;
            },
            Err(e) => {
                let mut chars = crate::text::chars_of("Could not save changes: ");
                let mut rest = crate::text::chars_of(e.as_str());
                chars.append(&mut rest);
                self.error = Some(crate::text::string_from_chars(&chars));
            },
        }
    }

    /// Carries out a key as `route_settings_key` read it.
    pub fn apply_key(&mut self, key: SettingsKey, saved: &Settings) -> (effect: KeyEffect)
        ensures
            match key {
                SettingsKey::CancelRecording => effect == KeyEffect::Nothing && final(self).recording is None
                    && final(self).error is None && final(self).draft == old(self).draft,
                SettingsKey::RefuseSystemKey => effect == KeyEffect::Nothing && message(final(self).error)
                    == Some("Use Ctrl or Alt instead of the system key."@) && final(self).recording == old(self).recording && final(self).draft == old(self).draft,
                SettingsKey::Record(i, b) => effect == KeyEffect::Nothing && match rebind_error(
                    old(self).draft,
                    i as int,
                    b,
                ) {
                    None => with_binding(old(self).draft, final(self).draft, i as int, b) && final(self).recording is None && final(self).error is None,
                    Some(e) => final(self).draft == old(self).draft && message(final(self).error) == Some(e@)
                        && final(self).recording == old(self).recording,
                },
                SettingsKey::CloseMenu => effect == KeyEffect::Nothing && final(self).menu is None
                    && final(self).draft == old(self).draft,
                SettingsKey::Close => effect == KeyEffect::Close && *final(self) == *old(self),
                SettingsKey::Save => {
                    let start = !old(self).saving && is_dirty(*old(self), *saved) && settings_error(
                        old(self).draft,
                    ) is None;
                    (effect == KeyEffect::Save) == start && (effect == KeyEffect::Nothing) == !start
                        && final(self).draft == old(self).draft
                },
                SettingsKey::SelectSection(i) => effect == KeyEffect::Nothing && (!old(self).saving ==> final(self).section == i) && final(self).draft == old(self).draft,
                _ => effect == KeyEffect::Nothing && *final(self) == *old(self),
            },
    {
        match key {
            SettingsKey::CancelRecording => {
                self.recording = None;
                self.error = None;
                KeyEffect::Nothing
            },
            SettingsKey::RefuseSystemKey => {
                self.error = Some("Use Ctrl or Alt instead of the system key.".to_owned());
                KeyEffect::Nothing
            },
            SettingsKey::Record(i, b) => {
                match self.draft.rebind(i, b) {
                    Ok(()) => {
                        self.recording = None;
                        self.error = None;
                    },
                    Err(e) => {
                        self.error = Some(e.to_owned());
                    },
                }
                KeyEffect::Nothing
            },
            SettingsKey::CloseMenu => {
                self.menu = None;
                KeyEffect::Nothing
            },
            SettingsKey::Close => KeyEffect::Close,
            SettingsKey::Save => {
                if self.request_save(saved) {
                    KeyEffect::Save
                } else {
                    KeyEffect::Nothing
                }
            },
            SettingsKey::SelectSection(i) => {
                self.select_section(i);
                KeyEffect::Nothing
            },
            _ => KeyEffect::Nothing,
        }
    }

    /// The label of the font button.
    pub fn font_label(&self) -> (r: String)
        ensures
            r@ == (if self.draft.font_preset == 5 {
                if self.draft.custom_font@.len() == 0 {
                    "Choose a font"@
                } else {
                    self.draft.custom_font@
                }
            } else if self.draft.font_preset < 6 {
                FONT_PRESETS[self.draft.font_preset as int]@
            } else {
                "Default"@
            }),
    {
        if self.draft.font_preset == 5 {
            if crate::text::chars_of(self.draft.custom_font.as_str()).len() == 0 {
                "Choose a font".to_owned()
            } else {
                self.draft.custom_font.clone()
            }
        } else if self.draft.font_preset < 6 {
            FONT_PRESETS[self.draft.font_preset].to_owned()
        } else {
            "Default".to_owned()
        }
    }
}

} // verus!
