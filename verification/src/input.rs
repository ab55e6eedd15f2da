//! What a key press means to the workspace window and to a terminal pane:
//! the routing of keys to shortcuts, editing actions and terminal input.
//! The window system that delivers the keys lives outside the library.
use vstd::prelude::*;
use crate::settings::{binding_error, Binding};
use crate::text::str_eq;
use crate::Modifiers;

verus! {

/// Modifier keys held with a key, as the window reports them.
#[derive(Clone, Copy, Debug, Default, PartialEq, Eq, Structural)]
pub struct KeyModifiers {
    pub control: bool,
    pub alt: bool,
    pub shift: bool,
    /// The system key (Super, Command).
    pub platform: bool,
}

/// What the workspace window does with a key.
#[derive(Clone, Copy, Debug, PartialEq, Eq, Structural)]
pub enum WorkspaceKey {
    /// Not for the workspace; the key travels on.
    Ignore,
    CommitRename,
    CancelRename,
    ToggleSettings,
    /// The action of shortcut `i`.
    Shortcut(usize),
    ToggleFiles,
    OpenWorkspace,
    NextTab,
}

/// ASCII lowercase of a text.
pub open spec fn lower(s: Seq<char>) -> Seq<char> {
    s.map_values(|c: char| crate::files::ascii_lower(c))
}

/// A shortcut pressed with this key and these modifiers.
pub open spec fn is_chord(b: Binding, key: Seq<char>, m: KeyModifiers) -> bool {
    b.key@ == key && b.ctrl == m.control && b.alt == m.alt && b.shift == m.shift
}

/// The first shortcut, from index `i` on, that this chord presses.
pub open spec fn shortcut_index(bindings: Seq<Binding>, key: Seq<char>, m: KeyModifiers, i: int) -> Option<int>
    decreases bindings.len() - i,
{
    if i < 0 || i >= bindings.len() {
        None
    } else if is_chord(bindings[i], key, m) {
        Some(i)
    } else {
        shortcut_index(bindings, key, m, i + 1)
    }
}

/// The workspace's reading of a key: renaming takes Enter and Escape,
/// Ctrl+, opens the settings, a configured shortcut runs its action, and
/// Ctrl+Shift with F, O or Tab toggles files, opens a workspace or cycles
/// tabs. An open settings view takes every key.
pub open spec fn workspace_key(
    settings_visible: bool,
    renaming: bool,
    key: Seq<char>,
    m: KeyModifiers,
    bindings: Seq<Binding>,
) -> WorkspaceKey {
    let k = lower(key);
    if settings_visible {
        WorkspaceKey::Ignore
    } else if renaming {
        if k == "enter"@ || k == "return"@ {
            WorkspaceKey::CommitRename
        } else if k == "escape"@ {
            WorkspaceKey::CancelRename
        } else {
            WorkspaceKey::Ignore
        }
    } else if m.control && !m.alt && !m.platform && key == ","@ {
        WorkspaceKey::ToggleSettings
    } else if !m.platform && shortcut_index(bindings, k, m, 0) is Some {
        WorkspaceKey::Shortcut(shortcut_index(bindings, k, m, 0)->0 as usize)
    } else if !m.control || !m.shift || m.alt {
        WorkspaceKey::Ignore
    } else if k == "f"@ {
        WorkspaceKey::ToggleFiles
    } else if k == "o"@ {
        WorkspaceKey::OpenWorkspace
    } else if k == "tab"@ {
        WorkspaceKey::NextTab
    } else {
        WorkspaceKey::Ignore
    }
}

/// `str::to_ascii_lowercase`.
pub fn ascii_lowercase(s: &str) -> (r: String)
    ensures
        r@ == lower(s@),
{
    let chars = crate::text::chars_of(s);
    let mut out: Vec<char> = Vec::new();
    let mut i: usize = 0;
    while i < chars.len()
        invariant
            i <= chars@.len(),
            chars@ == s@,
            out@ == chars@.take(i as int).map_values(|c: char| crate::files::ascii_lower(c)),
        decreases chars@.len() - i,
    {
        let c = chars[i];
        let l = if 'A' <= c && c <= 'Z' {
            ((c as u8) + 32) as char
        } else {
            c
        };
        out.push(l);
        i += 1;
        proof {
            assert(out@ =~= chars@.take(i as int).map_values(|c: char| crate::files::ascii_lower(c)));
        }
    }
    proof {
        assert(chars@.take(chars@.len() as int) =~= chars@);
    }
    crate::text::string_from_chars(&out)
}

fn find_shortcut(bindings: &[Binding], key: &str, m: KeyModifiers) -> (r: Option<usize>)
    ensures
        r matches Some(i) ==> shortcut_index(bindings@, key@, m, 0) == Some(i as int),
        r is None ==> shortcut_index(bindings@, key@, m, 0) is None,
{
    let mut i: usize = 0;
    while i < bindings.len()
        invariant
            i <= bindings@.len(),
            shortcut_index(bindings@, key@, m, 0) == shortcut_index(bindings@, key@, m, i as int),
        decreases bindings@.len() - i,
    {
        let b = &bindings[i];
        if b.ctrl == m.control && b.alt == m.alt && b.shift == m.shift && str_eq(b.key.as_str(), key) {
            return Some(i);
        }
        i += 1;
    }
    None
}

/// Routes a key pressed in the workspace window.
pub fn route_workspace_key(
    settings_visible: bool,
    renaming: bool,
    key: &str,
    m: KeyModifiers,
    bindings: &[Binding],
) -> (r: WorkspaceKey)
    ensures
        r == workspace_key(settings_visible, renaming, key@, m, bindings@),
{
    let k = ascii_lowercase(key);
    let k = k.as_str();
    if settings_visible {
        return WorkspaceKey::Ignore;
    }
    if renaming {
        return if str_eq(k, "enter") || str_eq(k, "return") {
            WorkspaceKey::CommitRename
        } else if str_eq(k, "escape") {
            WorkspaceKey::CancelRename
        } else {
            WorkspaceKey::Ignore
        };
    }
    if m.control && !m.alt && !m.platform && str_eq(key, ",") {
        return WorkspaceKey::ToggleSettings;
    }
    if !m.platform {
        if let Some(i) = find_shortcut(bindings, k, m) {
            return WorkspaceKey::Shortcut(i);
        }
    }
    if !m.control || !m.shift || m.alt {
        return WorkspaceKey::Ignore;
    }
    if str_eq(k, "f") {
        WorkspaceKey::ToggleFiles
    } else if str_eq(k, "o") {
        WorkspaceKey::OpenWorkspace
    } else if str_eq(k, "tab") {
        WorkspaceKey::NextTab
    } else {
        WorkspaceKey::Ignore
    }
}

/// What a terminal pane does with a key.
#[derive(Clone, Debug, PartialEq, Eq)]
pub enum TerminalKey {
    /// Not for the pane; the key travels on.
    Ignore,
    CloseSearch,
    SearchPrevious,
    SearchNext,
    PasteIntoSearch,
    Copy,
    Paste,
    FontReset,
    FontSmaller,
    FontLarger,
    /// Scroll the view by this many lines, up when positive.
    Scroll(i32),
    /// Bytes for the terminal application.
    Send(Vec<u8>),
}

/// A key press as the pane reads it, except the bytes of `Send`, which
/// `terminal_key_sends` states.
pub open spec fn terminal_key(search_focused: bool, composing: bool, key: Seq<char>, m: KeyModifiers) -> Option<
    TerminalKey,
> {
    if search_focused {
        Some(
            if key == "escape"@ {
                TerminalKey::CloseSearch
            } else if key == "enter"@ || key == "return"@ {
                if m.shift {
                    TerminalKey::SearchPrevious
                } else {
                    TerminalKey::SearchNext
                }
            } else if key == "c"@ && m.control && m.shift {
                TerminalKey::Copy
            } else if key == "v"@ && m.control && m.shift {
                TerminalKey::PasteIntoSearch
            } else {
                TerminalKey::Ignore
            },
        )
    } else if m.control && m.shift && lower(key) == "c"@ {
        Some(TerminalKey::Copy)
    } else if m.control && m.shift && lower(key) == "v"@ {
        Some(TerminalKey::Paste)
    } else if m.control && (key == "="@ || key == "+"@ || key == "-"@ || key == "0"@) {
        Some(
            if key == "0"@ {
                TerminalKey::FontReset
            } else if key == "-"@ {
                TerminalKey::FontSmaller
            } else {
                TerminalKey::FontLarger
            },
        )
    } else if composing {
        Some(TerminalKey::Ignore)
    } else if m.shift && key == "pageup"@ {
        Some(TerminalKey::Scroll(12))
    } else if m.shift && key == "pagedown"@ {
        Some(TerminalKey::Scroll(-12i32))
    } else {
        None
    }
}

/// Keys left to the terminal application are sent as `encode_key` encodes
/// them, and ignored when it has no encoding.
pub open spec fn terminal_key_sends(key: &str, m: KeyModifiers, application_cursor: bool, r: TerminalKey) -> bool {
    match crate::keys::key_bytes(key, Modifiers { control: m.control, alt: m.alt, shift: m.shift }, application_cursor) {
        Some(bytes) => r matches TerminalKey::Send(b) && b@ == bytes,
        None => r == TerminalKey::Ignore,
    }
}

/// Routes a key pressed in a terminal pane: search keys while the search
/// field has focus, then copy and paste, font zoom, scrolling, and
/// finally input for the terminal application. An active IME composition
/// owns the editing keys.
pub fn route_terminal_key(
    search_focused: bool,
    composing: bool,
    key: &str,
    m: KeyModifiers,
    application_cursor: bool,
) -> (r: TerminalKey)
    ensures
        match terminal_key(search_focused, composing, key@, m) {
            Some(k) => r == k,
            None => terminal_key_sends(key, m, application_cursor, r),
        },
{
    if search_focused {
        return if str_eq(key, "escape") {
            TerminalKey::CloseSearch
        } else if str_eq(key, "enter") || str_eq(key, "return") {
            if m.shift {
                TerminalKey::SearchPrevious
            } else {
                TerminalKey::SearchNext
            }
        } else if str_eq(key, "c") && m.control && m.shift {
            TerminalKey::Copy
        } else if str_eq(key, "v") && m.control && m.shift {
            TerminalKey::PasteIntoSearch
        } else {
            TerminalKey::Ignore
        };
    }
    let k = ascii_lowercase(key);
    if m.control && m.shift && str_eq(k.as_str(), "c") {
        return TerminalKey::Copy;
    }
    if m.control && m.shift && str_eq(k.as_str(), "v") {
        return TerminalKey::Paste;
    }
    if m.control && (str_eq(key, "=") || str_eq(key, "+") || str_eq(key, "-") || str_eq(key, "0")) {
        return if str_eq(key, "0") {
            TerminalKey::FontReset
        } else if str_eq(key, "-") {
            TerminalKey::FontSmaller
        } else {
            TerminalKey::FontLarger
        };
    }
    if composing {
        return TerminalKey::Ignore;
    }
    if m.shift && str_eq(key, "pageup") {
        return TerminalKey::Scroll(12);
    }
    if m.shift && str_eq(key, "pagedown") {
        return TerminalKey::Scroll(-12);
    }
    match crate::keys::encode_key(key, Modifiers { control: m.control, alt: m.alt, shift: m.shift }, application_cursor) {
        Some(bytes) => TerminalKey::Send(bytes),
        None => TerminalKey::Ignore,
    }
}

/// What the preferences view does with a key.
#[derive(Clone, Debug)]
pub enum SettingsKey {
    /// Taken and dropped: a save is in flight, or a lone modifier arrives
    /// while a shortcut is being recorded.
    Swallow,
    /// Escape while recording: recording stops.
    CancelRecording,
    /// The system key was held while recording; such shortcuts are refused.
    RefuseSystemKey,
    /// Record this shortcut for the action of shortcut `index`.
    Record(usize, Binding),
    /// Escape with a menu open closes the menu.
    CloseMenu,
    /// Escape, or Ctrl+, closes the view.
    Close,
    /// Ctrl+S.
    Save,
    /// Ctrl+1 to Ctrl+5 select a section, counted from 0.
    SelectSection(usize),
    /// Not for the view; the key travels on.
    Ignore,
}

/// The key names of lone modifier keys.
pub open spec fn is_modifier_key(k: Seq<char>) -> bool {
    k == "shift"@ || k == "control"@ || k == "alt"@ || k == "super"@ || k == "cmd"@
}

/// The section that Ctrl with this key selects.
pub open spec fn section_key(k: Seq<char>) -> Option<usize> {
    if k == "1"@ {
        Some(0)
    } else if k == "2"@ {
        Some(1)
    } else if k == "3"@ {
        Some(2)
    } else if k == "4"@ {
        Some(3)
    } else if k == "5"@ {
        Some(4)
    } else {
        None
    }
}

/// The preferences view's reading of a key, the key taken in ASCII
/// lowercase. A recorded shortcut is that key with the Ctrl, Alt and Shift
/// that were held.
pub open spec fn settings_key_is(
    saving: bool,
    recording: Option<usize>,
    menu_open: bool,
    key: Seq<char>,
    m: KeyModifiers,
    r: SettingsKey,
) -> bool {
    let k = lower(key);
    if saving {
        r is Swallow
    } else if recording is Some {
        if k == "escape"@ {
            r is CancelRecording
        } else if is_modifier_key(k) {
            r is Swallow
        } else if m.platform {
            r is RefuseSystemKey
        } else {
            match r {
                SettingsKey::Record(i, b) => i == recording->0 && b.key@ == k && b.ctrl == m.control
                    && b.alt == m.alt && b.shift == m.shift,
                _ => false,
            }
        }
    } else if k == "escape"@ {
        if menu_open {
            r is CloseMenu
        } else {
            r is Close
        }
    } else if m.control && !m.alt && !m.platform {
        if k == "s"@ {
            r is Save
        } else if k == ","@ {
            r is Close
        } else if section_key(k) is Some {
            r == SettingsKey::SelectSection(section_key(k)->0)
        } else {
            r is Ignore
        }
    } else {
        r is Ignore
    }
}

/// Routes a key pressed in the preferences view.
pub fn route_settings_key(saving: bool, recording: Option<usize>, menu_open: bool, key: &str, m: KeyModifiers) -> (r:
    SettingsKey)
    ensures
        settings_key_is(saving, recording, menu_open, key@, m, r),
{
    if saving {
        return SettingsKey::Swallow;
    }
    let k = ascii_lowercase(key);
    if let Some(index) = recording {
        if str_eq(k.as_str(), "escape") {
            return SettingsKey::CancelRecording;
        }
        let ks = k.as_str();
        if str_eq(ks, "shift") || str_eq(ks, "control") || str_eq(ks, "alt") || str_eq(ks, "super") || str_eq(ks, "cmd") {
            return SettingsKey::Swallow;
        }
        if m.platform {
            return SettingsKey::RefuseSystemKey;
        }
        return SettingsKey::Record(index, Binding { key: k, ctrl: m.control, alt: m.alt, shift: m.shift });
    }
    let ks = k.as_str();
    if str_eq(ks, "escape") {
        return if menu_open {
            SettingsKey::CloseMenu
        } else {
            SettingsKey::Close
        };
    }
    if m.control && !m.alt && !m.platform {
        if str_eq(ks, "s") {
            SettingsKey::Save
        } else if str_eq(ks, ",") {
            SettingsKey::Close
        } else if str_eq(ks, "1") {
            SettingsKey::SelectSection(0)
        } else if str_eq(ks, "2") {
            SettingsKey::SelectSection(1)
        } else if str_eq(ks, "3") {
            SettingsKey::SelectSection(2)
        } else if str_eq(ks, "4") {
            SettingsKey::SelectSection(3)
        } else if str_eq(ks, "5") {
            SettingsKey::SelectSection(4)
        } else {
            SettingsKey::Ignore
        }
    } else {
        SettingsKey::Ignore
    }
}

} // verus!

verus! {

/// A shortcut that passes validation never takes a key combination that the
/// workspace or a terminal pane handles itself: pressed with its modifiers
/// and no configured shortcuts, the workspace ignores it, and a pane does
/// not read it as copy, paste or a font size change. Keys arrive in
/// lowercase; the reserved combinations are those without Alt.
pub proof fn law_valid_shortcuts_leave_builtins_free(b: Binding, composing: bool)
    requires
        binding_error(b) is None,
        !b.alt,
        lower(b.key@) == b.key@,
    ensures
        ({
            let m = KeyModifiers { control: b.ctrl, alt: b.alt, shift: b.shift, platform: false };
            &&& workspace_key(false, false, b.key@, m, Seq::empty()) == WorkspaceKey::Ignore
            &&& match terminal_key(false, composing, b.key@, m) {
                Some(k) => !(k is Copy || k is Paste || k is FontReset || k is FontSmaller || k is FontLarger),
                None => true,
            }
        }),
{
    let m = KeyModifiers { control: b.ctrl, alt: b.alt, shift: b.shift, platform: false };
    assert(shortcut_index(Seq::<Binding>::empty(), b.key@, m, 0) is None);
}

/// With Ctrl held in a terminal pane, outside the search field, `+` and
/// `=` both make the font larger, `-` smaller, and `0` resets it, whatever
/// other modifiers are held and whether a composition is active.
pub proof fn law_font_zoom_keys(composing: bool, m: KeyModifiers)
    requires
        m.control,
    ensures
        terminal_key(false, composing, "+"@, m) == Some(TerminalKey::FontLarger),
        terminal_key(false, composing, "="@, m) == Some(TerminalKey::FontLarger),
        terminal_key(false, composing, "-"@, m) == Some(TerminalKey::FontSmaller),
        terminal_key(false, composing, "0"@, m) == Some(TerminalKey::FontReset),
{
    reveal_strlit("+");
    reveal_strlit("=");
    reveal_strlit("-");
    reveal_strlit("0");
    reveal_strlit("c");
    reveal_strlit("v");
    assert(lower("+"@)[0] == '+' && lower("="@)[0] == '=' && lower("-"@)[0] == '-' && lower("0"@)[0] == '0');
    assert("c"@[0] == 'c' && "v"@[0] == 'v');
    assert("+"@ != "-"@ && "+"@ != "0"@ && "="@ != "-"@ && "="@ != "0"@ && "-"@ != "0"@) by {
        assert("+"@[0] == '+' && "="@[0] == '=' && "-"@[0] == '-' && "0"@[0] == '0');
    }
}

} // verus!
