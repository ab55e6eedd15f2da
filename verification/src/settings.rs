//! Preview-only preferences: their bounds, shortcut rules and defaults.
//! Reading and writing the settings file happens outside the library.
use vstd::prelude::*;
use crate::text::{chars_of, str_eq, has_control, trimmed, utf8_len};

verus! {

/// Scrollback capacities offered.
pub const SCROLLBACK: [usize; 4] = [1000, 2500, 5000, 10000];

/// Font choices; the last one takes a custom font name.
pub const FONT_PRESETS: [&'static str; 6] = ["Default", "Cica", "HackGen", "HackGen35", "JetBrainsMono Nerd Font", "Custom"];

/// Actions that shortcuts trigger, in binding order.
pub const ACTIONS: [&'static str; 9] = [
    "Previous tab",
    "Next tab",
    "Previous pane",
    "Next pane",
    "Previous workspace",
    "Next workspace",
    "New terminal",
    "Split right",
    "Split down",
];

/// Largest settings file accepted, in bytes.
pub const MAX_SETTINGS_BYTES: usize = 65536;

#[derive(Clone, Copy, Debug, Default, PartialEq, Eq, Structural)]
pub enum Appearance {
    #[default]
    System,
    Light,
    Dark,
    Graphite,
}

#[derive(Clone, Debug, PartialEq, Eq)]
pub struct Binding {
    pub key: String,
    pub ctrl: bool,
    pub alt: bool,
    pub shift: bool,
}

/// The same shortcut: equal key text and modifiers.
pub open spec fn same_binding(a: Binding, b: Binding) -> bool {
    a.key@ == b.key@ && a.ctrl == b.ctrl && a.alt == b.alt && a.shift == b.shift
}

/// Keys that name a modifier or escape, which no shortcut may use.
pub open spec fn unassignable(key: Seq<char>) -> bool {
    key == "escape"@ || key == "control"@ || key == "shift"@ || key == "alt"@ || key == "super"@ || key
        == "cmd"@
}

/// Keys that Ctrl+Shift shortcuts of the application itself use.
pub open spec fn reserved_with_shift(key: Seq<char>) -> bool {
    key == "f"@ || key == "o"@ || key == "w"@ || key == "tab"@ || key == "c"@ || key == "v"@
}

/// Keys that Ctrl shortcuts of the application itself use.
pub open spec fn reserved_with_ctrl(key: Seq<char>) -> bool {
    key == ","@ || key == "+"@ || key == "="@ || key == "-"@ || key == "0"@
}

/// Why a shortcut cannot be assigned, if it cannot.
pub open spec fn binding_error(b: Binding) -> Option<&'static str> {
    if !(b.key@.len() > 0 && utf8_len(b.key@) <= 32 && !has_control(b.key@)) {
        Some("Invalid shortcut key")
    } else if !(b.ctrl || b.alt) {
        Some("Use Ctrl or Alt in a shortcut")
    } else if unassignable(b.key@) {
        Some("This key cannot be assigned")
    } else if b.ctrl && !b.alt && ((b.shift && reserved_with_shift(b.key@)) || reserved_with_ctrl(b.key@)) {
        Some("This shortcut is reserved by VINTAGE")
    } else {
        None
    }
}

/// The label of a shortcut, such as `Ctrl+Shift+n`.
pub open spec fn binding_label(b: Binding) -> Seq<char> {
    (if b.ctrl {
        "Ctrl+"@
    } else {
        Seq::empty()
    }) + (if b.alt {
        "Alt+"@
    } else {
        Seq::empty()
    }) + (if b.shift {
        "Shift+"@
    } else {
        Seq::empty()
    }) + b.key@
}

fn key_is(key: &str, name: &str) -> (r: bool)
    ensures
        r == (key@ == name@),
{
    str_eq(key, name)
}

/// Appends the characters of `src`.
fn append(dst: &mut String, src: &str)
    ensures
        final(dst)@ == old(dst)@ + src@,
{
    let chars = chars_of(src);
    let mut i: usize = 0;
    while i < chars.len()
        invariant
            i <= chars@.len(),
            chars@ == src@,
            dst@ == old(dst)@ + chars@.take(i as int),
        decreases chars@.len() - i,
    {
        crate::text::push_char(dst, chars[i]);
        i += 1;
        proof {
            assert(dst@ =~= old(dst)@ + chars@.take(i as int));
        }
    }
    proof {
        assert(chars@.take(chars@.len() as int) =~= chars@);
    }
}

impl Binding {
    /// The label shown for the shortcut.
    pub fn label(&self) -> (r: String)
        ensures
            r@ == binding_label(*self),
    {
        let mut out = String::new();
        if self.ctrl {
            append(&mut out, "Ctrl+");
        }
        let ghost a = out@;
        if self.alt {
            append(&mut out, "Alt+");
        }
        let ghost b = out@;
        if self.shift {
            append(&mut out, "Shift+");
        }
        let ghost c = out@;
        append(&mut out, self.key.as_str());
        proof {
            assert(a =~= (if self.ctrl {
                "Ctrl+"@
            } else {
                Seq::empty()
            }));
            assert(b =~= a + (if self.alt {
                "Alt+"@
            } else {
                Seq::empty()
            }));
            assert(c =~= b + (if self.shift {
                "Shift+"@
            } else {
                Seq::empty()
            }));
        }
        out
    }

    /// Checks that the shortcut can be assigned.
    pub fn validate(&self) -> (r: Result<(), &'static str>)
        ensures
            match r {
                Ok(()) => binding_error(*self) is None,
                Err(e) => binding_error(*self) == Some(e),
            },
    {
        let key = self.key.as_str();
        let chars = chars_of(key);
        if chars.len() == 0 || key.as_bytes().len() > 32 || crate::text::any_control(&chars) {
            return Err("Invalid shortcut key");
        }
        if !(self.ctrl || self.alt) {
            return Err("Use Ctrl or Alt in a shortcut");
        }
        if key_is(key, "escape") || key_is(key, "control") || key_is(key, "shift") || key_is(key, "alt")
            || key_is(key, "super") || key_is(key, "cmd") {
            return Err("This key cannot be assigned");
        }
        let with_shift = key_is(key, "f") || key_is(key, "o") || key_is(key, "w") || key_is(key, "tab")
            || key_is(key, "c") || key_is(key, "v");
        let with_ctrl = key_is(key, ",") || key_is(key, "+") || key_is(key, "=") || key_is(key, "-")
            || key_is(key, "0");
        if self.ctrl && !self.alt && ((self.shift && with_shift) || with_ctrl) {
            return Err("This shortcut is reserved by VINTAGE");
        }
        Ok(())
    }

    /// Whether both shortcuts are the same.
    pub fn same(&self, other: &Binding) -> (r: bool)
        ensures
            r == same_binding(*self, *other),
    {
        self.ctrl == other.ctrl && self.alt == other.alt && self.shift == other.shift && str_eq(
            self.key.as_str(),
            other.key.as_str(),
        )
    }
}

/// The key of default shortcut `i`.
pub open spec fn default_key(i: int) -> Seq<char> {
    if i == 0 || i == 4 {
        "left"@
    } else if i == 1 || i == 5 {
        "right"@
    } else if i == 2 {
        "up"@
    } else if i == 3 {
        "down"@
    } else if i == 6 {
        "n"@
    } else if i == 7 {
        "d"@
    } else {
        "t"@
    }
}

/// Default shortcut `i`: Ctrl+Shift with the key, but Alt+Shift for the
/// workspace actions.
pub open spec fn is_default_binding(b: Binding, i: int) -> bool {
    &&& b.key@ == default_key(i)
    &&& b.ctrl == (i != 4 && i != 5)
    &&& b.alt == (i == 4 || i == 5)
    &&& b.shift
}

fn default_binding(i: usize) -> (r: Binding)
    requires
        i < 9,
    ensures
        is_default_binding(r, i as int),
{
    let key = if i == 0 || i == 4 {
        "left"
    } else if i == 1 || i == 5 {
        "right"
    } else if i == 2 {
        "up"
    } else if i == 3 {
        "down"
    } else if i == 6 {
        "n"
    } else if i == 7 {
        "d"
    } else {
        "t"
    };
    Binding { key: key.to_owned(), ctrl: i != 4 && i != 5, alt: i == 4 || i == 5, shift: true }
}

/// The default shortcuts, one per action.
pub fn default_bindings() -> (r: [Binding; 9])
    ensures
        forall|i: int| 0 <= i < 9 ==> is_default_binding(#[trigger] r@[i], i),
{
    [
        default_binding(0),
        default_binding(1),
        default_binding(2),
        default_binding(3),
        default_binding(4),
        default_binding(5),
        default_binding(6),
        default_binding(7),
        default_binding(8),
    ]
}

/// `std::path::is_separator('\\')`: whether a backslash separates path
/// components on this platform, which holds on Windows only. Nothing is
/// stated of the result, which depends on the platform.
#[verifier::external_body]
fn backslash_separates() -> bool {
    std::path::is_separator('\\')
}

/// The shell setting that selects the platform's default shell.
pub open spec fn shell_id_for(windows: bool) -> Seq<char> {
    if windows {
        "windows-default"@
    } else {
        "unix-default"@
    }
}

/// The shell setting that selects the platform's default shell.
pub fn shell_id_on(windows: bool) -> (r: &'static str)
    ensures
        r@ == shell_id_for(windows),
{
    if windows {
        "windows-default"
    } else {
        "unix-default"
    }
}

/// The default shell setting of this platform.
pub fn default_shell_id() -> (r: &'static str)
    ensures
        r@ == shell_id_for(true) || r@ == shell_id_for(false),
{
    shell_id_on(backslash_separates())
}

#[derive(Clone, Debug, PartialEq)]
pub struct Settings {
    pub version: u32,
    pub appearance: Appearance,
    pub ui_percent: u16,
    pub font_preset: usize,
    pub custom_font: String,
    pub font_size: u16,
    pub scrollback: usize,
    pub shell: String,
    pub bindings: [Binding; 9],
}

/// The defaults, with `shell` naming the platform's default shell.
pub open spec fn is_default_settings(s: Settings, shell: Seq<char>) -> bool {
    &&& s.version == 1
    &&& s.appearance == Appearance::System
    &&& s.ui_percent == 100
    &&& s.font_preset == 0
    &&& s.custom_font@.len() == 0
    &&& s.font_size == 12
    &&& s.scrollback == 1000
    &&& s.shell@ == shell
    &&& forall|i: int| 0 <= i < 9 ==> is_default_binding(#[trigger] s.bindings@[i], i)
}

impl Default for Settings {
    fn default() -> (r: Self)
        ensures
            is_default_settings(r, shell_id_for(true)) || is_default_settings(r, shell_id_for(false)),
    {
        Settings {
            version: 1,
            appearance: Appearance::System,
            ui_percent: 100,
            font_preset: 0,
            custom_font: String::new(),
            font_size: 12,
            scrollback: 1000,
            shell: default_shell_id().to_owned(),
            bindings: default_bindings(),
        }
    }
}

/// The first shortcut, at index `i` or later, that cannot be assigned or
/// repeats an earlier one, and why.
pub open spec fn bindings_error(bs: Seq<Binding>, i: int) -> Option<&'static str>
    decreases bs.len() - i,
{
    if i < 0 || i >= bs.len() {
        None
    } else if binding_error(bs[i]) is Some {
        binding_error(bs[i])
    } else if exists|j: int| 0 <= j < i && same_binding(#[trigger] bs[j], bs[i]) {
        Some("Shortcut is already assigned")
    } else {
        bindings_error(bs, i + 1)
    }
}

/// Why the settings are refused, if they are; the first failing rule wins.
pub open spec fn settings_error(s: Settings) -> Option<&'static str> {
    if s.version != 1 {
        Some("Unsupported Preview settings version")
    } else if !(85 <= s.ui_percent <= 200 && s.ui_percent % 5 == 0) {
        Some("UI text size must be 85–200% in 5% steps")
    } else if !(8 <= s.font_size <= 48) {
        Some("Terminal font size must be 8–48 px")
    } else if !SCROLLBACK@.contains(s.scrollback) {
        Some("Unsupported scrollback capacity")
    } else if !(s.font_preset < 6 && utf8_len(s.custom_font@) <= 1024 && !has_control(s.custom_font@)) {
        Some("Invalid font preference")
    } else if !(s.font_preset != 5 || trimmed(s.custom_font@).len() > 0) {
        Some("Enter a custom font name")
    } else if !(s.shell@.len() > 0 && utf8_len(s.shell@) <= 4096 && !has_control(s.shell@)) {
        Some("Invalid shell preference")
    } else {
        bindings_error(s.bindings@, 0)
    }
}

/// The font family used for terminal text.
pub open spec fn font_family_for(s: Settings, windows: bool) -> Seq<char> {
    if s.font_preset == 0 {
        if windows {
            "Consolas"@
        } else {
            "DejaVu Sans Mono"@
        }
    } else if s.font_preset == 5 {
        trimmed(s.custom_font@)
    } else if s.font_preset < 6 {
        FONT_PRESETS@[s.font_preset as int]@
    } else {
        "monospace"@
    }
}

/// The same settings with shortcut `index` replaced.
pub open spec fn with_binding(old: Settings, new: Settings, index: int, b: Binding) -> bool {
    &&& new.bindings@ == old.bindings@.update(index, b)
    &&& new.version == old.version
    &&& new.appearance == old.appearance
    &&& new.ui_percent == old.ui_percent
    &&& new.font_preset == old.font_preset
    &&& new.custom_font == old.custom_font
    &&& new.font_size == old.font_size
    &&& new.scrollback == old.scrollback
    &&& new.shell == old.shell
}

/// Why shortcut `index` cannot become `b`, if it cannot.
pub open spec fn rebind_error(s: Settings, index: int, b: Binding) -> Option<&'static str> {
    if !(0 <= index < 9) {
        Some("Unknown shortcut action")
    } else if binding_error(b) is Some {
        binding_error(b)
    } else if exists|i: int| 0 <= i < 9 && i != index && same_binding(#[trigger] s.bindings@[i], b) {
        Some("Shortcut is already assigned")
    } else {
        None
    }
}

fn text_ok(s: &str, max_bytes: usize) -> (r: bool)
    ensures
        r == (s@.len() > 0 && utf8_len(s@) <= max_bytes && !has_control(s@)),
{
    let chars = chars_of(s);
    chars.len() > 0 && s.as_bytes().len() <= max_bytes && !crate::text::any_control(&chars)
}

impl Settings {
    /// Checks every bound, the font and shell preferences and the shortcuts.
    pub fn validate(&self) -> (r: Result<(), &'static str>)
        ensures
            match r {
                Ok(()) => settings_error(*self) is None,
                Err(e) => settings_error(*self) == Some(e),
            },
    {
        if self.version != 1 {
            return Err("Unsupported Preview settings version");
        }
        if !(85 <= self.ui_percent && self.ui_percent <= 200 && self.ui_percent % 5 == 0) {
            return Err("UI text size must be 85–200% in 5% steps");
        }
        if !(8 <= self.font_size && self.font_size <= 48) {
            return Err("Terminal font size must be 8–48 px");
        }
        let known = self.scrollback == 1000 || self.scrollback == 2500 || self.scrollback == 5000
            || self.scrollback == 10000;
        proof {
            assert(SCROLLBACK@ =~= seq![1000usize, 2500, 5000, 10000]);
            if SCROLLBACK@.contains(self.scrollback) {
                let k = choose|k: int| 0 <= k < 4 && SCROLLBACK@[k] == self.scrollback;
                assert(known);
            }
            if known {
                if self.scrollback == 1000 {
                    assert(SCROLLBACK@[0] == self.scrollback);
                } else if self.scrollback == 2500 {
                    assert(SCROLLBACK@[1] == self.scrollback);
                } else if self.scrollback == 5000 {
                    assert(SCROLLBACK@[2] == self.scrollback);
                } else {
                    assert(SCROLLBACK@[3] == self.scrollback);
                }
            }
        }
        if !known {
            return Err("Unsupported scrollback capacity");
        }
        let font_chars = chars_of(self.custom_font.as_str());
        if !(self.font_preset < 6 && self.custom_font.as_str().as_bytes().len() <= 1024
            && !crate::text::any_control(&font_chars)) {
            return Err("Invalid font preference");
        }
        if self.font_preset == 5 && crate::text::trim_chars(&font_chars).len() == 0 {
            return Err("Enter a custom font name");
        }
        if !text_ok(self.shell.as_str(), 4096) {
            return Err("Invalid shell preference");
        }
        let mut i: usize = 0;
        while i < 9
            invariant
                i <= 9,
                self.bindings@.len() == 9,
                settings_error(*self) == bindings_error(self.bindings@, 0),
                bindings_error(self.bindings@, 0) == bindings_error(self.bindings@, i as int),
            decreases 9 - i,
        {
            let b = &self.bindings[i];
            match b.validate() {
                Err(e) => {
                    return Err(e);
                },
                Ok(()) => {},
            }
            let mut j: usize = 0;
            while j < i
                invariant
                    j <= i < 9,
                    self.bindings@.len() == 9,
                    *b == self.bindings@[i as int],
                    binding_error(*b) is None,
                    settings_error(*self) == bindings_error(self.bindings@, 0),
                    bindings_error(self.bindings@, 0) == bindings_error(self.bindings@, i as int),
                    forall|k: int| 0 <= k < j ==> !same_binding(#[trigger] self.bindings@[k], *b),
                decreases i - j,
            {
                if self.bindings[j].same(b) {
                    return Err("Shortcut is already assigned");
                }
                j += 1;
            }
            i += 1;
        }
        Ok(())
    }

    /// The font family on Windows or elsewhere.
    pub fn font_family_on(&self, windows: bool) -> (r: &str)
        ensures
            r@ == font_family_for(*self, windows),
    {
        if self.font_preset == 0 {
            if windows {
                "Consolas"
            } else {
                "DejaVu Sans Mono"
            }
        } else if self.font_preset == 5 {
            crate::text::trim_str(self.custom_font.as_str())
        } else if self.font_preset < 6 {
            FONT_PRESETS[self.font_preset]
        } else {
            "monospace"
        }
    }

    /// The font family used for terminal text on this platform.
    pub fn font_family(&self) -> (r: &str)
        ensures
            r@ == font_family_for(*self, true) || r@ == font_family_for(*self, false),
    {
        self.font_family_on(backslash_separates())
    }

    /// Assigns shortcut `index`, refusing invalid or duplicate shortcuts.
    pub fn rebind(&mut self, index: usize, binding: Binding) -> (r: Result<(), &'static str>)
        ensures
            match r {
                Ok(()) => rebind_error(*old(self), index as int, binding) is None && with_binding(
                    *old(self),
                    *final(self),
                    index as int,
                    binding,
                ),
                Err(e) => rebind_error(*old(self), index as int, binding) == Some(e) && *final(self) == *old(
                    self,
                ),
            },
    {
        if index >= 9 {
            return Err("Unknown shortcut action");
        }
        match binding.validate() {
            Err(e) => {
                return Err(e);
            },
            Ok(()) => {},
        }
        let mut i: usize = 0;
        while i < 9
            invariant
                i <= 9,
                index < 9,
                self.bindings@.len() == 9,
                *self == *old(self),
                binding_error(binding) is None,
                forall|k: int| 0 <= k < i && k != index ==> !same_binding(#[trigger] self.bindings@[k], binding),
            decreases 9 - i,
        {
            if i != index && self.bindings[i].same(&binding) {
                return Err("Shortcut is already assigned");
            }
            i += 1;
        }
        self.bindings[index] = binding;
        Ok(())
    }
}

/// Shortcuts to add to a stored list of `count` shortcuts: files written
/// before the terminal actions existed hold six, and gain the last three
/// defaults.
pub fn migrated_bindings(count: usize) -> (r: Vec<Binding>)
    ensures
        count == 6 ==> r@.len() == 3 && forall|i: int| 0 <= i < 3 ==> is_default_binding(#[trigger] r@[i], i + 6),
        count != 6 ==> r@.len() == 0,
{
    let mut out: Vec<Binding> = Vec::new();
    if count == 6 {
        out.push(default_binding(6));
        out.push(default_binding(7));
        out.push(default_binding(8));
    }
    out
}

/// Checks the size of a settings file before it is parsed.
pub fn check_settings_size(len: usize) -> (r: Result<(), &'static str>)
    ensures
        r is Ok <==> len <= MAX_SETTINGS_BYTES,
        r matches Err(e) ==> e@ == "Settings file exceeds 64 KiB"@,
{
    if len > MAX_SETTINGS_BYTES {
        return Err("Settings file exceeds 64 KiB");
    }
    Ok(())
}

#[verifier::external_type_specification]
#[verifier::external_body]
pub struct ExPathBuf(std::path::PathBuf);

/// Where the preferences are stored.
pub struct SettingsStore {
    path: std::path::PathBuf,
}

impl SettingsStore {
    /// The settings file.
    pub closed spec fn location(&self) -> std::path::PathBuf {
        self.path
    }

    pub fn new(path: std::path::PathBuf) -> (r: Self)
        ensures
            r.location() == path,
    {
        Self { path }
    }

    /// The settings file.
    pub fn path(&self) -> (r: &std::path::PathBuf)
        ensures
            *r == self.location(),
    {
        &self.path
    }
}

/// Every shortcut from index `i` on can be assigned and repeats no earlier one.
pub open spec fn bindings_ok_from(bs: Seq<Binding>, i: int) -> bool {
    forall|k: int|
        i <= k < bs.len() ==> binding_error(#[trigger] bs[k]) is None && forall|j: int|
            0 <= j < k ==> !same_binding(#[trigger] bs[j], bs[k])
}

pub proof fn lemma_bindings_ok(bs: Seq<Binding>, i: int)
    requires
        0 <= i <= bs.len(),
    ensures
        (bindings_error(bs, i) is None) == bindings_ok_from(bs, i),
    decreases bs.len() - i,
{
    if i < bs.len() {
        lemma_bindings_ok(bs, i + 1);
        if bindings_ok_from(bs, i) {
            assert(binding_error(bs[i]) is None);
            assert(!exists|j: int| 0 <= j < i && same_binding(#[trigger] bs[j], bs[i]));
        }
    }
}

/// A successful rebind keeps valid settings valid: every shortcut stays
/// assignable and no two actions share one.
pub proof fn law_rebind_keeps_settings_valid(s: Settings, after: Settings, index: int, b: Binding)
    requires
        s.bindings@.len() == 9,
        settings_error(s) is None,
        rebind_error(s, index, b) is None,
        with_binding(s, after, index, b),
    ensures
        settings_error(after) is None,
{
    let bs = s.bindings@;
    let us = after.bindings@;
    lemma_bindings_ok(bs, 0);
    assert forall|k: int| 0 <= k < us.len() implies binding_error(#[trigger] us[k]) is None && forall|j: int|
        0 <= j < k ==> !same_binding(#[trigger] us[j], us[k]) by {
        if k == index {
            assert(us[k] == b);
            assert forall|j: int| 0 <= j < k implies !same_binding(#[trigger] us[j], us[k]) by {
                assert(us[j] == bs[j]);
            }
        } else {
            assert(us[k] == bs[k]);
            assert forall|j: int| 0 <= j < k implies !same_binding(#[trigger] us[j], us[k]) by {
                if j == index {
                    assert(us[j] == b);
                    assert(!same_binding(bs[k], b));
                } else {
                    assert(us[j] == bs[j]);
                }
            }
        }
    }
    lemma_bindings_ok(us, 0);
}

proof fn lemma_default_keys()
    ensures
        forall|i: int|
            0 <= i < 9 ==> {
                let k = #[trigger] default_key(i);
                &&& k.len() > 0
                &&& utf8_len(k) <= 32
                &&& !has_control(k)
                &&& !unassignable(k)
                &&& !reserved_with_shift(k)
                &&& !reserved_with_ctrl(k)
            },
        forall|i: int, j: int|
            0 <= j < i < 9 && default_key(i) == default_key(j) ==> (i == 4 && j == 0) || (i == 5 && j == 1),
{
    reveal_strlit("left");
    reveal_strlit("right");
    reveal_strlit("up");
    reveal_strlit("down");
    reveal_strlit("n");
    reveal_strlit("d");
    reveal_strlit("t");
    reveal_strlit("escape");
    reveal_strlit("control");
    reveal_strlit("shift");
    reveal_strlit("alt");
    reveal_strlit("super");
    reveal_strlit("cmd");
    reveal_strlit("f");
    reveal_strlit("o");
    reveal_strlit("w");
    reveal_strlit("tab");
    reveal_strlit("c");
    reveal_strlit("v");
    reveal_strlit(",");
    reveal_strlit("+");
    reveal_strlit("=");
    reveal_strlit("-");
    reveal_strlit("0");
    assert forall|i: int| 0 <= i < 9 implies {
        let k = #[trigger] default_key(i);
        &&& k.len() > 0
        &&& utf8_len(k) <= 32
        &&& !has_control(k)
        &&& !unassignable(k)
        &&& !reserved_with_shift(k)
        &&& !reserved_with_ctrl(k)
    } by {
        let k = default_key(i);
        assert(vstd::utf8::is_ascii_chars(k));
        vstd::utf8::is_ascii_chars_encode_utf8(k);
        assert(k.len() <= 5);
        assert(!has_control(k));
        if k.len() == 1 {
            assert(k != "f"@ && k != "o"@ && k != "w"@ && k != "c"@ && k != "v"@) by {
                assert(k[0] != 'f' && k[0] != 'o' && k[0] != 'w' && k[0] != 'c' && k[0] != 'v');
            }
            assert(k != ","@ && k != "+"@ && k != "="@ && k != "-"@ && k != "0"@) by {
                assert(k[0] != ',' && k[0] != '+' && k[0] != '=' && k[0] != '-' && k[0] != '0');
            }
        }
    }
    assert forall|i: int, j: int|
        0 <= j < i < 9 && default_key(i) == default_key(j) implies (i == 4 && j == 0) || (i == 5 && j == 1) by {
        let a = default_key(i);
        let b = default_key(j);
        if a.len() == b.len() && a.len() == 1 {
            assert(a[0] == b[0]);
        }
        if a.len() == b.len() && a.len() == 2 {
            assert(a[0] == b[0]);
        }
        if a.len() == b.len() && a.len() == 4 {
            assert(a[0] == b[0]);
        }
    }
}

/// The default settings are valid: bounds, fonts, shell and every default
/// shortcut pass the checks, and no two actions share a shortcut.
pub proof fn law_defaults_are_valid(s: Settings, windows: bool)
    requires
        is_default_settings(s, shell_id_for(windows)),
    ensures
        settings_error(s) is None,
{
    reveal_strlit("windows-default");
    reveal_strlit("unix-default");
    let shell = shell_id_for(windows);
    assert(vstd::utf8::is_ascii_chars(shell));
    vstd::utf8::is_ascii_chars_encode_utf8(shell);
    assert(!has_control(shell));
    assert(vstd::utf8::encode_utf8(s.custom_font@).len() == 0) by {
        assert(s.custom_font@ =~= Seq::<char>::empty());
        vstd::utf8::is_ascii_chars_encode_utf8(s.custom_font@);
    }
    assert(SCROLLBACK@[0] == 1000);
    lemma_default_keys();
    let bs = s.bindings@;
    assert forall|k: int| 0 <= k < bs.len() implies binding_error(#[trigger] bs[k]) is None && forall|j: int|
        0 <= j < k ==> !same_binding(#[trigger] bs[j], bs[k]) by {
        assert(is_default_binding(bs[k], k));
        let key = default_key(k);
        assert(!unassignable(key) && !reserved_with_shift(key) && !reserved_with_ctrl(key));
        assert forall|j: int| 0 <= j < k implies !same_binding(#[trigger] bs[j], bs[k]) by {
            assert(is_default_binding(bs[j], j));
        }
    }
    lemma_bindings_ok(bs, 0);
}

} // verus!
