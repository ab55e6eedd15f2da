//! Rules of the native interface that need no window system: the shaped
//! text cache, the theme's color mapping, which characters are drawn as
//! box graphics, which links open in a browser, and the messages exchanged
//! between views.
use vstd::prelude::*;
use crate::settings::{Appearance, Settings, SettingsStore};

verus! {

/// Whether this character is drawn as box graphics instead of by the font:
/// box drawing, block elements and the powerline triangles.
pub open spec fn drawn_char(c: char) -> bool {
    let code = c as u32;
    (0x2500 <= code <= 0x259F) || (0xE0B0 <= code <= 0xE0B3)
}

pub fn is_drawn(ch: char) -> (r: bool)
    ensures
        r == drawn_char(ch),
{
    let code = ch as u32;
    (0x2500 <= code && code <= 0x259F) || (0xE0B0 <= code && code <= 0xE0B3)
}

/// Links that open in the system browser.
pub open spec fn web_link(link: Seq<char>) -> bool {
    crate::document::has_prefix(link, "http://"@) || crate::document::has_prefix(link, "https://"@)
}

pub fn is_web_link(link: &str) -> (r: bool)
    ensures
        r == web_link(link@),
{
    let chars = crate::text::chars_of(link);
    crate::document::starts_with_chars(&chars, &crate::text::chars_of("http://"))
        || crate::document::starts_with_chars(&chars, &crate::text::chars_of("https://"))
}

/// Ask the workspace to open a file in a viewer pane.
pub struct OpenInPane(pub String);

/// What the settings view starts from.
pub struct Setup {
    pub store: SettingsStore,
    pub shells: Vec<(String, String)>,
    pub error: Option<String>,
}

/// The settings view saved new preferences.
pub struct Saved(pub Settings);

/// The settings view closed.
pub struct Closed;

/// The preferences in effect.
pub struct Preferences(pub Settings);

impl Default for Preferences {
    fn default() -> (r: Self)
        ensures
            crate::settings::is_default_settings(r.0, crate::settings::shell_id_for(true))
                || crate::settings::is_default_settings(r.0, crate::settings::shell_id_for(false)),
    {
        Preferences(Settings::default())
    }
}

/// Colors of the native chrome: the dark theme, mapped for light and
/// graphite appearances.
#[derive(Clone, Copy, Debug, PartialEq, Eq, Structural)]
pub struct Palette {
    light: bool,
    graphite: bool,
    stacked: bool,
}

/// The light-theme counterpart of a dark-theme color.
pub open spec fn light_color(dark: u32) -> u32 {
    if dark == 0x191816 {
        0xfaf8f4
    } else if dark == 0x151411 {
        0xeee8de
    } else if dark == 0x777165 {
        0x756a5b
    } else if dark == 0x201f1c {
        0xf0ece5
    } else if dark == 0x24231f {
        0xeae5dc
    } else if dark == 0x2b2923 || dark == 0x2a2824 {
        0xeee8de
    } else if dark == 0x343027 || dark == 0x393328 {
        0xe6d9c2
    } else if dark == 0x39352e || dark == 0x302d27 {
        0xd8d0c3
    } else if dark == 0x544936 || dark == 0x8c754e {
        0xa38b61
    } else if dark == 0xe6e1d8 {
        0x302b23
    } else if dark == 0xbab1a1 {
        0x655b4d
    } else if dark == 0x9b958a {
        0x756a5b
    } else if dark == 0xc6a66b {
        0x89682e
    } else if dark == 0xe8aa82 {
        0x984a27
    } else {
        dark
    }
}

/// The graphite counterpart of a dark-theme color.
pub open spec fn graphite_color(dark: u32) -> u32 {
    if dark == 0x191816 {
        0x181818
    } else if dark == 0x151411 {
        0x141414
    } else if dark == 0x201f1c {
        0x202020
    } else if dark == 0x24231f {
        0x242424
    } else if dark == 0x2b2923 || dark == 0x2a2824 {
        0x282828
    } else if dark == 0x343027 || dark == 0x393328 {
        0x303030
    } else if dark == 0x39352e || dark == 0x302d27 {
        0x383838
    } else if dark == 0x544936 || dark == 0x8c754e {
        0x4a4a4a
    } else if dark == 0xe6e1d8 {
        0xe4e4e4
    } else if dark == 0xbab1a1 {
        0xb0b0b0
    } else if dark == 0x9b958a || dark == 0x777165 {
        0x858585
    } else if dark == 0xc6a66b {
        0xd79a54
    } else if dark == 0xe8aa82 {
        0xe28b74
    } else {
        dark
    }
}

impl Palette {
    pub closed spec fn is_light(self) -> bool {
        self.light
    }

    pub closed spec fn is_graphite(self) -> bool {
        self.graphite
    }

    pub closed spec fn is_stacked(self) -> bool {
        self.stacked
    }

    /// The palette for an appearance; the system appearance follows the
    /// window's. `stacked` lays panels out vertically in narrow windows.
    pub fn new(appearance: Appearance, system_light: bool, stacked: bool) -> (r: Self)
        ensures
            r.is_light() == (appearance == Appearance::Light || (appearance == Appearance::System && system_light)),
            r.is_graphite() == (appearance == Appearance::Graphite),
            r.is_stacked() == stacked,
    {
        let light = match appearance {
            Appearance::Light => true,
            Appearance::Dark | Appearance::Graphite => false,
            Appearance::System => system_light,
        };
        let graphite = match appearance {
            Appearance::Graphite => true,
            _ => false,
        };
        Palette { light, graphite, stacked }
    }

    pub fn stacked(self) -> (r: bool)
        ensures
            r == self.is_stacked(),
    {
        self.stacked
    }

    /// The color to paint for a dark-theme color.
    pub fn color(self, dark: u32) -> (r: u32)
        ensures
            r == (if self.is_light() {
                light_color(dark)
            } else if self.is_graphite() {
                graphite_color(dark)
            } else {
                dark
            }),
    {
        if self.light {
            if dark == 0x191816 {
                0xfaf8f4
            } else if dark == 0x151411 {
                0xeee8de
            } else if dark == 0x777165 {
                0x756a5b
            } else if dark == 0x201f1c {
                0xf0ece5
            } else if dark == 0x24231f {
                0xeae5dc
            } else if dark == 0x2b2923 || dark == 0x2a2824 {
                0xeee8de
            } else if dark == 0x343027 || dark == 0x393328 {
                0xe6d9c2
            } else if dark == 0x39352e || dark == 0x302d27 {
                0xd8d0c3
            } else if dark == 0x544936 || dark == 0x8c754e {
                0xa38b61
            } else if dark == 0xe6e1d8 {
                0x302b23
            } else if dark == 0xbab1a1 {
                0x655b4d
            } else if dark == 0x9b958a {
                0x756a5b
            } else if dark == 0xc6a66b {
                0x89682e
            } else if dark == 0xe8aa82 {
                0x984a27
            } else {
                dark
            }
        } else if self.graphite {
            if dark == 0x191816 {
                0x181818
            } else if dark == 0x151411 {
                0x141414
            } else if dark == 0x201f1c {
                0x202020
            } else if dark == 0x24231f {
                0x242424
            } else if dark == 0x2b2923 || dark == 0x2a2824 {
                0x282828
            } else if dark == 0x343027 || dark == 0x393328 {
                0x303030
            } else if dark == 0x39352e || dark == 0x302d27 {
                0x383838
            } else if dark == 0x544936 || dark == 0x8c754e {
                0x4a4a4a
            } else if dark == 0xe6e1d8 {
                0xe4e4e4
            } else if dark == 0xbab1a1 {
                0xb0b0b0
            } else if dark == 0x9b958a || dark == 0x777165 {
                0x858585
            } else if dark == 0xc6a66b {
                0xd79a54
            } else if dark == 0xe8aa82 {
                0xe28b74
            } else {
                dark
            }
        } else {
            dark
        }
    }
}

} // verus!
