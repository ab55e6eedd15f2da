//! The screen model handed to the interface, and the rules that turn the
//! terminal parser's state into it: colors, underline and cursor styles,
//! mouse modes, titles and selection points. The parser itself lives
//! outside the library.
use vstd::prelude::*;
use crate::mouse::{Encoding, MouseMode, Tracking};
use crate::TerminalSize;

verus! {

/// Characters kept of an application title.
pub const MAX_TITLE_CHARS: usize = 200;

/// Largest scrollback the terminal keeps.
pub const MAX_SCROLLBACK: usize = 10000;

/// Cursor style requested by the application via DECSCUSR.
#[derive(Clone, Copy, Debug, PartialEq, Eq, Structural)]
pub enum CursorStyle {
    Block,
    Underline,
    Beam,
    HollowBlock,
}

/// Underline decoration requested via SGR 4/21.
#[derive(Clone, Copy, Debug, PartialEq, Eq, Structural)]
pub enum UnderlineKind {
    Single,
    Double,
    Curly,
    Dotted,
    Dashed,
}

#[derive(Clone, Debug)]
pub struct Cell {
    pub text: String,
    pub column: usize,
    pub row: usize,
    pub width: usize,
    pub foreground: u32,
    pub background: u32,
    pub bold: bool,
    pub italic: bool,
    pub underline: Option<UnderlineKind>,
    pub strikeout: bool,
    pub selected: bool,
}

#[derive(Clone, Copy, Debug, PartialEq, Eq, Structural)]
pub struct Cursor {
    pub column: usize,
    pub row: usize,
    pub style: CursorStyle,
}

#[derive(Clone, Debug)]
pub struct Snapshot {
    pub size: TerminalSize,
    pub cells: Vec<Cell>,
    pub cursor: Option<Cursor>,
    pub application_cursor: bool,
    pub bracketed_paste: bool,
    pub focus_reporting: bool,
    pub mouse: MouseMode,
    pub display_offset: usize,
    /// Application-provided title (OSC 0/2), already length-capped.
    pub title: Option<String>,
}

/// The text attributes of one parsed cell.
#[derive(Clone, Copy, Debug, Default, PartialEq, Eq, Structural)]
pub struct CellFlags {
    pub underline: bool,
    pub double_underline: bool,
    pub undercurl: bool,
    pub dotted_underline: bool,
    pub dashed_underline: bool,
    pub inverse: bool,
    pub dim: bool,
    pub hidden: bool,
}

/// The underline style of a cell; a plain underline wins over the others.
pub open spec fn underline_of(f: CellFlags) -> Option<UnderlineKind> {
    if f.underline {
        Some(UnderlineKind::Single)
    } else if f.double_underline {
        Some(UnderlineKind::Double)
    } else if f.undercurl {
        Some(UnderlineKind::Curly)
    } else if f.dotted_underline {
        Some(UnderlineKind::Dotted)
    } else if f.dashed_underline {
        Some(UnderlineKind::Dashed)
    } else {
        None
    }
}

pub fn underline_kind(flags: &CellFlags) -> (r: Option<UnderlineKind>)
    ensures
        r == underline_of(*flags),
{
    if flags.underline {
        Some(UnderlineKind::Single)
    } else if flags.double_underline {
        Some(UnderlineKind::Double)
    } else if flags.undercurl {
        Some(UnderlineKind::Curly)
    } else if flags.dotted_underline {
        Some(UnderlineKind::Dotted)
    } else if flags.dashed_underline {
        Some(UnderlineKind::Dashed)
    } else {
        None
    }
}

/// An application title kept to its first characters.
pub fn truncate_title(title: String) -> (r: String)
    ensures
        r@ == (if title@.len() > MAX_TITLE_CHARS {
            title@.take(MAX_TITLE_CHARS as int)
        } else {
            title@
        }),
{
    let chars = crate::text::chars_of(title.as_str());
    if chars.len() <= MAX_TITLE_CHARS {
        return title;
    }
    let mut kept: Vec<char> = Vec::new();
    let mut i: usize = 0;
    while i < MAX_TITLE_CHARS
        invariant
            i <= MAX_TITLE_CHARS < chars@.len(),
            kept@ == chars@.take(i as int),
        decreases MAX_TITLE_CHARS - i,
    {
        kept.push(chars[i]);
        i += 1;
        proof {
            assert(kept@ =~= chars@.take(i as int));
        }
    }
    crate::text::string_from_chars(&kept)
}

/// A color as `0xRRGGBB`.
pub open spec fn rgb_value(r: u8, g: u8, b: u8) -> u32 {
    ((r as int) * 65536 + (g as int) * 256 + (b as int)) as u32
}

pub fn rgb(r: u8, g: u8, b: u8) -> (v: u32)
    ensures
        v == rgb_value(r, g, b),
{
    (r as u32) * 65536 + (g as u32) * 256 + (b as u32)
}

/// The red, green and blue parts of `0xRRGGBB`.
pub fn rgb_parts(v: u32) -> (r: (u8, u8, u8))
    requires
        v < 0x1000000,
    ensures
        rgb_value(r.0, r.1, r.2) == v,
{
    let red = (v / 65536) as u8;
    let green = (v / 256 % 256) as u8;
    let blue = (v % 256) as u8;
    proof {
        red_green_blue(v);
    }
    (red, green, blue)
}

proof fn red_green_blue(v: u32)
    requires
        v < 0x1000000,
    ensures
        rgb_value((v / 65536) as u8, (v / 256 % 256) as u8, (v % 256) as u8) == v,
{
    assert(v == (v / 65536) * 65536 + (v / 256 % 256) * 256 + v % 256) by (nonlinear_arith)
        requires
            v < 0x1000000,
    ;
}

/// The sixteen ANSI colors of the dark theme.
pub open spec fn ansi(i: int) -> u32 {
    if i == 0 {
        0x24211d
    } else if i == 1 {
        0xff7e68
    } else if i == 2 {
        0x5ee6a8
    } else if i == 3 {
        0xe6c56f
    } else if i == 4 {
        0x56a8ff
    } else if i == 5 {
        0xf778ff
    } else if i == 6 {
        0x42d9ff
    } else if i == 7 {
        0xe6e1d8
    } else if i == 8 {
        0x928879
    } else if i == 9 {
        0xff9b89
    } else if i == 10 {
        0x8ff0c4
    } else if i == 11 {
        0xf2d98f
    } else if i == 12 {
        0x8fc7ff
    } else if i == 13 {
        0xffadff
    } else if i == 14 {
        0x8be9ff
    } else {
        0xfffaf0
    }
}

/// One channel of the 6x6x6 color cube.
pub open spec fn cube_component(n: int) -> int {
    if n == 0 {
        0
    } else {
        55 + n * 40
    }
}

/// A color at half intensity.
pub open spec fn dim_value(color: u32) -> u32 {
    (color & 0xfefefe) >> 1
}

/// The default color of palette entry `index`: ANSI colors, the color cube,
/// the gray ramp, the theme's background and cursor, and dim ANSI colors.
pub open spec fn default_palette(index: int) -> u32 {
    if 0 <= index <= 15 {
        ansi(index)
    } else if 16 <= index <= 231 {
        let n = index - 16;
        (cube_component(n / 36) * 65536 + cube_component(n / 6 % 6) * 256 + cube_component(n % 6)) as u32
    } else if 232 <= index <= 255 {
        let n = 8 + (index - 232) * 10;
        (n * 65536 + n * 256 + n) as u32
    } else if index == 257 {
        0x191816
    } else if index == 258 {
        0xc6a66b
    } else if 259 <= index <= 266 {
        dim_value(ansi(index - 259))
    } else {
        0xe6e1d8
    }
}

/// The color of palette entry `index`: the parser's configured color when
/// it has one, else the default.
pub open spec fn palette_color(index: int, configured: Option<u32>) -> u32 {
    match configured {
        Some(v) => if index < 269 {
            v
        } else {
            default_palette(index)
        },
        None => default_palette(index),
    }
}

fn ansi_color(i: usize) -> (r: u32)
    requires
        i < 16,
    ensures
        r == ansi(i as int),
{
    let table: [u32; 16] = [
        0x24211d,
        0xff7e68,
        0x5ee6a8,
        0xe6c56f,
        0x56a8ff,
        0xf778ff,
        0x42d9ff,
        0xe6e1d8,
        0x928879,
        0xff9b89,
        0x8ff0c4,
        0xf2d98f,
        0x8fc7ff,
        0xffadff,
        0x8be9ff,
        0xfffaf0,
    ];
    table[i]
}

fn component(n: usize) -> (r: usize)
    requires
        n < 6,
    ensures
        r == cube_component(n as int),
        r < 256,
{
    if n == 0 {
        0
    } else {
        55 + n * 40
    }
}

pub fn dimmed(color: u32) -> (r: u32)
    ensures
        r == dim_value(color),
{
    (color & 0xfefefe) >> 1
}

/// The color of palette entry `index`, given the color the parser has
/// configured for it, if any.
pub fn palette(index: usize, configured: Option<u32>) -> (r: u32)
    ensures
        r == palette_color(index as int, configured),
{
    if index < 269 {
        if let Some(v) = configured {
            return v;
        }
    }
    if index <= 15 {
        ansi_color(index)
    } else if index <= 231 {
        let n = index - 16;
        let c1 = component(n / 36);
        let c2 = component(n / 6 % 6);
        let c3 = component(n % 6);
        (c1 * 65536 + c2 * 256 + c3) as u32
    } else if index <= 255 {
        let n = (8 + (index - 232) * 10) as u32;
        n * 65536 + n * 256 + n
    } else if index == 257 {
        0x191816
    } else if index == 258 {
        0xc6a66b
    } else if 259 <= index && index <= 266 {
        dimmed(ansi_color(index - 259))
    } else {
        0xe6e1d8
    }
}

/// Foreground and background of a cell after inverse video and dimming.
pub open spec fn shown_colors(fg: u32, bg: u32, f: CellFlags) -> (u32, u32) {
    let (a, b) = if f.inverse {
        (bg, fg)
    } else {
        (fg, bg)
    };
    (if f.dim {
        dim_value(a)
    } else {
        a
    }, b)
}

pub fn cell_colors(foreground: u32, background: u32, flags: &CellFlags) -> (r: (u32, u32))
    ensures
        r == shown_colors(foreground, background, *flags),
{
    let (mut fg, bg) = if flags.inverse {
        (background, foreground)
    } else {
        (foreground, background)
    };
    if flags.dim {
        fg = dimmed(fg);
    }
    (fg, bg)
}

/// The mouse mode an application requested: the most detailed tracking
/// and the preferred encoding among those it enabled.
pub open spec fn requested_mouse(motion: bool, drag: bool, click: bool, sgr: bool, utf8: bool) -> MouseMode {
    MouseMode {
        tracking: if motion {
            Tracking::Motion
        } else if drag {
            Tracking::Drag
        } else if click {
            Tracking::Click
        } else {
            Tracking::Off
        },
        encoding: if sgr {
            Encoding::Sgr
        } else if utf8 {
            Encoding::Utf8
        } else {
            Encoding::Legacy
        },
    }
}

pub fn mouse_mode(motion: bool, drag: bool, click: bool, sgr: bool, utf8: bool) -> (r: MouseMode)
    ensures
        r == requested_mouse(motion, drag, click, sgr, utf8),
{
    let tracking = if motion {
        Tracking::Motion
    } else if drag {
        Tracking::Drag
    } else if click {
        Tracking::Click
    } else {
        Tracking::Off
    };
    let encoding = if sgr {
        Encoding::Sgr
    } else if utf8 {
        Encoding::Utf8
    } else {
        Encoding::Legacy
    };
    MouseMode { tracking, encoding }
}

/// The screen row of a parser line at this scroll offset, when visible.
pub open spec fn visible_row(line: int, offset: int, rows: int) -> Option<int> {
    let row = line + offset;
    if 0 <= row < rows {
        Some(row)
    } else {
        None
    }
}

pub fn screen_row(line: i32, display_offset: usize, rows: u16) -> (r: Option<usize>)
    ensures
        r matches Some(row) ==> visible_row(line as int, display_offset as int, rows as int) == Some(row as int),
        r is None ==> visible_row(line as int, display_offset as int, rows as int) is None,
{
    if line >= 0 {
        let l = line as usize;
        if l < rows as usize && display_offset < rows as usize - l {
            return Some(l + display_offset);
        }
        None
    } else {
        let back = (0 - (line as i64)) as usize;
        if display_offset >= back && display_offset - back < rows as usize {
            return Some(display_offset - back);
        }
        None
    }
}

/// The cursor shown: none when hidden or scrolled out of view.
pub fn visible_cursor(hidden: bool, column: usize, line: i32, display_offset: usize, rows: u16, style: CursorStyle) -> (r:
    Option<Cursor>)
    ensures
        r matches Some(c) ==> !hidden && visible_row(line as int, display_offset as int, rows as int) == Some(
            c.row as int,
        ) && c.column == column && c.style == style,
        r is None ==> hidden || visible_row(line as int, display_offset as int, rows as int) is None,
{
    if hidden {
        return None;
    }
    match screen_row(line, display_offset, rows) {
        Some(row) => Some(Cursor { column, row, style }),
        None => None,
    }
}

/// The parser position of a screen point, clamped to the screen: the line
/// counts from the top of the live screen, the column from the left.
pub open spec fn selection_position(point: (usize, usize), size: TerminalSize, offset: int) -> (int, int) {
    let (column, row) = point;
    let r = if row < size.rows - 1 {
        row as int
    } else {
        size.rows - 1
    };
    let c = if column < size.columns - 1 {
        column as int
    } else {
        size.columns - 1
    };
    (r - offset, c)
}

pub fn selection_point(point: (usize, usize), size: TerminalSize, display_offset: usize) -> (r: (i64, usize))
    requires
        size.rows >= 1,
        size.columns >= 1,
        display_offset <= i32::MAX,
    ensures
        (r.0 as int, r.1 as int) == selection_position(point, size, display_offset as int),
{
    let (column, row) = point;
    let last_row = size.rows as usize - 1;
    let last_column = size.columns as usize - 1;
    let r = if row < last_row {
        row
    } else {
        last_row
    };
    let c = if column < last_column {
        column
    } else {
        last_column
    };
    ((r as i64) - (display_offset as i64), c)
}

/// The scrollback kept for a requested number of lines.
pub fn scrollback_lines(lines: usize) -> (r: usize)
    ensures
        r == (if lines < MAX_SCROLLBACK {
            lines
        } else {
            MAX_SCROLLBACK
        }),
{
    if lines < MAX_SCROLLBACK {
        lines
    } else {
        MAX_SCROLLBACK
    }
}

impl Snapshot {
    /// The snapshot of a session whose shell exited: final output stays
    /// visible, but no mouse, focus or cursor interaction is offered.
    pub fn without_interaction(self) -> (r: Snapshot)
        ensures
            r.mouse.tracking == Tracking::Off && r.mouse.encoding == Encoding::Legacy,
            !r.focus_reporting,
            r.cursor is None,
            r.size == self.size,
            r.cells == self.cells,
            r.application_cursor == self.application_cursor,
            r.bracketed_paste == self.bracketed_paste,
            r.display_offset == self.display_offset,
            r.title == self.title,
    {
        Snapshot {
            mouse: MouseMode { tracking: Tracking::Off, encoding: Encoding::Legacy },
            focus_reporting: false,
            cursor: None,
            ..self
        }
    }
}

/// Lines joined by `\n`, each without trailing whitespace.
pub open spec fn screen_text_of(lines: Seq<Seq<char>>) -> Seq<char>
    decreases lines.len(),
{
    if lines.len() == 0 {
        Seq::empty()
    } else if lines.len() == 1 {
        trim_end_chars(lines[0])
    } else {
        screen_text_of(lines.drop_last()) + seq!['\n'] + trim_end_chars(lines.last())
    }
}

/// `str::trim_end`.
pub open spec fn trim_end_chars(s: Seq<char>) -> Seq<char> {
    s.take(s.len() - crate::text::trailing_space(s))
}

fn trim_end_of(s: &[char]) -> (r: Vec<char>)
    ensures
        r@ == trim_end_chars(s@),
{
    let mut end: usize = s.len();
    proof {
        assert(s@.take(s@.len() as int) =~= s@);
    }
    while end > 0 && crate::text::whitespace(s[end - 1])
        invariant
            end <= s@.len(),
            crate::text::trailing_space(s@) == (s@.len() - end) + crate::text::trailing_space(s@.take(end as int)),
        decreases end,
    {
        proof {
            assert(s@.take(end as int).drop_last() =~= s@.take(end - 1));
        }
        end -= 1;
    }
    proof {
        assert(s@.take(end as int).len() == 0 || !crate::text::is_whitespace(s@.take(end as int).last()));
    }
    let mut out: Vec<char> = Vec::new();
    let mut i: usize = 0;
    while i < end
        invariant
            i <= end <= s@.len(),
            out@ == s@.take(i as int),
        decreases end - i,
    {
        out.push(s[i]);
        i += 1;
        proof {
            assert(out@ =~= s@.take(i as int));
        }
    }
    out
}

/// The live screen as text: rows without trailing whitespace, joined by
/// newlines.
pub fn screen_text(rows: &Vec<String>) -> (r: String)
    ensures
        r@ == screen_text_of(rows@.map_values(|s: String| s@)),
{
    let mut out: Vec<char> = Vec::new();
    let mut i: usize = 0;
    let ghost lines = rows@.map_values(|s: String| s@);
    while i < rows.len()
        invariant
            i <= rows@.len(),
            lines == rows@.map_values(|s: String| s@),
            out@ == screen_text_of(lines.take(i as int)),
        decreases rows@.len() - i,
    {
        let line = trim_end_of(&crate::text::chars_of(rows[i].as_str()));
        let ghost before = out@;
        if i > 0 {
            out.push('\n');
        }
        let mut j: usize = 0;
        let ghost base = out@;
        while j < line.len()
            invariant
                j <= line@.len(),
                out@ == base + line@.take(j as int),
            decreases line@.len() - j,
        {
            out.push(line[j]);
            j += 1;
            proof {
                assert(out@ =~= base + line@.take(j as int));
            }
        }
        proof {
            assert(line@.take(line@.len() as int) =~= line@);
            assert(lines.take(i + 1).drop_last() =~= lines.take(i as int));
            assert(lines.take(i + 1).last() == rows@[i as int]@);
            if i == 0 {
                assert(out@ =~= line@);
            } else {
                assert(out@ =~= before + seq!['\n'] + line@);
            }
        }
        i += 1;
    }
    proof {
        assert(lines.take(rows@.len() as int) =~= lines);
    }
    crate::text::string_from_chars(&out)
}

} // verus!
