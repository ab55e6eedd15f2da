//! How the cells of a terminal screen are grouped for drawing: box-drawing
//! cells are drawn as graphics on their own, and the other cells of a row
//! join into runs of one style that are shaped together, each cell giving
//! one glyph so the glyphs stay on the cell grid.
use vstd::prelude::*;
use crate::terminal::{Cell, UnderlineKind};
use crate::text::{chars_of, is_whitespace, string_from_chars, whitespace};
use crate::ui::{drawn_char, is_drawn};

verus! {

/// The attributes that decide how a cell's text is shaped and decorated.
#[derive(Clone, Copy, Debug, PartialEq, Eq)]
pub struct RunStyle {
    pub foreground: u32,
    pub bold: bool,
    pub italic: bool,
    pub underline: Option<UnderlineKind>,
    pub strikeout: bool,
}

/// A stretch of cells of one row shaped together. `forced` runs are shaped
/// with every glyph one cell wide; a wide or combining cell is a run of its
/// own, shaped as it is.
#[derive(Debug)]
pub struct Run {
    pub row: usize,
    pub column: usize,
    pub cells: usize,
    pub text: String,
    pub style: RunStyle,
    pub forced: bool,
}

pub struct RunView {
    pub row: usize,
    pub column: usize,
    pub cells: nat,
    pub text: Seq<char>,
    pub style: RunStyle,
    pub forced: bool,
}

impl View for Run {
    type V = RunView;

    open spec fn view(&self) -> RunView {
        RunView {
            row: self.row,
            column: self.column,
            cells: self.cells as nat,
            text: self.text@,
            style: self.style,
            forced: self.forced,
        }
    }
}

/// A cell drawn as box graphics in its foreground color.
#[derive(Clone, Copy, Debug, PartialEq, Eq, Structural)]
pub struct DrawnCell {
    pub ch: char,
    pub row: usize,
    pub column: usize,
    pub foreground: u32,
}

/// The grouping so far: the runs finished, the cells drawn as graphics,
/// the run still open, and the row being read.
pub struct Grouping {
    pub runs: Seq<RunView>,
    pub drawn: Seq<DrawnCell>,
    pub open: Option<RunView>,
    pub row: Option<usize>,
}

pub open spec fn style_of(c: Cell) -> RunStyle {
    RunStyle {
        foreground: c.foreground,
        bold: c.bold,
        italic: c.italic,
        underline: c.underline,
        strikeout: c.strikeout,
    }
}

/// The open run, if any, is finished.
pub open spec fn flush(g: Grouping) -> Grouping {
    match g.open {
        Some(r) => Grouping { runs: g.runs.push(r), open: None, ..g },
        None => g,
    }
}

/// A cell paints nothing but its background: no underline, no strikeout,
/// and only white space.
pub open spec fn blank(c: Cell) -> bool {
    c.underline is None && !c.strikeout && forall|k: int| 0 <= k < c.text@.len() ==> is_whitespace(
        #[trigger] c.text@[k],
    )
}

/// The cell right after the open run, on its row.
pub open spec fn follows(open: RunView, c: Cell) -> bool {
    open.row == c.row && open.column + open.cells == c.column
}

/// The grouping after reading one more cell. A new row finishes the open
/// run. A box-drawing cell finishes it and is drawn on its own. A blank
/// cell extends an open run that follows it and paints nothing over it, as
/// one space; otherwise it finishes the open run and is left out. A wide or
/// combining cell finishes the open run and is a run of its own. Any other
/// cell extends an open run of its style that it follows, or starts one.
pub open spec fn group_step(g: Grouping, c: Cell) -> Grouping {
    let g1 = if g.row != Some(c.row) {
        Grouping { row: Some(c.row), ..flush(g) }
    } else {
        g
    };
    let style = style_of(c);
    if c.text@.len() > 0 && drawn_char(c.text@[0]) {
        let f = flush(g1);
        Grouping {
            drawn: f.drawn.push(DrawnCell { ch: c.text@[0], row: c.row, column: c.column, foreground: c.foreground }),
            ..f
        }
    } else if blank(c) {
        match g1.open {
            Some(a) => if follows(a, c) && a.style.underline is None && !a.style.strikeout {
                Grouping { open: Some(RunView { cells: a.cells + 1, text: a.text.push(' '), ..a }), ..g1 }
            } else {
                flush(g1)
            },
            None => g1,
        }
    } else if c.width > 1 || c.text@.len() != 1 {
        let f = flush(g1);
        Grouping {
            runs: f.runs.push(
                RunView { row: c.row, column: c.column, cells: 1, text: c.text@, style, forced: false },
            ),
            ..f
        }
    } else {
        match g1.open {
            Some(a) if follows(a, c) && a.style == style => Grouping {
                open: Some(RunView { cells: a.cells + 1, text: a.text + c.text@, ..a }),
                ..g1
            },
            _ => {
                let f = flush(g1);
                Grouping {
                    open: Some(
                        RunView { row: c.row, column: c.column, cells: 1, text: c.text@, style, forced: true },
                    ),
                    ..f
                }
            },
        }
    }
}

/// The grouping after reading `cells` in order.
pub open spec fn grouping(cells: Seq<Cell>) -> Grouping
    decreases cells.len(),
{
    if cells.len() == 0 {
        Grouping { runs: Seq::empty(), drawn: Seq::empty(), open: None, row: None }
    } else {
        group_step(grouping(cells.drop_last()), cells.last())
    }
}

/// The runs to shape, in the order they are shaped, and the cells drawn as
/// graphics, once every cell is read and the last run finished.
pub open spec fn grouped(cells: Seq<Cell>) -> (Seq<RunView>, Seq<DrawnCell>) {
    let g = flush(grouping(cells));
    (g.runs, g.drawn)
}

pub open spec fn runs_view(runs: Seq<Run>) -> Seq<RunView> {
    runs.map_values(|r: Run| r@)
}

struct OpenRun {
    row: usize,
    column: usize,
    cells: usize,
    text: Vec<char>,
    style: RunStyle,
    forced: bool,
}

spec fn open_view(o: OpenRun) -> RunView {
    RunView { row: o.row, column: o.column, cells: o.cells as nat, text: o.text@, style: o.style, forced: o.forced }
}

spec fn open_option(o: Option<OpenRun>) -> Option<RunView> {
    match o {
        Some(r) => Some(open_view(r)),
        None => None,
    }
}

fn same_style(a: RunStyle, b: RunStyle) -> (r: bool)
    ensures
        r == (a == b),
{
    let underline = match (a.underline, b.underline) {
        (None, None) => true,
        (Some(x), Some(y)) => x == y,
        _ => false,
    };
    a.foreground == b.foreground && a.bold == b.bold && a.italic == b.italic && underline && a.strikeout
        == b.strikeout
}

fn finish(runs: &mut Vec<Run>, open: Option<OpenRun>)
    ensures
        runs_view(final(runs)@) == match open_option(open) {
            Some(r) => runs_view(old(runs)@).push(r),
            None => runs_view(old(runs)@),
        },
{
    if let Some(o) = open {
        let text = string_from_chars(o.text.as_slice());
        let ghost before = runs@;
        runs.push(Run { row: o.row, column: o.column, cells: o.cells, text, style: o.style, forced: o.forced });
        proof {
            assert(runs_view(runs@) =~= runs_view(before).push(open_view(o)));
        }
    }
}

/// Groups the cells of a screen, read row by row, for drawing.
pub fn group_cells(cells: &Vec<Cell>) -> (r: (Vec<Run>, Vec<DrawnCell>))
    ensures
        (runs_view(r.0@), r.1@) == grouped(cells@),
{
    let mut runs: Vec<Run> = Vec::new();
    let mut drawn: Vec<DrawnCell> = Vec::new();
    let mut open: Option<OpenRun> = None;
    let mut row: Option<usize> = None;
    let mut i: usize = 0;
    proof {
        assert(runs_view(runs@) =~= Seq::<RunView>::empty());
        assert(cells@.take(0) =~= Seq::<Cell>::empty());
    }
    while i < cells.len()
        invariant
            i <= cells@.len(),
            (match open {
                Some(o) => o.cells <= i,
                None => true,
            }),
            grouping(cells@.take(i as int)) == (Grouping {
                runs: runs_view(runs@),
                drawn: drawn@,
                open: open_option(open),
                row,
            }),
        decreases cells@.len() - i,
    {
        let c = &cells[i];
        let ghost g = grouping(cells@.take(i as int));
        proof {
            assert(cells@.take(i + 1).drop_last() =~= cells@.take(i as int));
            assert(cells@.take(i + 1).last() == cells@[i as int]);
        }
        if row != Some(c.row) {
            let taken = open;
            open = None;
            finish(&mut runs, taken);
            row = Some(c.row);
        }
        let style = RunStyle {
            foreground: c.foreground,
            bold: c.bold,
            italic: c.italic,
            underline: c.underline,
            strikeout: c.strikeout,
        };
        let text = chars_of(c.text.as_str());
        if text.len() > 0 && is_drawn(text[0]) {
            let taken = open;
            open = None;
            finish(&mut runs, taken);
            drawn.push(DrawnCell { ch: text[0], row: c.row, column: c.column, foreground: c.foreground });
        } else {
            let mut spaces = c.underline.is_none() && !c.strikeout;
            let mut k: usize = 0;
            while k < text.len()
                invariant
                    k <= text@.len(),
                    spaces == (c.underline is None && !c.strikeout && forall|m: int|
                        0 <= m < k ==> is_whitespace(#[trigger] text@[m])),
                decreases text@.len() - k,
            {
                spaces = spaces && whitespace(text[k]);
                k += 1;
            }
            if spaces {
                let taken = open;
                open = None;
                match taken {
                    Some(a) => {
                        if a.row == c.row && c.column >= a.column && c.column - a.column == a.cells
                            && a.style.underline.is_none() && !a.style.strikeout {
                            let ghost before = a.text@;
                            let mut t = a.text;
                            t.push(' ');
                            proof {
                                assert(t@ =~= before.push(' '));
                            }
                            open = Some(OpenRun { cells: a.cells + 1, text: t, ..a });
                        } else {
                            finish(&mut runs, Some(a));
                        }
                    },
                    None => {},
                }
            } else if c.width > 1 || text.len() != 1 {
                let taken = open;
                open = None;
                finish(&mut runs, taken);
                let ghost before = runs@;
                runs.push(
                    Run { row: c.row, column: c.column, cells: 1, text: c.text.clone(), style, forced: false },
                );
                proof {
                    assert(runs_view(runs@) =~= runs_view(before).push(runs@.last()@));
                }
            } else {
                let taken = open;
                open = None;
                match taken {
                    Some(a) => {
                        if a.row == c.row && c.column >= a.column && c.column - a.column == a.cells
                            && same_style(a.style, style) {
                            let ghost before = a.text@;
                            let mut t = a.text;
                            t.push(text[0]);
                            proof {
                                assert(text@ =~= seq![text@[0]]);
                                assert(t@ =~= before + c.text@);
                            }
                            open = Some(OpenRun { cells: a.cells + 1, text: t, ..a });
                        } else {
                            finish(&mut runs, Some(a));
                            open = Some(
                                OpenRun { row: c.row, column: c.column, cells: 1, text, style, forced: true },
                            );
                        }
                    },
                    None => {
                        open = Some(
                            OpenRun { row: c.row, column: c.column, cells: 1, text, style, forced: true },
                        );
                    },
                }
            }
        }
        proof {
            assert(Grouping { runs: runs_view(runs@), drawn: drawn@, open: open_option(open), row } == group_step(g, cells@[i as int]));
        }
        i += 1;
    }
    proof {
        assert(cells@.take(i as int) =~= cells@);
    }
    finish(&mut runs, open);
    (runs, drawn)
}

} // verus!
