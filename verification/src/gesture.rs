//! The mouse in a terminal pane: a drag selects text unless the
//! application asked for mouse reports, in which case presses, moves,
//! releases and the wheel are reported to it. The window system delivers
//! the events and sends the reports; this state machine decides.
use vstd::prelude::*;
use crate::mouse::{button_index, Button, MouseAction};

verus! {

/// A cell of the screen.
#[derive(Clone, Copy, Debug, PartialEq, Eq, Structural)]
pub struct CellPoint {
    pub column: usize,
    pub row: usize,
}

/// The button held while the mouse moves.
#[derive(Clone, Copy, Debug, PartialEq, Eq, Structural)]
pub enum Held {
    Nothing,
    Button(Button),
    /// A button the terminal does not report (such as a side button).
    Other,
}

/// What the pane does after a mouse event.
#[derive(Clone, Copy, Debug)]
pub enum GestureAction {
    Nothing,
    /// A selection starts here; the old one is cleared.
    StartSelection(CellPoint),
    /// Select from the first cell to the second.
    Select(CellPoint, CellPoint),
    /// Report this action at this cell to the application.
    Report(CellPoint, MouseAction),
}

/// What the pane does with a turn of the wheel.
#[derive(Clone, Copy, Debug, PartialEq, Eq, Structural)]
pub enum WheelAction {
    Nothing,
    /// Report `count` wheel steps at the cell, up or down.
    Report { cell: CellPoint, up: bool, count: u32 },
    /// Scroll the view by this many lines.
    Scroll(i32),
}

/// At most this many wheel steps are reported for one event.
pub const MAX_WHEEL_REPORTS: u32 = 32;

/// The state of the mouse over one pane.
#[derive(Clone, Copy, Debug)]
pub struct MouseGesture {
    /// Where a selection drag started.
    pub selecting: Option<CellPoint>,
    /// The presses reported to the application and not yet released, by
    /// button index.
    pub reported: [bool; 3],
    /// The cell of the last report.
    pub last_cell: Option<CellPoint>,
}

pub open spec fn is_reported(g: MouseGesture, b: Button) -> bool {
    g.reported@[button_index(b) as int]
}

pub open spec fn none_reported(g: MouseGesture) -> bool {
    !g.reported@[0] && !g.reported@[1] && !g.reported@[2]
}

impl MouseGesture {
    /// No drag, no reported press, no reported cell.
    pub fn new() -> (r: Self)
        ensures
            r.selecting is None,
            none_reported(r),
            r.last_cell is None,
    {
        MouseGesture { selecting: None, reported: [false, false, false], last_cell: None }
    }

    /// A button goes down. Outside the pane nothing happens; with mouse
    /// reports on and Shift up the press is reported; otherwise the left
    /// button starts a selection.
    pub fn press(&mut self, inside: bool, cell: Option<CellPoint>, button: Option<Button>, reporting: bool, shift: bool) -> (r:
        GestureAction)
        ensures
            match (inside, cell, button) {
                (true, Some(c), Some(b)) => if reporting && !shift {
                    *final(self) == *old(self) && (r matches GestureAction::Report(rc, MouseAction::Press(rb)) && rc
                        == c && rb == b)
                } else if b == Button::Left {
                    *final(self) == (MouseGesture { selecting: Some(c), ..*old(self) }) && (r
                        matches GestureAction::StartSelection(sc) && sc == c)
                } else {
                    *final(self) == *old(self) && r is Nothing
                },
                _ => *final(self) == *old(self) && r is Nothing,
            },
    {
        if !inside {
            return GestureAction::Nothing;
        }
        match (cell, button) {
            (Some(c), Some(b)) => {
                if reporting && !shift {
                    GestureAction::Report(c, MouseAction::Press(b))
                } else if b == Button::Left {
                    self.selecting = Some(c);
                    GestureAction::StartSelection(c)
                } else {
                    GestureAction::Nothing
                }
            },
            _ => GestureAction::Nothing,
        }
    }

    /// The outcome of a report: delivered or not. A delivered report marks
    /// its cell; a press is remembered as reported exactly when delivered.
    pub fn reported(&mut self, cell: CellPoint, action: MouseAction, delivered: bool)
        ensures
            final(self).selecting == old(self).selecting,
            final(self).last_cell == (if delivered {
                Some(cell)
            } else {
                old(self).last_cell
            }),
            match action {
                MouseAction::Press(b) => final(self).reported@ == old(self).reported@.update(
                    button_index(b) as int,
                    delivered,
                ),
                _ => final(self).reported@ == old(self).reported@,
            },
    {
        if delivered {
            self.last_cell = Some(cell);
        }
        if let MouseAction::Press(b) = action {
            self.reported[b.index()] = delivered;
        }
    }

    /// The mouse moves. A selection drag follows the left button; otherwise
    /// motion is reported while no button is held or while a reported
    /// button is held, once per cell, unless Shift is held or the mouse left
    /// the pane.
    pub fn moved(&mut self, held: Held, cell: Option<CellPoint>, inside: bool, shift: bool) -> (r: GestureAction)
        ensures
            ({
                let g0 = *old(self);
                let dragging = g0.selecting is Some && held == Held::Button(Button::Left);
                if dragging && cell is Some {
                    *final(self) == g0 && if g0.selecting->0 != cell->0 {
                        r matches GestureAction::Select(a, b) && a == g0.selecting->0 && b == cell->0
                    } else {
                        r is Nothing
                    }
                } else {
                    let g1 = if g0.selecting is Some && !dragging {
                        MouseGesture { selecting: None, ..g0 }
                    } else {
                        g0
                    };
                    let g2 = if held == Held::Nothing {
                        MouseGesture { reported: [false, false, false], ..g1 }
                    } else {
                        g1
                    };
                    if shift || !inside {
                        *final(self) == (MouseGesture { last_cell: None, ..g2 }) && r is Nothing
                    } else {
                        let button = match held {
                            Held::Button(b) => Some(b),
                            _ => None,
                        };
                        let blocked = held != Held::Nothing && !(button matches Some(b) && is_reported(g2, b));
                        *final(self) == g2 && if !blocked && cell is Some && g2.last_cell != Some(cell->0) {
                            r matches GestureAction::Report(c, MouseAction::Move(mb)) && c == cell->0 && mb == button
                        } else {
                            r is Nothing
                        }
                    }
                }
            }),
    {
        if let Some(start) = self.selecting {
            if held != Held::Button(Button::Left) {
                self.selecting = None;
            } else if let Some(end) = cell {
                return if start != end {
                    GestureAction::Select(start, end)
                } else {
                    GestureAction::Nothing
                };
            }
        }
        if held == Held::Nothing {
            self.reported = [false, false, false];
        }
        if shift || !inside {
            self.last_cell = None;
            return GestureAction::Nothing;
        }
        let button = match held {
            Held::Button(b) => Some(b),
            _ => None,
        };
        let pressed_reported = match button {
            Some(b) => self.reported[b.index()],
            None => false,
        };
        if held != Held::Nothing && !pressed_reported {
            return GestureAction::Nothing;
        }
        if let Some(c) = cell {
            let same = match self.last_cell {
                Some(l) => l == c,
                None => false,
            };
            if !same {
                return GestureAction::Report(c, MouseAction::Move(button));
            }
        }
        GestureAction::Nothing
    }

    /// A button comes up. The left button ends a selection drag; a button
    /// whose press was reported has its release reported, even when Shift
    /// went down during the drag.
    pub fn released(&mut self, button: Option<Button>, cell: Option<CellPoint>) -> (r: GestureAction)
        ensures
            button == Some(Button::Left) && old(self).selecting is Some ==> *final(self) == (MouseGesture {
                selecting: None,
                ..*old(self)
            }) && r is Nothing,
            !(button == Some(Button::Left) && old(self).selecting is Some) ==> match button {
                Some(b) => final(self).selecting == old(self).selecting && final(self).last_cell == old(
                    self,
                ).last_cell && final(self).reported@ == old(self).reported@.update(button_index(b) as int, false)
                    && if is_reported(*old(self), b) && cell is Some {
                    r matches GestureAction::Report(c, MouseAction::Release(rb)) && c == cell->0 && rb == b
                } else {
                    r is Nothing
                },
                None => *final(self) == *old(self) && r is Nothing,
            },
    {
        if button == Some(Button::Left) && self.selecting.is_some() {
            self.selecting = None;
            return GestureAction::Nothing;
        }
        if let Some(b) = button {
            let i = b.index();
            let was = self.reported[i];
            self.reported[i] = false;
            if was {
                if let Some(c) = cell {
                    return GestureAction::Report(c, MouseAction::Release(b));
                }
            }
        }
        GestureAction::Nothing
    }

    /// The pane lost focus: no drag continues and nothing counts as
    /// reported.
    pub fn focus_lost(&mut self)
        ensures
            final(self).selecting is None,
            none_reported(*final(self)),
            final(self).last_cell is None,
    {
        self.selecting = None;
        self.reported = [false, false, false];
        self.last_cell = None;
    }

    /// The application changed its mouse mode: earlier reports no longer
    /// count.
    pub fn mode_changed(&mut self)
        ensures
            final(self).selecting == old(self).selecting,
            none_reported(*final(self)),
            final(self).last_cell is None,
    {
        self.reported = [false, false, false];
        self.last_cell = None;
    }
}

/// The number of wheel steps reported for a turn of `lines`.
pub open spec fn wheel_count(lines: i32) -> u32 {
    let n = if lines < 0 {
        -(lines as int)
    } else {
        lines as int
    };
    if n > MAX_WHEEL_REPORTS {
        MAX_WHEEL_REPORTS
    } else {
        n as u32
    }
}

/// A turn of the wheel by whole `lines`, up when positive: reported as
/// wheel steps when the application takes mouse reports and Shift is up,
/// else scrolled.
pub fn wheel(inside: bool, lines: i32, reporting: bool, shift: bool, cell: Option<CellPoint>) -> (r: WheelAction)
    ensures
        r == (if !inside || lines == 0 {
            WheelAction::Nothing
        } else if reporting && !shift {
            match cell {
                Some(c) => WheelAction::Report { cell: c, up: lines > 0, count: wheel_count(lines) },
                None => WheelAction::Nothing,
            }
        } else {
            WheelAction::Scroll(lines)
        }),
{
    if !inside || lines == 0 {
        return WheelAction::Nothing;
    }
    if reporting && !shift {
        match cell {
            Some(c) => {
                let n: u32 = if lines < 0 {
                    if lines < -(MAX_WHEEL_REPORTS as i32) {
                        MAX_WHEEL_REPORTS
                    } else {
                        (0 - lines) as u32
                    }
                } else if lines > MAX_WHEEL_REPORTS as i32 {
                    MAX_WHEEL_REPORTS
                } else {
                    lines as u32
                };
                WheelAction::Report { cell: c, up: lines > 0, count: n }
            },
            None => WheelAction::Nothing,
        }
    } else {
        WheelAction::Scroll(lines)
    }
}

} // verus!
