//! Xterm cell-coordinate mouse protocols, independent of windowing.
use vstd::prelude::*;
use vstd::utf8::*;
use crate::keys::Modifiers;
use crate::text::{decimal, push_decimal};

verus! {

#[derive(Clone, Copy, Debug, PartialEq, Eq, Structural)]
pub enum Tracking {
    Off,
    Click,
    Drag,
    Motion,
}

impl Default for Tracking {
    fn default() -> (r: Self)
        ensures
            r == Tracking::Off,
    {
        Tracking::Off
    }
}

#[derive(Clone, Copy, Debug, PartialEq, Eq, Structural)]
pub enum Encoding {
    Legacy,
    Utf8,
    Sgr,
}

impl Default for Encoding {
    fn default() -> (r: Self)
        ensures
            r == Encoding::Legacy,
    {
        Encoding::Legacy
    }
}

#[derive(Clone, Copy, Debug, PartialEq, Eq, Structural)]
pub struct MouseMode {
    pub tracking: Tracking,
    pub encoding: Encoding,
}

impl Default for MouseMode {
    fn default() -> (r: Self)
        ensures
            r.tracking == Tracking::Off && r.encoding == Encoding::Legacy,
    {
        MouseMode { tracking: Tracking::Off, encoding: Encoding::Legacy }
    }
}

#[derive(Clone, Copy, Debug, PartialEq, Eq, Structural)]
pub enum Button {
    Left,
    Middle,
    Right,
}

pub open spec fn button_index(b: Button) -> nat {
    match b {
        Button::Left => 0,
        Button::Middle => 1,
        Button::Right => 2,
    }
}

impl Button {
    pub fn index(self) -> (r: usize)
        ensures
            r == button_index(self),
    {
        match self {
            Button::Left => 0,
            Button::Middle => 1,
            Button::Right => 2,
        }
    }
}

#[derive(Clone, Copy, Debug)]
pub enum MouseAction {
    Press(Button),
    Release(Button),
    Move(Option<Button>),
    Wheel { up: bool },
}

/// The button part of the report code, or `None` for motion that the
/// requested tracking level does not report.
pub open spec fn button_code(tracking: Tracking, action: MouseAction) -> Option<nat> {
    match action {
        MouseAction::Press(b) => Some(button_index(b)),
        MouseAction::Release(b) => Some(button_index(b)),
        MouseAction::Move(b) => {
            if tracking != Tracking::Motion && !(tracking == Tracking::Drag && b is Some) {
                None
            } else {
                Some(
                    32 + match b {
                        Some(button) => button_index(button),
                        None => 3,
                    },
                )
            }
        },
        MouseAction::Wheel { up } => Some(
            if up {
                64nat
            } else {
                65nat
            },
        ),
    }
}

/// Modifier bits of a report: 4·shift + 8·alt + 16·control.
pub open spec fn modifier_bits(m: Modifiers) -> nat {
    (if m.shift { 4nat } else { 0 }) + (if m.alt { 8nat } else { 0 }) + (if m.control { 16nat } else { 0 })
}

/// The code of a report: release (outside SGR) or button, plus modifiers.
pub open spec fn report_code(encoding: Encoding, action: MouseAction, button: nat, m: Modifiers) -> nat {
    (if action is Release && encoding != Encoding::Sgr { 3 } else { button }) + modifier_bits(m)
}

/// `CSI < code ; column+1 ; row+1 M` (or `m` on release).
pub open spec fn sgr_bytes(code: nat, released: bool, column: usize, row: usize) -> Option<Seq<u8>> {
    if column + 1 > usize::MAX || row + 1 > usize::MAX {
        None
    } else {
        Some(
            seq![0x1bu8, 0x5b, 0x3c] + decimal(code) + seq![0x3bu8] + decimal((column + 1) as nat)
                + seq![0x3bu8] + decimal((row + 1) as nat) + seq![
                if released {
                    0x6du8
                } else {
                    0x4du8
                },
            ],
        )
    }
}

/// `CSI M` with the code and one-based coordinates offset by 32 in single bytes.
pub open spec fn legacy_bytes(code: nat, column: usize, row: usize) -> Option<Seq<u8>> {
    if column < 223 && row < 223 {
        Some(seq![0x1bu8, 0x5b, 0x4d, (32 + code) as u8, (33 + column) as u8, (33 + row) as u8])
    } else {
        None
    }
}

/// `CSI M` with the offset values encoded as UTF-8 characters.
pub open spec fn utf8_bytes(code: nat, column: usize, row: usize) -> Option<Seq<u8>> {
    if column < 2015 && row < 2015 {
        Some(
            seq![0x1bu8, 0x5b, 0x4d] + encode_scalar((32 + code) as u32) + encode_scalar(
                (33 + column) as u32,
            ) + encode_scalar((33 + row) as u32),
        )
    } else {
        None
    }
}

/// The report for a mouse action at zero-based cell `(column, row)`.
/// Coordinates an encoding cannot represent produce no report.
pub open spec fn mouse_report(mode: MouseMode, action: MouseAction, column: usize, row: usize, m: Modifiers) -> Option<Seq<u8>> {
    if mode.tracking == Tracking::Off {
        None
    } else {
        match button_code(mode.tracking, action) {
            None => None,
            Some(button) => {
                let code = report_code(mode.encoding, action, button, m);
                match mode.encoding {
                    Encoding::Sgr => sgr_bytes(code, action is Release, column, row),
                    Encoding::Legacy => legacy_bytes(code, column, row),
                    Encoding::Utf8 => utf8_bytes(code, column, row),
                }
            },
        }
    }
}

/// Appends the UTF-8 encoding of a scalar below U+0800.
fn push_small_scalar(out: &mut Vec<u8>, v: u32)
    requires
        v < 0x800,
    ensures
        final(out)@ == old(out)@ + encode_scalar(v),
{
    if v < 0x80 {
        out.push(v as u8);
        assert((v & 0x7f) as u8 == v as u8) by (bit_vector)
            requires
                v < 0x80,
        ;
        assert(final(out)@ =~= old(out)@ + encode_scalar(v));
    } else {
        let lead = (0xc0 | (v >> 6)) as u8;
        let last = (0x80 | (v & 0x3f)) as u8;
        assert(lead == (0xc0 | ((v >> 6) & 0x1f) as u8)) by (bit_vector)
            requires
                0x80 <= v < 0x800,
                lead == (0xc0 | (v >> 6)) as u8,
        ;
        assert(last == (0x80 | (v & 0x3f) as u8)) by (bit_vector)
            requires
                last == (0x80 | (v & 0x3f)) as u8,
        ;
        out.push(lead);
        out.push(last);
        assert(final(out)@ =~= old(out)@ + encode_scalar(v));
    }
}

fn sgr_report(code: u8, released: bool, column: usize, row: usize) -> (r: Option<Vec<u8>>)
    ensures
        match r {
            Some(v) => sgr_bytes(code as nat, released, column, row) == Some(v@),
            None => sgr_bytes(code as nat, released, column, row) is None,
        },
{
    if column == usize::MAX || row == usize::MAX {
        return None;
    }
    let mut out: Vec<u8> = Vec::new();
    out.push(0x1b);
    out.push(0x5b);
    out.push(0x3c);
    push_decimal(&mut out, code as u64);
    out.push(0x3b);
    push_decimal(&mut out, (column + 1) as u64);
    out.push(0x3b);
    push_decimal(&mut out, (row + 1) as u64);
    out.push(if released { 0x6d } else { 0x4d });
    assert(out@ =~= seq![0x1bu8, 0x5b, 0x3c] + decimal(code as nat) + seq![0x3bu8] + decimal(
        (column + 1) as nat,
    ) + seq![0x3bu8] + decimal((row + 1) as nat) + seq![if released { 0x6du8 } else { 0x4du8 }]);
    Some(out)
}

fn legacy_report(code: u8, column: usize, row: usize) -> (r: Option<Vec<u8>>)
    requires
        code < 128,
    ensures
        match r {
            Some(v) => legacy_bytes(code as nat, column, row) == Some(v@),
            None => legacy_bytes(code as nat, column, row) is None,
        },
{
    if column < 223 && row < 223 {
        let out = vec![0x1bu8, 0x5b, 0x4d, 32 + code, 33 + column as u8, 33 + row as u8];
        assert(out@ =~= seq![
            0x1bu8,
            0x5b,
            0x4d,
            (32 + code) as u8,
            (33 + column) as u8,
            (33 + row) as u8,
        ]);
        Some(out)
    } else {
        None
    }
}

fn utf8_report(code: u8, column: usize, row: usize) -> (r: Option<Vec<u8>>)
    requires
        code < 128,
    ensures
        match r {
            Some(v) => utf8_bytes(code as nat, column, row) == Some(v@),
            None => utf8_bytes(code as nat, column, row) is None,
        },
{
    if column < 2015 && row < 2015 {
        let mut out: Vec<u8> = Vec::new();
        out.push(0x1b);
        out.push(0x5b);
        out.push(0x4d);
        push_small_scalar(&mut out, 32 + code as u32);
        push_small_scalar(&mut out, 33 + column as u32);
        push_small_scalar(&mut out, 33 + row as u32);
        assert(out@ =~= seq![0x1bu8, 0x5b, 0x4d] + encode_scalar((32 + code) as u32) + encode_scalar(
            (33 + column) as u32,
        ) + encode_scalar((33 + row) as u32));
        Some(out)
    } else {
        None
    }
}

impl MouseMode {
    pub fn enabled(self) -> (r: bool)
        ensures
            r == (self.tracking != Tracking::Off),
    {
        self.tracking != Tracking::Off
    }

    /// Zero-based cells. Unrepresentable coordinates are dropped, never wrapped.
    /// The caller owns Shift-selection overrides and duplicate motion filtering.
    pub fn encode(self, action: MouseAction, position: (usize, usize), modifiers: Modifiers) -> (r: Option<Vec<u8>>)
        ensures
            match r {
                Some(v) => mouse_report(self, action, position.0, position.1, modifiers) == Some(v@),
                None => mouse_report(self, action, position.0, position.1, modifiers) is None,
            },
    {
        let (column, row) = position;
        if !self.enabled() {
            return None;
        }
        let released = match action {
            MouseAction::Release(_) => true,
            _ => false,
        };
        let button: u8 = match action {
            MouseAction::Press(button) => button.index() as u8,
            MouseAction::Release(button) => button.index() as u8,
            MouseAction::Move(button) => {
                if self.tracking != Tracking::Motion && !(self.tracking == Tracking::Drag
                    && button.is_some()) {
                    return None;
                }
                32 + match button {
                    Some(b) => b.index() as u8,
                    None => 3,
                }
            },
            MouseAction::Wheel { up } => {
                if up {
                    64
                } else {
                    65
                }
            },
        };
        assert(button_code(self.tracking, action) == Some(button as nat));
        let bits: u8 = (if modifiers.shift { 4u8 } else { 0 }) + (if modifiers.alt { 8u8 } else { 0 }) + (
        if modifiers.control { 16u8 } else { 0 });
        let code: u8 = (if released && self.encoding != Encoding::Sgr { 3 } else { button }) + bits;
        assert(code as nat == report_code(self.encoding, action, button as nat, modifiers));
        match self.encoding {
            Encoding::Sgr => sgr_report(code, released, column, row),
            Encoding::Legacy => legacy_report(code, column, row),
            Encoding::Utf8 => utf8_report(code, column, row),
        }
    }
}

} // verus!

verus! {

proof fn lemma_two_digits(n: nat)
    requires
        10 <= n < 100,
    ensures
        decimal(n) == seq![(48 + n / 10) as u8, (48 + n % 10) as u8],
{
    assert(decimal(n / 10) == seq![(48 + n / 10) as u8]);
    assert(decimal(n) =~= seq![(48 + n / 10) as u8, (48 + n % 10) as u8]);
}

/// The SGR report of a press or motion with a two-digit code.
proof fn lemma_sgr_two_digits(code: nat, column: usize, row: usize)
    requires
        10 <= code < 100,
        column < usize::MAX,
        row < usize::MAX,
    ensures
        sgr_bytes(code, false, column, row) == Some(
            seq![0x1bu8, 0x5b, 0x3c, (48 + code / 10) as u8, (48 + code % 10) as u8, 0x3b] + decimal(
                (column + 1) as nat,
            ) + seq![0x3bu8] + decimal((row + 1) as nat) + seq![0x4du8],
        ),
{
    lemma_two_digits(code);
    let x = decimal((column + 1) as nat);
    let y = decimal((row + 1) as nat);
    assert(seq![0x1bu8, 0x5b, 0x3c] + decimal(code) + seq![0x3bu8] + x + seq![0x3bu8] + y + seq![0x4du8]
        =~= seq![0x1bu8, 0x5b, 0x3c, (48 + code / 10) as u8, (48 + code % 10) as u8, 0x3b] + x + seq![0x3bu8]
        + y + seq![0x4du8]);
}

/// The report of a motion with button `b` held, in tracking that reports it.
proof fn lemma_motion_report(mode: MouseMode, b: Button, column: usize, row: usize, m: Modifiers)
    requires
        mode.tracking == Tracking::Drag || mode.tracking == Tracking::Motion,
    ensures
        ({
            let code = 32 + button_index(b) + modifier_bits(m);
            mouse_report(mode, MouseAction::Move(Some(b)), column, row, m) == match mode.encoding {
                Encoding::Sgr => sgr_bytes(code, false, column, row),
                Encoding::Legacy => legacy_bytes(code, column, row),
                Encoding::Utf8 => utf8_bytes(code, column, row),
            }
        }),
{
}

/// A motion report made while a button is held names that button: its code
/// is 32 plus 0 for the left, 1 for the middle and 2 for the right button,
/// plus 4 for Shift, 8 for Alt and 16 for Control. In the legacy encoding
/// the code byte is that code plus 32; in SGR the code is written in
/// decimal. Reports for different held buttons differ.
#[verifier::spinoff_prover]
pub proof fn law_motion_reports_the_held_button(
    mode: MouseMode,
    b: Button,
    other: Button,
    column: usize,
    row: usize,
    m: Modifiers,
)
    requires
        mode.tracking == Tracking::Drag || mode.tracking == Tracking::Motion,
    ensures
        ({
            let held: int = match b {
                Button::Left => 0,
                Button::Middle => 1,
                Button::Right => 2,
            };
            let code: int = 32 + held + (if m.shift { 4int } else { 0 }) + (if m.alt { 8int } else { 0 }) + (
            if m.control {
                16int
            } else {
                0
            });
            let report = mouse_report(mode, MouseAction::Move(Some(b)), column, row, m);
            &&& mode.encoding == Encoding::Legacy && column < 223 && row < 223 ==> report == Some(
                seq![0x1bu8, 0x5b, 0x4d, (32 + code) as u8, (33 + column) as u8, (33 + row) as u8],
            )
            &&& mode.encoding == Encoding::Sgr && column < usize::MAX && row < usize::MAX ==> report == Some(
                seq![0x1bu8, 0x5b, 0x3c, (48 + code / 10) as u8, (48 + code % 10) as u8, 0x3b] + decimal(
                    (column + 1) as nat,
                ) + seq![0x3bu8] + decimal((row + 1) as nat) + seq![0x4du8],
            )
            &&& mode.encoding != Encoding::Utf8 && b != other && report is Some ==> report != mouse_report(
                mode,
                MouseAction::Move(Some(other)),
                column,
                row,
                m,
            )
        }),
{
    let c1 = 32 + button_index(b) + modifier_bits(m);
    let c2 = 32 + button_index(other) + modifier_bits(m);
    lemma_motion_report(mode, b, column, row, m);
    lemma_motion_report(mode, other, column, row, m);
    if column < usize::MAX && row < usize::MAX {
        lemma_sgr_two_digits(c1, column, row);
        lemma_sgr_two_digits(c2, column, row);
    }
    if b != other && mode.encoding == Encoding::Sgr && column < usize::MAX && row < usize::MAX {
        let r1 = sgr_bytes(c1, false, column, row)->0;
        let r2 = sgr_bytes(c2, false, column, row)->0;
        assert(r1[3] == (48 + c1 / 10) as u8 && r1[4] == (48 + c1 % 10) as u8);
        assert(r2[3] == (48 + c2 / 10) as u8 && r2[4] == (48 + c2 % 10) as u8);
        assert(c1 / 10 != c2 / 10 || c1 % 10 != c2 % 10);
    }
}

} // verus!
