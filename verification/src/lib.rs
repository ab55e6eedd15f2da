//! Verified core of a native terminal workspace: input encoders, IME
//! composition, focus and mouse reporting, workspace layouts, document
//! helpers, preferences and the pure decisions of the runtime services.
use vstd::prelude::*;
use vstd::string::*;

pub mod text;
pub mod keys;
pub mod focus;
pub mod mouse;
pub mod composition;
pub mod workspace;
pub mod document;
pub mod markdown;
pub mod settings;
pub mod files;
pub mod hook;
pub mod updates;
pub mod terminal;
pub mod ui;
pub mod text_cache;
pub mod session;
pub mod input;
pub mod activity;
pub mod tree;
pub mod gesture;
pub mod viewer;
pub mod prefs;
pub mod boxes;
pub mod sync;
pub mod structure;
pub mod runs;

pub use keys::{encode_key, encode_paste, Modifiers};

verus! {

pub const MAX_INPUT_BYTES: usize = 64 * 1024;

#[derive(Clone, Copy, Debug, PartialEq, Eq, Structural)]
pub struct TerminalSize {
    pub columns: u16,
    pub rows: u16,
}

impl TerminalSize {
    /// Both dimensions lie within 2..=500.
    pub open spec fn valid_dimensions(columns: u16, rows: u16) -> bool {
        2 <= columns <= 500 && 2 <= rows <= 500
    }

    pub fn new(columns: u16, rows: u16) -> (r: Result<Self, &'static str>)
        ensures
            r is Ok <==> Self::valid_dimensions(columns, rows),
            r matches Ok(size) ==> size.columns == columns && size.rows == rows,
            r matches Err(e) ==> e@ == "Terminal size must be within 2..500 columns and 2..500 rows"@,
    {
        if columns < 2 || rows < 2 || columns > 500 || rows > 500 {
            return Err("Terminal size must be within 2..500 columns and 2..500 rows");
        }
        Ok(Self { columns, rows })
    }
}

#[derive(Clone, Debug, PartialEq, Eq)]
pub struct SessionId {
    pub terminal: String,
    pub pane: String,
    pub generation: u64,
}

/// A byte allowed in session identifiers: ASCII alphanumeric, `_` or `-`.
pub open spec fn is_id_byte(b: u8) -> bool {
    (48 <= b <= 57) || (65 <= b <= 90) || (97 <= b <= 122) || b == 95 || b == 45
}

/// A non-empty identifier of at most 128 bytes, all of them identifier bytes.
pub open spec fn valid_id_text(value: Seq<char>) -> bool {
    &&& value.len() > 0
    &&& vstd::utf8::encode_utf8(value).len() <= 128
    &&& forall|i: int|
        0 <= i < vstd::utf8::encode_utf8(value).len() ==> is_id_byte(#[trigger] vstd::utf8::encode_utf8(value)[i])
}

/// A valid session identifier part.
pub open spec fn valid_id(value: &str) -> bool {
    valid_id_text(value@)
}

fn id_byte(b: u8) -> (r: bool)
    ensures
        r == is_id_byte(b),
{
    (48 <= b && b <= 57) || (65 <= b && b <= 90) || (97 <= b && b <= 122) || b == 95 || b == 45
}

fn valid_id_exec(value: &str) -> (r: bool)
    ensures
        r == valid_id(value),
{
    if value.is_empty() || value.as_bytes().len() > 128 {
        return false;
    }
    let bytes = value.as_bytes();
    let mut i: usize = 0;
    while i < bytes.len()
        invariant
            i <= bytes@.len(),
            bytes@ == value.spec_bytes(),
            forall|j: int| 0 <= j < i ==> is_id_byte(#[trigger] bytes@[j]),
        decreases bytes@.len() - i,
    {
        if !id_byte(bytes[i]) {
            return false;
        }
        i += 1;
    }
    true
}

impl SessionId {
    pub open spec fn view(&self) -> (Seq<char>, Seq<char>, u64) {
        (self.terminal@, self.pane@, self.generation)
    }

    pub fn new(terminal: &str, pane: &str, generation: u64) -> (r: Result<Self, &'static str>)
        ensures
            r is Ok <==> (valid_id(terminal) && valid_id(pane) && generation != 0),
            r matches Ok(id) ==> id.view() == (terminal@, pane@, generation),
            r matches Err(e) ==> e@ == "Invalid terminal, pane or generation"@,
    {
        if !valid_id_exec(terminal) || !valid_id_exec(pane) || generation == 0 {
            return Err("Invalid terminal, pane or generation");
        }
        Ok(Self { terminal: terminal.to_owned(), pane: pane.to_owned(), generation })
    }

    /// Whether two identifiers name the same session.
    pub fn same(&self, other: &SessionId) -> (r: bool)
        ensures
            r == (self.view() == other.view()),
    {
        self.generation == other.generation && text::str_eq(self.terminal.as_str(), other.terminal.as_str())
            && text::str_eq(self.pane.as_str(), other.pane.as_str())
    }
}

} // verus!
