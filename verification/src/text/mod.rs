use vstd::prelude::*;

pub mod buffer;
pub mod command;
pub mod input;
pub mod cursor;
pub mod cursor_order;
pub mod bufferlist;
pub mod bufferview;
pub mod display;
pub mod format;
pub mod lineworker;
pub mod macros;
pub mod linewrap;
pub mod rowiter;
pub mod render;
pub mod scroll;
pub mod search;
pub mod smart;
pub mod variables;
pub mod textbuffer;
pub mod viewport;
pub mod viewrow;
pub mod viewspec;
pub mod window;
pub mod wrap;

verus! {

/// One rendered cell of a line: a character, padding before a tab stop, the tab itself,
/// a position outside of the text, or the end of the line.
#[derive(Debug, Clone, Copy, PartialEq, Eq, Structural)]
pub enum ViewChar {
    Char(char),
    NOP,
    Tab,
    OOB,
    NL,
}

/// The editing mode.
#[derive(Debug, Clone, Copy, PartialEq, Eq, Structural, Hash)]
pub enum Mode {
    Normal,
    Insert,
    Easy,
    Cli,
}

impl Default for Mode {
    fn default() -> (m: Mode)
        ensures
            m == Mode::Normal,
    {
        Mode::Normal
    }
}

} // verus!
