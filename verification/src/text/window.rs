use vstd::prelude::*;

use crate::tui::row::RowUpdate;

verus! {

/// What a window is sent to draw: new rows for its header, status, command, margin or main
/// block, or the cursor's new place.
#[derive(Debug, Clone)]
pub enum EditorWindowUpdate {
    Header(Vec<RowUpdate>),
    Status(Vec<RowUpdate>),
    Command(Vec<RowUpdate>),
    Left(Vec<RowUpdate>),
    Main(Vec<RowUpdate>),
    Cursor(usize, usize),
}

} // verus!
