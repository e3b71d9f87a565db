use vstd::prelude::*;

verus! {

/// The characters that a view shows: where it starts, where the cursor is, and where it ends.
#[derive(Debug)]
pub struct ViewPort {
    pub char_start: usize,
    pub char_current: usize,
    pub char_end: usize,
}

impl Default for ViewPort {
    fn default() -> (p: Self)
        ensures
            p.char_start == 0,
            p.char_current == 0,
            p.char_end == 0,
    {
        Self { char_start: 0, char_end: 0, char_current: 0 }
    }
}

} // verus!
