use std::cmp::Ordering;
use vstd::prelude::*;

use crate::text::cursor::Cursor;

verus! {

impl PartialEq for Cursor {
    /// Cursors are equal when they are on the same line at the same position.
    fn eq(&self, other: &Self) -> (r: bool) {
        self.line_inx == other.line_inx && self.c == other.c
    }
}

impl vstd::std_specs::cmp::PartialEqSpecImpl for Cursor {
    open spec fn obeys_eq_spec() -> bool {
        true
    }

    open spec fn eq_spec(&self, other: &Self) -> bool {
        self.line_inx == other.line_inx && self.c == other.c
    }
}

impl Eq for Cursor {

}

/// Cursors are ordered by line, then by position.
pub open spec fn cursor_order(a: &Cursor, b: &Cursor) -> Ordering {
    if a.line_inx < b.line_inx {
        Ordering::Less
    } else if a.line_inx > b.line_inx {
        Ordering::Greater
    } else if a.c < b.c {
        Ordering::Less
    } else if a.c > b.c {
        Ordering::Greater
    } else {
        Ordering::Equal
    }
}

impl PartialOrd for Cursor {
    fn partial_cmp(&self, other: &Self) -> (r: Option<Ordering>) {
        if self.line_inx < other.line_inx {
            Some(Ordering::Less)
        } else if self.line_inx > other.line_inx {
            Some(Ordering::Greater)
        } else if self.c < other.c {
            Some(Ordering::Less)
        } else if self.c > other.c {
            Some(Ordering::Greater)
        } else {
            Some(Ordering::Equal)
        }
    }
}

impl vstd::std_specs::cmp::PartialOrdSpecImpl for Cursor {
    open spec fn obeys_partial_cmp_spec() -> bool {
        true
    }

    open spec fn partial_cmp_spec(&self, other: &Self) -> Option<Ordering> {
        Some(cursor_order(self, other))
    }
}

} // verus!
