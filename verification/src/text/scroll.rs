use vstd::prelude::*;

use crate::text::textbuffer::TextBuffer;
use crate::text::wrap::WrapValue;

verus! {

/// Row `w` is taken for position `c`: it is empty, or its range holds `c`.
pub open spec fn holds_char(w: WrapValue, c: int) -> bool {
    w.c0 == w.c1 || (w.c0 <= c && c < w.c1)
}

/// Row `i` is the first of `wraps` taken for position `c`.
pub open spec fn first_holding(wraps: Seq<WrapValue>, c: int, i: int) -> bool {
    &&& 0 <= i < wraps.len()
    &&& holds_char(wraps[i], c)
    &&& forall|j: int| 0 <= j < i ==> !holds_char(#[trigger] wraps[j], c)
}

impl TextBuffer {
    /// The screen cell of position `c`: its column within, and the number of, the first row
    /// of the window that is empty or holds `c`.
    pub fn cursor_from_char(&self, c: usize) -> (p: (u16, u16))
        requires
            exists|i: int| 0 <= i < self.view.wraps@.len() && holds_char(#[trigger] self.view.wraps@[i], c as int),
            forall|i: int| first_holding(self.view.wraps@, c as int, i) ==> self.view.wraps@[i].c0 <= c,
        ensures
            exists|i: int|
                first_holding(self.view.wraps@, c as int, i) && p == (
                    (c - self.view.wraps@[i].c0) as u16,
                    i as u16,
                ),
    {
        let ghost wraps = self.view.wraps@;
        let mut inx: usize = 0;
        while inx < self.view.wraps.len()
            invariant
                inx <= wraps.len(),
                wraps == self.view.wraps@,
                forall|j: int| 0 <= j < inx ==> !holds_char(#[trigger] wraps[j], c as int),
                exists|i: int| 0 <= i < wraps.len() && holds_char(#[trigger] wraps[i], c as int),
            ensures
                first_holding(wraps, c as int, inx as int),
            decreases wraps.len() - inx,
        {
            let w = &self.view.wraps[inx];
            if w.c0 == w.c1 || (w.c0 <= c && c < w.c1) {
                break;
            }
            inx = inx + 1;
        }
        let w = &self.view.wraps[inx];
        let cx = #[verifier::truncate] ((c - w.c0) as u16);
        let cy = #[verifier::truncate] (inx as u16);
        (cx, cy)
    }
}

} // verus!
