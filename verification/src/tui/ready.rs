use vstd::prelude::*;

use crate::rope::rope_chars;
use crate::text::command::Command;
use crate::tui::display::ViewPos;
use crate::tui::editor::{editor_ready, refresh_ready, screen_view, shown_ready, Editor};
use crate::tui::layout::{window_fits, BufferWindow};

verus! {

/// Whether window `w` fits at `v` (see `window_fits`).
fn check_window_fits(w: &BufferWindow, v: ViewPos) -> (r: bool)
    ensures
        r == window_fits(*w, v),
{
    v.w > 6 && v.h >= 1 && v.x0 <= usize::MAX - 6 && v.y0 <= usize::MAX - v.h && w.main.cursors_tab_ok()
}

/// Whether the shown window `w` is ready at `v` (see `shown_ready`); a highlight of more than
/// a quarter of `i32::MAX` characters counts as too long even when its bytes would fit.
fn check_shown_ready(w: &BufferWindow, v: ViewPos) -> (r: bool)
    ensures
        r ==> shown_ready(*w, v),
        shown_ready(*w, v) && 4 * w.main.spec_highlight().len() <= i32::MAX ==> r,
{
    check_window_fits(w, v) && v.h <= 65536 && v.x0 <= usize::MAX - 6 - 65536 && v.y0 <= usize::MAX
        - 65536 && w.main.buf_tab_ok() && w.main.sizes_ok()
}

impl Editor {
    /// Whether `command` can take `c` (see `editor_ready`); a highlight of more than a quarter of
    /// `i32::MAX` characters counts as too long even when its bytes would fit.
    pub fn command_ready(&self, c: &Command) -> (r: bool)
        ensures
            r ==> editor_ready(*self, *c),
            editor_ready(*self, *c) && 4 * self.layout.layout.buffers@[0].main.spec_highlight().len() <= i32::MAX ==> r,
    {
        if self.layout.layout.buffers.elements.len() == 0 {
            return false;
        }
        let w = &self.layout.layout.buffers.elements[0];
        let v = self.layout.layout.view;
        if !check_shown_ready(w, v) {
            return false;
        }
        let text = w.main.get_text();
        let ghost s = rope_chars(text);
        let len = crate::rope::rope_len_chars(&text);
        let cc = w.main.cursor_pos();
        let cl = if cc > len {
            len
        } else {
            cc
        };
        match c {
            Command::RemoveChar(dx) => (cl as i64) + (*dx as i64) <= i32::MAX as i64,
            Command::Line(n) => {
                if *n <= i64::MIN + 1 {
                    return false;
                }
                let m = *n - 1;
                let lines = crate::rope::rope_len_lines(&text);
                proof {
                    crate::rope::lemma_breaks_bounded(s, s.len() as int);
                }
                if m < 0 {
                    -m <= (lines as i64) - 1
                } else {
                    m <= lines as i64
                }
            },
            Command::LineNav(_) => {
                let l = crate::rope::rope_char_to_line(&text, cl);
                proof {
                    crate::rope::lemma_line_of(s, cl as int);
                }
                let line = crate::rope::rope_line_string(&text, l);
                let bytes = line.as_str().len();
                0 < bytes && bytes <= 2147483647
            },
            _ => true,
        }
    }

    /// Whether `refresh(sx, sy)` can be called (see `refresh_ready`); a highlight of more than a
    /// quarter of `i32::MAX` characters counts as too long even when its bytes would fit.
    pub fn refresh_ready_for(&self, sx: u16, sy: u16) -> (r: bool)
        ensures
            r ==> refresh_ready(*self, sx, sy),
            refresh_ready(*self, sx, sy) && 4 * self.layout.layout.buffers@[0].main.spec_highlight().len() <= i32::MAX ==> r,
    {
        let ws = &self.layout.layout.buffers.elements;
        if ws.len() == 0 {
            return false;
        }
        let view = ViewPos { w: sx as usize, h: sy as usize, x0: 0, y0: 0 };
        let mut i: usize = 0;
        while i < ws.len()
            invariant
                i <= ws@.len(),
                ws@ == self.layout.layout.buffers@,
                view == screen_view(sx, sy),
                forall|j: int| 0 <= j < i ==> window_fits(#[trigger] ws@[j], view),
            decreases ws@.len() - i,
        {
            if !check_window_fits(&ws[i], view) {
                proof {
                    assert(!window_fits(self.layout.layout.buffers@[i as int], screen_view(sx, sy)));
                }
                return false;
            }
            i = i + 1;
        }
        check_shown_ready(&ws[0], self.layout.layout.view)
    }
}

} // verus!
