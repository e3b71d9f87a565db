use vstd::prelude::*;
use vstd::string::StringExecFns;

use crate::rope::rope_chars;
use crate::text::display::DrawCommand;
use crate::text::textbuffer::TextBuffer;
use crate::text::viewrow::{dot_line_feeds, dotted};

verus! {

/// The line number shown before row `i` of the rows `wraps`: one more than its line's
/// number on the first row and on the first row of a line, none (zero) otherwise.
pub open spec fn shown_line(wraps: Seq<crate::text::wrap::WrapValue>, i: int) -> usize {
    if wraps[i].wrap0 == 0 || i == 0 {
        (wraps[i].line0 + 1) as usize
    } else {
        0
    }
}

/// `c` draws line `line` with `text` on row `row`.
pub open spec fn line_step(c: DrawCommand, row: int, line: usize, text: Seq<char>) -> bool {
    c matches DrawCommand::Line(r, l, t) && r == row && l == line && t@ == text
}

/// `c` draws `text` in the status style on row `row`.
pub open spec fn status_step(c: DrawCommand, row: int, text: Seq<char>) -> bool {
    c matches DrawCommand::Status(r, t) && r == row && t@ == text
}

/// The text that row `i` of the window shows: its characters with line feeds as dots.
pub open spec fn row_text(b: TextBuffer, i: int) -> Seq<char> {
    dotted(rope_chars(b.text).subrange(b.view.wraps@[i].c0 as int, b.view.wraps@[i].c1 as int))
}

impl TextBuffer {
    /// The drawing steps of the window: each row of `wraps` with its line number and its line
    /// feeds shown as dots, `;` on the status style for the rows left up to the text area's
    /// height, the info line with the debug text, an empty command line, and the cursor after
    /// the six columns of line numbers.
    pub fn render_view(&mut self) -> (out: Vec<DrawCommand>)
        requires
            old(self).view.wraps@.len() + old(self).view.vsy + 3 <= u16::MAX,
            forall|i: int|
                0 <= i < old(self).view.wraps@.len() ==> (#[trigger] old(self).view.wraps@[i]).c0
                    <= old(self).view.wraps@[i].c1 <= rope_chars(old(self).text).len()
                    && old(self).view.wraps@[i].line0 < usize::MAX,
            old(self).view.cursor.0 + 6 <= u16::MAX,
        ensures
            *final(self) == *old(self),
            ({
                let v = old(self).view;
                let n = v.wraps@.len() as int;
                let m = if n < v.vsy {
                    v.vsy as int
                } else {
                    n
                };
                let s = rope_chars(old(self).text);
                &&& out@.len() == m + 3
                &&& forall|i: int|
                    0 <= i < n ==> line_step(
                        #[trigger] out@[i],
                        i,
                        shown_line(v.wraps@, i),
                        row_text(*old(self), i),
                    )
                &&& forall|i: int| n <= i < m ==> status_step(#[trigger] out@[i], i, ";"@)
                &&& status_step(out@[m], v.r_info as int, "I: "@ + v.debug@)
                &&& status_step(out@[m + 1], v.r_command as int, Seq::<char>::empty())
                &&& out@[m + 2] == DrawCommand::Cursor((v.cursor.0 + 6) as u16, v.cursor.1)
            }),
    {
        let mut out: Vec<DrawCommand> = Vec::new();
        let vsy = self.view.vsy as usize;
        let mut row: u16 = 0;
        let mut i: usize = 0;
        let ghost s = rope_chars(self.text);
        while i < self.view.wraps.len()
            invariant
                i <= self.view.wraps@.len(),
                row as int == i,
                out@.len() == i,
                *self == *old(self),
                s == rope_chars(self.text),
                self.view.wraps@.len() + self.view.vsy + 3 <= u16::MAX,
                forall|j: int|
                    0 <= j < self.view.wraps@.len() ==> (#[trigger] self.view.wraps@[j]).c0
                        <= self.view.wraps@[j].c1 <= s.len() && self.view.wraps@[j].line0
                        < usize::MAX,
                forall|j: int|
                    0 <= j < i ==> line_step(
                        #[trigger] out@[j],
                        j,
                        shown_line(self.view.wraps@, j),
                        row_text(*self, j),
                    ),
            decreases self.view.wraps@.len() - i,
        {
            let w = &self.view.wraps[i];
            let text = w.to_string(self);
            let linex: usize = if w.wrap0 == 0 || row == 0 {
                w.line0 + 1
            } else {
                0
            };
            out.push(DrawCommand::Line(row, linex, dot_line_feeds(&text)));
            row = row + 1;
            i = i + 1;
        }
        while out.len() < vsy
            invariant
                row as int == out@.len(),
                out@.len() >= self.view.wraps@.len(),
                out@.len() <= if self.view.wraps@.len() < vsy {
                    vsy as int
                } else {
                    self.view.wraps@.len() as int
                },
                vsy == self.view.vsy,
                *self == *old(self),
                self.view.wraps@.len() + self.view.vsy + 3 <= u16::MAX,
                forall|j: int|
                    0 <= j < self.view.wraps@.len() ==> line_step(
                        #[trigger] out@[j],
                        j,
                        shown_line(self.view.wraps@, j),
                        row_text(*self, j),
                    ),
                forall|j: int|
                    self.view.wraps@.len() <= j < out@.len() ==> status_step(
                        #[trigger] out@[j],
                        j,
                        ";"@,
                    ),
            decreases vsy - out@.len(),
        {
            out.push(DrawCommand::Status(row, ";".to_owned()));
            row = row + 1;
        }
        let mut info = "I: ".to_owned();
        info.append(self.view.debug.as_str());
        out.push(DrawCommand::Status(self.view.r_info, info));
        out.push(DrawCommand::Status(self.view.r_command, String::new()));
        let p = self.cursor();
        out.push(DrawCommand::Cursor(p.0 + 6, p.1));
        out
    }
}

} // verus!
