use vstd::prelude::*;

use crate::rope::{
    breaks_before, lemma_breaks_bounded, lemma_line_of, lemma_line_start_bounded,
    lemma_line_start_monotone, line_count, line_start, rope_char_to_line, rope_chars,
    rope_len_chars, rope_len_lines, rope_line_to_char, rope_slice_string, text_fits,
};
use crate::text::textbuffer::TextBuffer;

verus! {

/// One row of a wrapped line: the line's character range, the row's character range, which
/// row of the line it is (and the next, or zero after the last), the line's number (and the
/// next), and how many rows the line has.
#[derive(Debug, Copy, Clone, PartialEq, Eq, Structural)]
pub struct WrapValue {
    pub lc0: usize,
    pub lc1: usize,
    pub c0: usize,
    pub c1: usize,
    pub wrap0: usize,
    pub wrap1: usize,
    pub line0: usize,
    pub line1: usize,
    pub wraps: usize,
}

/// The row of width `sx` that holds character `c`: rows of a line are `sx` characters
/// apart, a line has one row more than its length divided by `sx`, and its last row ends
/// where the line ends.
pub open spec fn tb_wrap_at(s: Seq<char>, sx: int, c: int) -> WrapValue {
    let line = breaks_before(s, c) as int;
    let lc0 = line_start(s, line);
    let lc1 = line_start(s, line + 1);
    let wrap0 = (c - lc0) / sx;
    let c0 = lc0 + wrap0 * sx;
    let wraps = (lc1 - lc0) / sx + 1;
    let last = wrap0 + 1 == wraps;
    WrapValue {
        lc0: lc0 as usize,
        lc1: lc1 as usize,
        c0: c0 as usize,
        c1: (if last {
            lc1
        } else {
            c0 + sx
        }) as usize,
        wrap0: wrap0 as usize,
        wrap1: (if last {
            0
        } else {
            wrap0 + 1
        }) as usize,
        line0: line as usize,
        line1: (line + 1) as usize,
        wraps: wraps as usize,
    }
}

/// The row that holds `c`, or none past the last character.
pub open spec fn tb_wrap_opt(s: Seq<char>, sx: int, c: int) -> Option<WrapValue> {
    if c >= s.len() {
        None
    } else {
        Some(tb_wrap_at(s, sx, c))
    }
}

/// The row after `w`, or none when `w` ends the text.
pub open spec fn tb_next_spec(s: Seq<char>, sx: int, w: WrapValue) -> Option<WrapValue> {
    if w.c1 >= s.len() {
        None
    } else {
        tb_wrap_opt(s, sx, w.c1 as int)
    }
}

/// The row before `w`: the previous row of its line, or the last row of the previous line,
/// or none on the first row.
pub open spec fn tb_prev_spec(s: Seq<char>, sx: int, w: WrapValue) -> Option<WrapValue> {
    if w.wrap0 > 0 {
        tb_wrap_opt(s, sx, w.lc0 + (w.wrap0 - 1) * sx)
    } else if w.line0 > 0 {
        let a = line_start(s, w.line0 - 1);
        let b = line_start(s, w.line0 as int);
        tb_wrap_opt(s, sx, a + ((b - a) / sx) * sx)
    } else {
        None
    }
}

/// Stepping back from `w` stays inside the numbers.
pub open spec fn tb_prev_ok(s: Seq<char>, sx: int, w: WrapValue) -> bool {
    if w.wrap0 > 0 {
        w.lc0 + (w.wrap0 - 1) * sx <= usize::MAX
    } else if w.line0 > 0 {
        w.line0 <= line_count(s)
    } else {
        true
    }
}

/// `w` is the row of some character of the text.
pub open spec fn tb_valid(s: Seq<char>, sx: int, w: WrapValue) -> bool {
    exists|c: int| 0 <= c < s.len() && tb_wrap_at(s, sx, c) == w
}

/// Up to `n` steps forward from `w`, stopping at the last row.
pub open spec fn tb_steps_next(s: Seq<char>, sx: int, w: WrapValue, n: nat) -> WrapValue
    decreases n,
{
    if n == 0 {
        w
    } else {
        match tb_next_spec(s, sx, w) {
            Some(x) => tb_steps_next(s, sx, x, (n - 1) as nat),
            None => w,
        }
    }
}

/// Up to `n` steps back from `w`, stopping at the first row.
pub open spec fn tb_steps_prev(s: Seq<char>, sx: int, w: WrapValue, n: nat) -> WrapValue
    decreases n,
{
    if n == 0 {
        w
    } else {
        match tb_prev_spec(s, sx, w) {
            Some(x) => tb_steps_prev(s, sx, x, (n - 1) as nat),
            None => w,
        }
    }
}

/// Rows from `w` on pushed after `out` until `out` holds `size` rows or the text ends.
pub open spec fn tb_fwd(s: Seq<char>, sx: int, w: WrapValue, out: Seq<WrapValue>, size: nat) -> Seq<WrapValue>
    decreases size - out.len(),
{
    if out.len() >= size {
        out
    } else {
        let o = out.push(w);
        match tb_next_spec(s, sx, w) {
            Some(x) => tb_fwd(s, sx, x, o, size),
            None => o,
        }
    }
}

/// Rows before `w` put in front of `out` until `out` holds `size` rows or the text starts.
pub open spec fn tb_bwd(s: Seq<char>, sx: int, w: WrapValue, out: Seq<WrapValue>, size: nat) -> Seq<WrapValue>
    decreases size - out.len(),
{
    if out.len() >= size {
        out
    } else {
        match tb_prev_spec(s, sx, w) {
            Some(x) => tb_bwd(s, sx, x, out.insert(0, x), size),
            None => out,
        }
    }
}

/// Up to `size` consecutive rows: the row of `c` and those after it, then those before it.
pub open spec fn tb_window(s: Seq<char>, sx: int, c: int, size: nat) -> Seq<WrapValue> {
    if c >= s.len() || size == 0 {
        seq![]
    } else {
        let w = tb_wrap_at(s, sx, c);
        tb_bwd(s, sx, w, tb_fwd(s, sx, w, seq![], size), size)
    }
}

/// Facts about the row of a character.
proof fn lemma_tb_wrap_at(s: Seq<char>, sx: int, c: int)
    requires
        0 < sx <= u16::MAX,
        0 <= c < s.len(),
        text_fits(s),
    ensures
        ({
            let w = tb_wrap_at(s, sx, c);
            &&& w.lc0 <= w.c0 <= c < w.lc1 <= s.len()
            &&& w.c0 <= w.c1
            &&& w.wrap0 * sx == w.c0 - w.lc0
            &&& w.line0 < line_count(s)
            &&& w.lc0 == line_start(s, w.line0 as int)
            &&& w.lc1 == line_start(s, w.line0 + 1)
        }),
{
    lemma_line_of(s, c);
    lemma_breaks_bounded(s, c);
    let line = breaks_before(s, c) as int;
    crate::rope::lemma_line_start(s, line);
    let lc0 = line_start(s, line);
    let lc1 = line_start(s, line + 1);
    let wrap0 = (c - lc0) / sx;
    assert(0 <= wrap0 * sx <= c - lc0) by (nonlinear_arith)
        requires
            wrap0 == (c - lc0) / sx,
            sx > 0,
            c >= lc0,
    ;
    let w = tb_wrap_at(s, sx, c);
    assert(w.lc0 == lc0);
    assert(w.lc1 == lc1);
    assert(w.c0 == lc0 + wrap0 * sx);
    assert(w.wrap0 == wrap0);
    assert(w.line0 == line);
    assert(w.c0 <= c);
    assert(w.c0 <= w.c1);
}

proof fn lemma_tb_valid_steps(s: Seq<char>, sx: int, w: WrapValue)
    requires
        0 < sx <= u16::MAX,
        tb_valid(s, sx, w),
        text_fits(s),
    ensures
        tb_prev_ok(s, sx, w),
        tb_prev_spec(s, sx, w) matches Some(x) ==> tb_valid(s, sx, x),
        tb_next_spec(s, sx, w) matches Some(x) ==> tb_valid(s, sx, x),
        w.c0 <= w.c1,
{
    let c = choose|c: int| 0 <= c < s.len() && tb_wrap_at(s, sx, c) == w;
    lemma_tb_wrap_at(s, sx, c);
    if w.wrap0 > 0 {
        let c2 = w.lc0 + (w.wrap0 - 1) * sx;
        assert(c2 == w.lc0 + w.wrap0 * sx - sx) by (nonlinear_arith)
            requires
                c2 == w.lc0 + (w.wrap0 - 1) * sx,
        ;
        assert((w.wrap0 - 1) * sx >= 0) by (nonlinear_arith)
            requires
                w.wrap0 >= 1,
                sx > 0,
        ;
        if c2 < s.len() {
            assert(tb_wrap_at(s, sx, c2) == tb_wrap_at(s, sx, c2));
        }
    } else if w.line0 > 0 {
        let a = line_start(s, w.line0 - 1);
        let b = line_start(s, w.line0 as int);
        crate::rope::lemma_line_start(s, w.line0 - 1);
        lemma_line_start_monotone(s, w.line0 - 1, w.line0 as int);
        let q = (b - a) / sx;
        assert(0 <= q * sx <= b - a) by (nonlinear_arith)
            requires
                q == (b - a) / sx,
                sx > 0,
                b >= a,
        ;
        let c2 = a + q * sx;
        if c2 < s.len() {
            assert(tb_wrap_at(s, sx, c2) == tb_wrap_at(s, sx, c2));
        }
    }
    if w.c1 < s.len() {
        assert(0 <= w.c1);
    }
}

impl WrapValue {
    /// The characters of the row.
    pub fn to_string(&self, buf: &TextBuffer) -> (s: String)
        requires
            self.c0 <= self.c1 <= rope_chars(buf.text).len(),
        ensures
            s@ == rope_chars(buf.text).subrange(self.c0 as int, self.c1 as int),
    {
        rope_slice_string(&buf.text, self.c0, self.c1)
    }
}

impl TextBuffer {
    /// The row of the window's first character.
    pub fn get_wrap(&self) -> (w: WrapValue)
        requires
            self.view.vsx > 0,
            text_fits(rope_chars(self.text)),
            self.char_start < rope_chars(self.text).len(),
        ensures
            w == tb_wrap_at(rope_chars(self.text), self.view.vsx as int, self.char_start as int),
    {
        self.char_to_wrap(self.char_start).unwrap()
    }

    /// The row `dy` rows away from the row of the window's first character, as far as the
    /// text goes.
    pub fn delta_wrap(&self, dy: i32) -> (w: WrapValue)
        requires
            self.view.vsx > 0,
            text_fits(rope_chars(self.text)),
            self.char_start < rope_chars(self.text).len(),
            dy > i32::MIN,
        ensures
            ({
                let s = rope_chars(self.text);
                let sx = self.view.vsx as int;
                let w0 = tb_wrap_at(s, sx, self.char_start as int);
                w == if dy > 0 {
                    tb_steps_next(s, sx, w0, dy as nat)
                } else if dy < 0 {
                    tb_steps_prev(s, sx, w0, (-dy) as nat)
                } else {
                    w0
                }
            }),
    {
        let ghost s = rope_chars(self.text);
        let ghost sx = self.view.vsx as int;
        let c = self.char_start;
        let mut w = self.char_to_wrap(c).unwrap();
        let ghost w0 = w;
        proof {
            assert(tb_valid(s, sx, w));
        }
        if dy > 0 {
            let mut count = dy;
            while count > 0
                invariant
                    self.view.vsx > 0,
                    text_fits(s),
                    s == rope_chars(self.text),
                    sx == self.view.vsx as int,
                    0 <= count <= dy,
                    tb_valid(s, sx, w),
                    tb_steps_next(s, sx, w, count as nat) == tb_steps_next(s, sx, w0, dy as nat),
                ensures
                    w == tb_steps_next(s, sx, w0, dy as nat),
                decreases count,
            {
                proof {
                    lemma_tb_valid_steps(s, sx, w);
                }
                match self.next_wrap(&w) {
                    Some(x) => {
                        w = x;
                        count -= 1;
                    },
                    _ => break,
                }
            }
        }
        if dy < 0 {
            let mut count = (-dy) as usize;
            while count > 0
                invariant
                    self.view.vsx > 0,
                    text_fits(s),
                    s == rope_chars(self.text),
                    sx == self.view.vsx as int,
                    dy < 0,
                    0 <= count <= -dy,
                    tb_valid(s, sx, w),
                    tb_steps_prev(s, sx, w, count as nat) == tb_steps_prev(s, sx, w0, (-dy) as nat),
                ensures
                    w == tb_steps_prev(s, sx, w0, (-dy) as nat),
                decreases count,
            {
                proof {
                    lemma_tb_valid_steps(s, sx, w);
                }
                match self.prev_wrap(&w) {
                    Some(x) => {
                        w = x;
                        count -= 1;
                    },
                    _ => break,
                }
            }
        }
        w
    }

    /// Up to `size` consecutive rows: the row of `c` and those after it, then those before
    /// it.
    pub fn wrap_window(&self, c: usize, size: usize) -> (out: Vec<WrapValue>)
        requires
            self.view.vsx > 0,
            text_fits(rope_chars(self.text)),
        ensures
            out@ == tb_window(rope_chars(self.text), self.view.vsx as int, c as int, size as nat),
    {
        let ghost s = rope_chars(self.text);
        let ghost sx = self.view.vsx as int;
        let mut out: Vec<WrapValue> = Vec::new();
        let ow = self.char_to_wrap(c);
        if ow.is_some() && size > 0 {
            let first = ow.unwrap();
            let mut w = first;
            let ghost f = tb_fwd(s, sx, first, seq![], size as nat);
            proof {
                assert(tb_valid(s, sx, w));
            }
            while out.len() < size
                invariant_except_break
                    out@.len() <= size,
                    tb_fwd(s, sx, w, out@, size as nat) == f,
                invariant
                    self.view.vsx > 0,
                    text_fits(s),
                    s == rope_chars(self.text),
                    sx == self.view.vsx as int,
                    tb_valid(s, sx, w),
                ensures
                    out@ == f,
                decreases size - out@.len(),
            {
                proof {
                    lemma_tb_valid_steps(s, sx, w);
                }
                out.push(w);
                match self.next_wrap(&w) {
                    Some(x) => {
                        w = x;
                    },
                    None => break,
                }
            }
            w = first;
            let ghost b = tb_bwd(s, sx, first, f, size as nat);
            while out.len() < size
                invariant
                    self.view.vsx > 0,
                    text_fits(s),
                    s == rope_chars(self.text),
                    sx == self.view.vsx as int,
                    tb_valid(s, sx, w),
                    tb_bwd(s, sx, w, out@, size as nat) == b,
                ensures
                    out@ == b,
                decreases size - out@.len(),
            {
                proof {
                    lemma_tb_valid_steps(s, sx, w);
                }
                match self.prev_wrap(&w) {
                    Some(x) => {
                        w = x;
                        out.insert(0, w);
                    },
                    None => break,
                }
            }
        }
        out
    }

    /// The first row of line `line`, or none past the last line.
    pub fn line_to_wrap(&self, line: usize) -> (w: Option<WrapValue>)
        requires
            self.view.vsx > 0,
            text_fits(rope_chars(self.text)),
        ensures
            w == if line >= line_count(rope_chars(self.text)) {
                None
            } else {
                tb_wrap_opt(
                    rope_chars(self.text),
                    self.view.vsx as int,
                    line_start(rope_chars(self.text), line as int),
                )
            },
    {
        let len_lines = rope_len_lines(&self.text);
        if line >= len_lines {
            None
        } else {
            let c = rope_line_to_char(&self.text, line);
            self.char_to_wrap(c)
        }
    }

    /// The row before `w`.
    pub fn prev_wrap(&self, w: &WrapValue) -> (r: Option<WrapValue>)
        requires
            self.view.vsx > 0,
            text_fits(rope_chars(self.text)),
            tb_prev_ok(rope_chars(self.text), self.view.vsx as int, *w),
        ensures
            r == tb_prev_spec(rope_chars(self.text), self.view.vsx as int, *w),
    {
        let ghost s = rope_chars(self.text);
        let vsx = self.view.vsx as usize;
        if w.wrap0 > 0 {
            let c0 = w.lc0 + (w.wrap0 - 1) * vsx;
            self.char_to_wrap(c0)
        } else if w.line0 > 0 {
            let line0 = w.line0 - 1;
            let line1 = w.line0;
            let lc0 = rope_line_to_char(&self.text, line0);
            let lc1 = rope_line_to_char(&self.text, line1);
            proof {
                lemma_line_start_monotone(s, line0 as int, line1 as int);
                lemma_line_start_bounded(s, line1 as int);
            }
            let wrap = (lc1 - lc0) / vsx;
            proof {
                assert(wrap * vsx <= lc1 - lc0) by (nonlinear_arith)
                    requires
                        wrap == (lc1 - lc0) / (vsx as int),
                        vsx > 0,
                        lc1 >= lc0,
                ;
            }
            let c0 = lc0 + wrap * vsx;
            self.char_to_wrap(c0)
        } else {
            None
        }
    }

    /// The row after `w`, or none when `w` ends the text.
    pub fn next_wrap(&self, w: &WrapValue) -> (r: Option<WrapValue>)
        requires
            self.view.vsx > 0,
            text_fits(rope_chars(self.text)),
        ensures
            r == tb_next_spec(rope_chars(self.text), self.view.vsx as int, *w),
    {
        let len_chars = rope_len_chars(&self.text);
        if w.c1 >= len_chars {
            None
        } else {
            self.char_to_wrap(w.c1)
        }
    }

    /// The row that holds character `c`, or none past the last character.
    pub fn char_to_wrap(&self, c: usize) -> (w: Option<WrapValue>)
        requires
            self.view.vsx > 0,
            text_fits(rope_chars(self.text)),
        ensures
            w == tb_wrap_opt(rope_chars(self.text), self.view.vsx as int, c as int),
    {
        let ghost s = rope_chars(self.text);
        let len_chars = rope_len_chars(&self.text);
        if c >= len_chars {
            None
        } else {
            let vsx = self.view.vsx as usize;
            let line = rope_char_to_line(&self.text, c);
            let n = rope_len_lines(&self.text);
            proof {
                lemma_line_of(s, c as int);
                lemma_breaks_bounded(s, c as int);
                assert(line < n);
            }
            let lc0 = rope_line_to_char(&self.text, line);
            let lc1 = rope_line_to_char(&self.text, line + 1);
            let wrap0 = (c - lc0) / vsx;
            proof {
                assert(wrap0 * vsx <= c - lc0) by (nonlinear_arith)
                    requires
                        wrap0 == (c - lc0) / (vsx as int),
                        vsx > 0,
                        c >= lc0,
                ;
            }
            let c0 = lc0 + wrap0 * vsx;
            let mut wrap1 = wrap0 + 1;
            let wraps = (lc1 - lc0) / vsx + 1;
            let c1;
            if wrap1 == wraps {
                c1 = lc1;
                wrap1 = 0;
            } else {
                c1 = c0 + vsx;
            }
            Some(
                WrapValue {
                    lc0: lc0,
                    lc1: lc1,
                    c0: c0,
                    c1: c1,
                    wrap0: wrap0,
                    wrap1: wrap1,
                    line0: line,
                    line1: line + 1,
                    wraps: wraps,
                },
            )
        }
    }
}

} // verus!

verus! {

/// A position between the start of line `l` and the start of the next lies on line `l`.
proof fn lemma_on_line_between(s: Seq<char>, l: int, p: int)
    requires
        0 <= l < line_count(s),
        line_start(s, l) <= p < line_start(s, l + 1),
    ensures
        breaks_before(s, p) == l,
{
    crate::rope::lemma_line_start(s, l);
    crate::rope::lemma_line_start_bounded(s, l + 1);
    crate::rope::lemma_breaks_monotone(s, line_start(s, l), p);
    crate::rope::lemma_line_of(s, p);
    let q = breaks_before(s, p) as int;
    if q > l {
        crate::rope::lemma_line_start_monotone(s, l + 1, q);
    }
}

/// The first row of a text has no row before it.
pub proof fn lemma_first_row_has_no_prev(s: Seq<char>, sx: int)
    requires
        sx > 0,
        s.len() > 0,
    ensures
        tb_prev_spec(s, sx, tb_wrap_at(s, sx, 0)) is None,
{
    crate::rope::lemma_line_start(s, 0);
    assert(breaks_before(s, 0) == 0);
}

/// Stepping one row forward and then one row back comes back to the row one started from,
/// unless the line of that row is a whole number of rows long (then stepping forward from
/// its last full row goes straight to the next line, and stepping back from there lands on
/// the next line's first row).
pub proof fn lemma_prev_after_next(s: Seq<char>, sx: int, c: int)
    requires
        sx > 0,
        text_fits(s),
        0 <= c < s.len(),
        tb_next_spec(s, sx, tb_wrap_at(s, sx, c)) is Some,
        ({
            let l = breaks_before(s, c) as int;
            (line_start(s, l + 1) - line_start(s, l)) % sx != 0
        }),
    ensures
        tb_prev_spec(s, sx, tb_next_spec(s, sx, tb_wrap_at(s, sx, c))->0) == Some(
            tb_wrap_at(s, sx, c),
        ),
{
    let w0 = tb_wrap_at(s, sx, c);
    let l = breaks_before(s, c) as int;
    crate::rope::lemma_line_of(s, c);
    crate::rope::lemma_breaks_bounded(s, c);
    crate::rope::lemma_line_start(s, l);
    crate::rope::lemma_line_start_bounded(s, l + 1);
    let lc0 = line_start(s, l);
    let lc1 = line_start(s, l + 1);
    let len = lc1 - lc0;
    let k = c - lc0;
    let wrap0 = k / sx;
    let wraps = len / sx + 1;
    assert(0 <= wrap0 * sx <= k && k < wrap0 * sx + sx) by (nonlinear_arith)
        requires
            sx > 0,
            k >= 0,
            wrap0 == k / sx,
    ;
    let c0 = lc0 + wrap0 * sx;
    if c == lc1 {
        // only on the text's last line: then the next row does not exist
        assert(lc1 == s.len()) by {
            if l + 1 < line_count(s) {
                crate::rope::lemma_line_start(s, l + 1);
            }
        }
        assert(false);
    }
    assert(c < lc1);
    if wrap0 + 1 == wraps {
        // the last row of the line: the next row is the first of the next line
        assert(w0.c1 == lc1);
        assert(lc1 < s.len());
        let n1 = breaks_before(s, lc1) as int;
        assert(l + 1 < line_count(s)) by {
            if l + 1 >= line_count(s) {
                assert(line_start(s, l + 1) == s.len());
            }
        }
        crate::rope::lemma_line_start(s, l + 1);
        let w1 = tb_wrap_at(s, sx, lc1);
        assert(w1.line0 == l + 1);
        assert(w1.wrap0 == 0) by {
            assert(lc1 - line_start(s, l + 1) == 0);
        }
        let p = lc0 + (len / sx) * sx;
        assert(p == c0);
        assert(lc0 <= p < lc1) by (nonlinear_arith)
            requires
                p == lc0 + (len / sx) * sx,
                len % sx != 0,
                len >= 0,
                sx > 0,
                lc1 == lc0 + len,
        ;
        lemma_on_line_between(s, l, p);
        assert((p - lc0) / sx == wrap0) by (nonlinear_arith)
            requires
                p - lc0 == wrap0 * sx,
                sx > 0,
                wrap0 >= 0,
        ;
        assert(tb_wrap_at(s, sx, p) == w0);
    } else {
        // a row in the middle of the line: the next row follows on the same line
        assert(wrap0 <= len / sx) by (nonlinear_arith)
            requires
                wrap0 == k / sx,
                0 <= k < len,
                sx > 0,
        ;
        assert(wrap0 + 1 < wraps);
        assert(c0 + sx <= lc1) by (nonlinear_arith)
            requires
                wrap0 + 1 < len / sx + 1,
                c0 == lc0 + wrap0 * sx,
                sx > 0,
                len >= 0,
                lc1 == lc0 + len,
        ;
        assert(c0 + sx != lc1) by (nonlinear_arith)
            requires
                c0 == lc0 + wrap0 * sx,
                lc1 == lc0 + len,
                len % sx != 0,
                sx > 0,
                wrap0 >= 0,
        ;
        let n = c0 + sx;
        assert(w0.c1 == n);
        lemma_on_line_between(s, l, n);
        let w1 = tb_wrap_at(s, sx, n);
        assert((n - lc0) / sx == wrap0 + 1) by (nonlinear_arith)
            requires
                n - lc0 == wrap0 * sx + sx,
                sx > 0,
                wrap0 >= 0,
        ;
        assert(w1.wrap0 == wrap0 + 1);
        assert(w1.lc0 == lc0);
        lemma_on_line_between(s, l, c0);
        assert((c0 - lc0) / sx == wrap0) by (nonlinear_arith)
            requires
                c0 - lc0 == wrap0 * sx,
                sx > 0,
                wrap0 >= 0,
        ;
        assert(tb_wrap_at(s, sx, c0) == w0);
    }
}

} // verus!
