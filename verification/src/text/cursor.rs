use ropey::Rope;
use vstd::prelude::*;
use vstd::string::StringExecFns;

use crate::div_ceil;
use crate::rope::{
    breaks_before, lemma_breaks_bounded, lemma_line_of, lemma_line_start, lemma_line_start_bounded,
    lemma_line_start_monotone, line_count, line_start, rope_char_to_line, rope_chars,
    rope_len_chars, rope_len_lines, rope_line_string, rope_line_to_char,
};
use crate::strings::{decimal, push_decimal, string_push, with_decimal};
use crate::text::linewrap::{
    char_cells, copy_row, lemma_line_cells_len, lemma_plain_cells, lemma_shown_append,
    lemma_shown_le, line_cells, push_cells, shown,
};
use crate::text::ViewChar;
use crate::word::{motions, word_position, word_target};

verus! {

/// The character a cell is printed as when a row is shown for inspection.
pub open spec fn cell_char(v: ViewChar) -> char {
    match v {
        ViewChar::NOP => ' ',
        ViewChar::Tab => '^',
        ViewChar::NL => 'v',
        ViewChar::Char(x) => x,
        ViewChar::OOB => 'O',
    }
}

/// A row of a wrapped line: its cells and the cursor it was laid out from.
#[derive(Debug)]
pub struct RowItem {
    pub elements: Vec<ViewChar>,
    pub cursor: Cursor,
}

impl RowItem {
    /// The row's cells as characters: a blank for a tab's filler, `^` for its mark, `v` for
    /// a line end and `O` for a cell outside the text.
    pub fn to_string(&self) -> (s: String)
        ensures
            s@ == self.elements@.map_values(|v: ViewChar| cell_char(v)),
    {
        let mut s = String::new();
        let mut i: usize = 0;
        while i < self.elements.len()
            invariant
                i <= self.elements@.len(),
                s@ == self.elements@.take(i as int).map_values(|v: ViewChar| cell_char(v)),
            decreases self.elements@.len() - i,
        {
            let ch = match self.elements[i] {
                ViewChar::NOP => ' ',
                ViewChar::Tab => '^',
                ViewChar::NL => 'v',
                ViewChar::Char(x) => x,
                ViewChar::OOB => 'O',
            };
            string_push(&mut s, ch);
            i = i + 1;
            assert(s@ =~= self.elements@.take(i as int).map_values(|v: ViewChar| cell_char(v)));
        }
        assert(self.elements@.take(i as int) =~= self.elements@);
        s
    }
}

/// A position in a text with the line that holds it: the line's number, its first and
/// one-past-last characters, its text and cells, the rows it takes at the view's width, the
/// column (`r`) and row of the position in the line, and the column the cursor tries to keep
/// when it moves between rows.
#[derive(Debug)]
pub struct Cursor {
    pub line_inx: usize,
    pub wraps: usize,
    pub lc0: usize,
    pub lc1: usize,
    pub c: usize,
    pub r: usize,
    pub wrap0: usize,
    pub x_hint: usize,
    pub line: String,
    pub elements: Vec<ViewChar>,
}

/// Two cursors hold the same values.
pub open spec fn same_cursor(a: Cursor, b: Cursor) -> bool {
    &&& a.line_inx == b.line_inx && a.wraps == b.wraps && a.lc0 == b.lc0 && a.lc1 == b.lc1
    &&& a.c == b.c && a.r == b.r && a.wrap0 == b.wrap0 && a.x_hint == b.x_hint
    &&& a.line@ == b.line@ && a.elements@ == b.elements@
}

impl Clone for Cursor {
    fn clone(&self) -> (c: Self)
        ensures
            same_cursor(c, *self),
    {
        Cursor {
            line_inx: self.line_inx,
            wraps: self.wraps,
            lc0: self.lc0,
            lc1: self.lc1,
            c: self.c,
            r: self.r,
            wrap0: self.wrap0,
            x_hint: self.x_hint,
            line: self.line.clone(),
            elements: copy_row(self.elements.as_slice()),
        }
    }
}

/// `n` cut to at most `m`.
pub open spec fn at_most(n: int, m: int) -> int {
    if n < m {
        n
    } else {
        m
    }
}

/// The columns that the first `lc` characters of a line take: four for a tab, one for any
/// other character.
pub open spec fn columns(line: Seq<char>, lc: int) -> int {
    line_cells(line.take(at_most(lc, line.len() as int))).len() as int
}

/// The characters that the first `r` cells stand for (a tab's fillers stand for none).
pub open spec fn chars_before(es: Seq<ViewChar>, r: int) -> int {
    shown(es.take(at_most(r, es.len() as int))) as int
}

/// The rows that `n` cells take at width `sx`.
pub open spec fn rows_for(n: int, sx: int) -> int {
    (n + sx - 1) / sx
}

/// The line fields of `cur` describe line `l` of `s` at width `sx`.
pub open spec fn on_line(cur: Cursor, s: Seq<char>, sx: int, l: int) -> bool {
    &&& 0 <= l < line_count(s)
    &&& cur.line_inx == l
    &&& cur.lc0 == line_start(s, l)
    &&& cur.lc1 == line_start(s, l + 1)
    &&& cur.line@ == s.subrange(cur.lc0 as int, cur.lc1 as int)
    &&& cur.elements@ == line_cells(cur.line@)
    &&& cur.wraps == rows_for(cur.elements@.len() as int, sx)
}

/// `cur` is the cursor at position `c` of `s` at width `sx`, with no column hint.
pub open spec fn cursor_at(cur: Cursor, s: Seq<char>, sx: int, c: int) -> bool {
    &&& 0 <= c <= s.len()
    &&& on_line(cur, s, sx, breaks_before(s, c) as int)
    &&& cur.c == c
    &&& cur.r == columns(cur.line@, c - cur.lc0)
    &&& cur.wrap0 == cur.r as int / sx
    &&& cur.x_hint == 0
}

/// `cur` stands on a line of `s`: its column is within the line's cells, its row is the one
/// holding that column and its position is the character of that cell.
pub open spec fn valid(cur: Cursor, s: Seq<char>, sx: int) -> bool {
    &&& on_line(cur, s, sx, cur.line_inx as int)
    &&& cur.r <= cur.elements@.len()
    &&& cur.wrap0 == cur.r as int / sx
    &&& cur.c == cur.lc0 + chars_before(cur.elements@, cur.r as int)
}

/// The cells of two pieces of text, one after the other, are the cells of the two together.
pub proof fn lemma_cells_append(a: Seq<char>, b: Seq<char>)
    ensures
        line_cells(a + b) == line_cells(a) + line_cells(b),
    decreases b.len(),
{
    if b.len() == 0 {
        assert(a + b =~= a);
        assert(line_cells(b) =~= Seq::<ViewChar>::empty());
        assert(line_cells(a) + line_cells(b) =~= line_cells(a));
    } else {
        lemma_cells_append(a, b.drop_last());
        assert((a + b).drop_last() =~= a + b.drop_last());
        assert((a + b).last() == b.last());
        assert(line_cells(a) + line_cells(b) =~= line_cells(a) + line_cells(b.drop_last())
            + char_cells(b.last()));
    }
}

/// One cell of a character's cells stands for it.
proof fn lemma_shown_char(c: char)
    ensures
        shown(char_cells(c)) == 1,
{
    let t = char_cells(c);
    if c == '\t' {
        assert(t.drop_last() =~= seq![ViewChar::NOP, ViewChar::NOP, ViewChar::NOP]);
        assert(t.drop_last().drop_last() =~= seq![ViewChar::NOP, ViewChar::NOP]);
        assert(t.drop_last().drop_last().drop_last() =~= seq![ViewChar::NOP]);
        assert(t.drop_last().drop_last().drop_last().drop_last() =~= Seq::<ViewChar>::empty());
        assert(shown(Seq::<ViewChar>::empty()) == 0);
        assert(shown(seq![ViewChar::NOP]) == 0);
        assert(shown(seq![ViewChar::NOP, ViewChar::NOP]) == 0);
        assert(shown(seq![ViewChar::NOP, ViewChar::NOP, ViewChar::NOP]) == 0);
    } else if c == '\n' {
        assert(t.drop_last() =~= Seq::<ViewChar>::empty());
        assert(shown(Seq::<ViewChar>::empty()) == 0);
    } else {
        lemma_plain_cells(c);
        assert(t.drop_last() =~= Seq::<ViewChar>::empty());
        assert(shown(Seq::<ViewChar>::empty()) == 0);
    }
}

/// Each character has exactly one cell that stands for it.
pub proof fn lemma_shown_cells(s: Seq<char>)
    ensures
        shown(line_cells(s)) == s.len(),
    decreases s.len(),
{
    if s.len() > 0 {
        lemma_shown_cells(s.drop_last());
        lemma_shown_append(line_cells(s.drop_last()), char_cells(s.last()));
        lemma_shown_char(s.last());
    } else {
        assert(line_cells(s) =~= Seq::<ViewChar>::empty());
    }
}

/// The cells of the first `k` characters are the first cells of a line: as many as the
/// columns of those characters.
pub proof fn lemma_cells_prefix(line: Seq<char>, k: int)
    requires
        0 <= k <= line.len(),
    ensures
        line_cells(line).take(columns(line, k)) == line_cells(line.take(k)),
        columns(line, k) <= line_cells(line).len(),
        chars_before(line_cells(line), columns(line, k)) == k,
{
    assert(line =~= line.take(k) + line.skip(k));
    lemma_cells_append(line.take(k), line.skip(k));
    let a = line_cells(line.take(k));
    assert(line_cells(line).take(a.len() as int) =~= a);
    lemma_shown_cells(line.take(k));
}

/// Every character takes at least one cell.
pub proof fn lemma_cells_cover(s: Seq<char>)
    ensures
        s.len() <= line_cells(s).len(),
    decreases s.len(),
{
    if s.len() > 0 {
        lemma_cells_cover(s.drop_last());
        let c = s.last();
        if c != '\t' && c != '\n' {
            lemma_plain_cells(c);
        }
    }
}

/// Fewer cells stand for no more characters.
pub proof fn lemma_shown_take_monotone(es: Seq<ViewChar>, a: int, b: int)
    requires
        0 <= a <= b <= es.len(),
    ensures
        shown(es.take(a)) <= shown(es.take(b)),
{
    assert(es.take(b) =~= es.take(a) + es.take(b).skip(a));
    lemma_shown_append(es.take(a), es.take(b).skip(a));
}

/// A row's first column is not past the cursor's column.
pub proof fn lemma_row_start_le(r: int, sx: int)
    requires
        r >= 0,
        sx > 0,
    ensures
        (r / sx) * sx <= r,
{
    assert((r / sx) * sx <= r) by (nonlinear_arith)
        requires
            r >= 0,
            sx > 0,
    ;
}

/// The cells of a line: four for a tab (three fillers and its mark), a line-end cell for a
/// line feed and one cell for any other character.
pub fn string_to_elements(s: &String) -> (v: Vec<ViewChar>)
    ensures
        v@ == line_cells(s@),
{
    let mut v: Vec<ViewChar> = Vec::new();
    for c in it: s.as_str().chars()
        invariant
            it.seq() == s@,
            v@ == line_cells(s@.take(it.index() as int)),
    {
        let ghost k = it.index();
        push_cells(&mut v, c);
        proof {
            assert(s@.take(k + 1).drop_last() =~= s@.take(k as int));
        }
    }
    assert(s@.take(s@.len() as int) =~= s@);
    v
}

/// Where the cursor's row starts and ends, in cells from the start of the line (`r0`, `r1`)
/// and in characters of the text (`c0`, `c1`), and the cursor's place in it.
pub struct WrapIndex {
    pub r0: usize,
    pub r1: usize,
    pub c0: usize,
    pub c1: usize,
    pub cx: usize,
    pub rx: usize,
}

/// The bounds of the cursor's row: cells `wrap0 * sx` up to the next row or the line's end,
/// and the line's first character plus the characters before them.
pub open spec fn wrap_index_fields(cursor: Cursor, sx: int) -> (int, int, int, int) {
    let es = cursor.elements@;
    let r0 = cursor.wrap0 * sx;
    let r1 = at_most(es.len() as int, (cursor.wrap0 + 1) * sx);
    let c0 = cursor.lc0 + shown(es.take(r0));
    let c1 = c0 + shown(es.subrange(r0, r1));
    (r0, r1, c0, c1)
}

/// The cells of the cursor's row.
pub open spec fn row_cells(cursor: Cursor, sx: int) -> Seq<ViewChar> {
    cursor.elements@.subrange(wrap_index_fields(cursor, sx).0, wrap_index_fields(cursor, sx).1)
}

/// The cursor's row can be measured: it starts within the line's cells and no sum
/// overflows.
pub open spec fn wrap_index_ok(cursor: Cursor, sx: int) -> bool {
    let (r0, r1, c0, c1) = wrap_index_fields(cursor, sx);
    &&& sx > 0
    &&& cursor.wrap0 < usize::MAX
    &&& (cursor.wrap0 + 1) * sx <= usize::MAX
    &&& r0 <= cursor.r
    &&& r0 <= cursor.elements@.len()
    &&& c1 <= usize::MAX
    &&& c0 <= cursor.c
}

/// A cursor standing on a line of a text small enough has a row that can be measured.
pub proof fn lemma_valid_wrap_index(cur: Cursor, s: Seq<char>, sx: int)
    requires
        sx > 0,
        valid(cur, s, sx),
        4 * s.len() + sx <= usize::MAX,
    ensures
        wrap_index_ok(cur, sx),
{
    let es = cur.elements@;
    let n = es.len() as int;
    let r = cur.r as int;
    lemma_row_start_le(r, sx);
    assert(cur.wrap0 <= r) by (nonlinear_arith)
        requires
            cur.wrap0 == r / sx,
            r >= 0,
            sx > 0,
    ;
    let r0 = cur.wrap0 * sx;
    let r1 = at_most(n, (cur.wrap0 + 1) * sx);
    lemma_line_start(s, cur.line_inx as int);
    lemma_line_start_bounded(s, cur.line_inx + 1);
    lemma_line_start_monotone(s, cur.line_inx as int, cur.line_inx + 1);
    lemma_line_cells_len(cur.line@);
    assert(r0 + sx <= 4 * s.len() + sx);
    assert((cur.wrap0 + 1) * sx == r0 + sx) by (nonlinear_arith)
        requires
            r0 == cur.wrap0 * sx,
    ;
    lemma_shown_take_monotone(es, r0, r);
    assert(es.take(r1) =~= es.take(r0) + es.subrange(r0, r1));
    lemma_shown_append(es.take(r0), es.subrange(r0, r1));
    lemma_shown_le(es.take(r1));
}

impl WrapIndex {
    fn from_cursor(cursor: &Cursor, sx: usize) -> (w: WrapIndex)
        requires
            wrap_index_ok(*cursor, sx as int),
        ensures
            (w.r0 as int, w.r1 as int, w.c0 as int, w.c1 as int) == wrap_index_fields(
                *cursor,
                sx as int,
            ),
            w.rx == cursor.r - w.r0,
            w.cx == cursor.c - w.c0,
    {
        proof {
            assert(cursor.wrap0 * sx <= (cursor.wrap0 + 1) * sx) by (nonlinear_arith)
                requires
                    sx >= 0,
                    cursor.wrap0 >= 0,
            ;
            let es = cursor.elements@;
            let r0 = cursor.wrap0 * sx;
            let r1 = at_most(es.len() as int, (cursor.wrap0 + 1) * sx);
            assert(es.take(r1) =~= es.take(r0) + es.subrange(r0, r1));
            lemma_shown_append(es.take(r0), es.subrange(r0, r1));
            lemma_shown_le(es.take(r1));
        }
        let r0 = cursor.wrap0 * sx;
        let r1 = if cursor.elements.len() < (cursor.wrap0 + 1) * sx {
            cursor.elements.len()
        } else {
            (cursor.wrap0 + 1) * sx
        };
        let rx = cursor.r - r0;
        let es = cursor.elements.as_slice();
        proof {
            assert(es@.subrange(0, r0 as int) =~= es@.take(r0 as int));
        }
        let c0 = cursor.lc0 + crate::text::linewrap::count_shown(slice_range(es, 0, r0));
        let c1 = c0 + crate::text::linewrap::count_shown(slice_range(es, r0, r1));
        let cx = cursor.c - c0;
        WrapIndex { r0, r1, c0, c1, cx, rx }
    }
}

/// The cells from `a` up to `b`.
fn slice_range(es: &[ViewChar], a: usize, b: usize) -> (v: &[ViewChar])
    requires
        a <= b <= es@.len(),
    ensures
        v@ == es@.subrange(a as int, b as int),
{
    vstd::slice::slice_subrange(es, a, b)
}

impl Cursor {
    /// A short account of the cursor for debugging: its line, column, character in the line
    /// and hint.
    pub fn simple_format(&self) -> (s: String)
        requires
            self.lc0 <= self.c,
        ensures
            s@ == "(Line:"@ + decimal(self.line_inx as nat) + ",rx:"@ + decimal(self.r as nat)
                + ",dc:"@ + decimal((self.c - self.lc0) as nat) + ",xh:"@ + decimal(
                self.x_hint as nat,
            ) + ")"@,
    {
        let mut s = with_decimal("(Line:", self.line_inx);
        s.append(",rx:");
        push_decimal(&mut s, self.r);
        s.append(",dc:");
        push_decimal(&mut s, self.c - self.lc0);
        s.append(",xh:");
        push_decimal(&mut s, self.x_hint);
        s.append(")");
        s
    }

    /// The cells of the cursor's row.
    pub fn to_elements(&self, sx: usize) -> (v: Vec<ViewChar>)
        requires
            wrap_index_ok(*self, sx as int),
        ensures
            v@ == row_cells(*self, sx as int),
    {
        let wi = WrapIndex::from_cursor(self, sx);
        proof {
            assert(self.wrap0 * sx <= (self.wrap0 + 1) * sx) by (nonlinear_arith)
                requires
                    sx >= 0,
                    self.wrap0 >= 0,
            ;
        }
        copy_row(slice_range(self.elements.as_slice(), wi.r0, wi.r1))
    }

    /// The characters of the line numbered from `c0` up to `c1` of the cursor's row (these
    /// count from the start of the text, and are cut to the line's end).
    pub fn to_string(&self, sx: usize) -> (s: String)
        requires
            wrap_index_ok(*self, sx as int),
            self.elements@ == line_cells(self.line@),
        ensures
            s@ == ({
                let (_, _, c0, c1) = wrap_index_fields(*self, sx as int);
                let n = self.line@.len() as int;
                self.line@.subrange(at_most(c0, n), at_most(c1, n))
            }),
    {
        let wi = WrapIndex::from_cursor(self, sx);
        let ghost n = self.line@.len() as int;
        proof {
            lemma_cells_cover(self.line@);
        }
        let ne = self.elements.len();
        let mut s = String::new();
        let mut k: usize = 0;
        for ch in it: self.line.as_str().chars()
            invariant
                it.seq() == self.line@,
                self.line@.len() <= ne,
                k == it.index(),
                wi.c0 <= wi.c1,
                s@ == self.line@.subrange(at_most(wi.c0 as int, k as int), at_most(wi.c1 as int, k as int)),
        {
            if k >= wi.c0 && k < wi.c1 {
                string_push(&mut s, ch);
            }
            k = k + 1;
            assert(s@ =~= self.line@.subrange(at_most(wi.c0 as int, k as int), at_most(wi.c1 as int, k as int)));
        }
        s
    }

    /// Keeps the cursor's column within its row as its hint.
    pub fn save_x_hint(&mut self, sx: usize)
        requires
            old(self).wrap0 * sx <= old(self).r,
        ensures
            same_cursor(
                *final(self),
                Cursor { x_hint: (old(self).r - old(self).wrap0 * sx) as usize, ..*old(self) },
            ),
    {
        let rx = self.rx(sx);
        self.x_hint = rx;
    }

    /// The cursor's column within its row.
    pub fn rx(&self, sx: usize) -> (x: usize)
        requires
            self.wrap0 * sx <= self.r,
        ensures
            x == self.r - self.wrap0 * sx,
    {
        let r0 = self.wrap0 * sx;
        self.r - r0
    }

    /// The column where character `lc` of the cursor's line starts.
    pub fn lc_to_r(&self, lc: usize) -> (r: usize)
        requires
            4 * self.line@.len() <= usize::MAX,
        ensures
            r == columns(self.line@, lc as int),
    {
        Self::line_lc_to_r(&self.line, lc)
    }

    /// The number of characters that the first `r` cells stand for.
    pub fn line_r_to_lc(elements: &[ViewChar], r: usize) -> (lc: usize)
        ensures
            lc == chars_before(elements@, r as int),
    {
        let n = if r < elements.len() {
            r
        } else {
            elements.len()
        };
        proof {
            assert(elements@.subrange(0, n as int) =~= elements@.take(n as int));
        }
        crate::text::linewrap::count_shown(slice_range(elements, 0, n))
    }

    /// The columns that the first `lc` characters of `line` take: four for a tab, one for
    /// any other character.
    pub fn line_lc_to_r(line: &String, lc: usize) -> (r: usize)
        requires
            4 * line@.len() <= usize::MAX,
        ensures
            r == columns(line@, lc as int),
    {
        let mut r: usize = 0;
        let mut k: usize = 0;
        for ch in it: line.as_str().chars()
            invariant
                it.seq() == line@,
                4 * line@.len() <= usize::MAX,
                k == it.index(),
                r == line_cells(line@.take(at_most(k as int, lc as int))).len(),
                r <= 4 * at_most(k as int, lc as int),
        {
            proof {
                lemma_line_cells_len(line@.take(at_most(k as int, lc as int)));
            }
            if k < lc {
                proof {
                    let t = line@.take(k + 1);
                    assert(t.drop_last() =~= line@.take(k as int));
                    assert(t.last() == ch);
                    if ch != '\t' && ch != '\n' {
                        lemma_plain_cells(ch);
                    }
                }
                if ch == '\t' {
                    r = r + 4;
                } else {
                    r = r + 1;
                }
            }
            k = k + 1;
        }
        r
    }

    /// The position in the text of the character of cell `r` of the line.
    pub fn r_to_c(&self, r: usize) -> (c: usize)
        requires
            self.lc0 + chars_before(self.elements@, r as int) <= usize::MAX,
        ensures
            c == self.lc0 + chars_before(self.elements@, r as int),
    {
        self.lc0 + Self::line_r_to_lc(self.elements.as_slice(), r)
    }
}

/// The line fields of `b` are those of `a`.
pub open spec fn same_line(a: Cursor, b: Cursor) -> bool {
    &&& a.line_inx == b.line_inx && a.wraps == b.wraps && a.lc0 == b.lc0 && a.lc1 == b.lc1
    &&& a.line@ == b.line@ && a.elements@ == b.elements@
}

/// The last cell of a line of `n` cells (the first when it has none).
pub open spec fn last_cell(n: int) -> int {
    if n > 0 {
        n - 1
    } else {
        0
    }
}

/// `b` stands at column `rx` of row `wrap` of its line, kept on the line's last cell, and
/// its position is the character of that cell.
pub open spec fn placed(b: Cursor, sx: int, wrap: int, rx: int) -> bool {
    let r = at_most(wrap * sx + rx, last_cell(b.elements@.len() as int));
    &&& b.r == r
    &&& b.wrap0 == r / sx
    &&& b.c == b.lc0 + chars_before(b.elements@, r)
}

/// There is a row below the row of `a` that `cursor_visual_next_line` goes to: the next
/// row of its line, or the next line when that is not the text's last.
pub open spec fn has_next(s: Seq<char>, a: Cursor) -> bool {
    a.wrap0 + 1 < a.wraps || a.line_inx + 1 < line_count(s) - 1
}

/// There is a row above the row of `a`.
pub open spec fn has_prev(a: Cursor) -> bool {
    a.wrap0 > 0 || a.line_inx > 0
}

/// `b` is `a` moved one row down: the next row of its line with `a`'s hint, or the first
/// row of the next line, with no hint, at `a`'s hint.
pub open spec fn next_rel(s: Seq<char>, sx: int, a: Cursor, b: Cursor) -> bool {
    if a.wrap0 + 1 < a.wraps {
        same_line(a, b) && b.x_hint == a.x_hint && placed(b, sx, a.wrap0 + 1, a.x_hint as int)
    } else {
        &&& a.line_inx + 1 < line_count(s) - 1
        &&& on_line(b, s, sx, a.line_inx + 1)
        &&& b.x_hint == 0
        &&& placed(b, sx, 0, a.x_hint as int)
    }
}

/// `b` is `a` moved one row up: the previous row of its line with `a`'s hint, or the last
/// row of the previous line, with no hint, at `a`'s hint.
pub open spec fn prev_rel(s: Seq<char>, sx: int, a: Cursor, b: Cursor) -> bool {
    if a.wrap0 > 0 {
        same_line(a, b) && b.x_hint == a.x_hint && placed(b, sx, a.wrap0 - 1, a.x_hint as int)
    } else {
        &&& a.line_inx > 0
        &&& on_line(b, s, sx, a.line_inx - 1)
        &&& b.x_hint == 0
        &&& placed(b, sx, b.wraps - 1, a.x_hint as int)
    }
}

/// The text is small enough for the cells of its lines, and a cursor's hint added to them,
/// to fit in a `usize`.
pub open spec fn fits(s: Seq<char>, x_hint: int) -> bool {
    4 * s.len() + x_hint <= usize::MAX
}

/// The cursor at position `c` of the text. The cursor has no column hint, whatever
/// `x_hint` is.
pub fn cursor_from_char(text: &Rope, sx: usize, c: usize, x_hint: usize) -> (cur: Cursor)
    requires
        sx > 0,
        c <= rope_chars(*text).len(),
        fits(rope_chars(*text), 0),
    ensures
        cursor_at(cur, rope_chars(*text), sx as int, c as int),
{
    let ghost s = rope_chars(*text);
    let line_inx = rope_char_to_line(text, c);
    proof {
        lemma_line_of(s, c as int);
        lemma_breaks_bounded(s, c as int);
        lemma_line_start_bounded(s, line_inx + 1);
        lemma_line_start_monotone(s, line_inx as int, line_inx + 1);
    }
    let lc0 = rope_line_to_char(text, line_inx);
    let lc1 = rope_line_to_char(text, line_inx + 1);
    let line = rope_line_string(text, line_inx);
    let elements = string_to_elements(&line);
    let wraps = div_ceil(elements.len(), sx);
    let r = Cursor::line_lc_to_r(&line, c - lc0);
    let wrap0 = r / sx;
    Cursor { line_inx, x_hint: 0, c, r, wraps, wrap0, lc0, lc1, elements, line }
}

/// A cursor made for a position stands on its line.
pub proof fn lemma_cursor_at_valid(cur: Cursor, s: Seq<char>, sx: int, c: int)
    requires
        sx > 0,
        cursor_at(cur, s, sx, c),
    ensures
        valid(cur, s, sx),
{
    lemma_line_of(s, c);
    let k = c - cur.lc0;
    assert(cur.line@.len() == cur.lc1 - cur.lc0);
    lemma_cells_prefix(cur.line@, k);
}

/// The cursor at the end of the text.
pub fn cursor_eof(text: &Rope, sx: usize) -> (cur: Cursor)
    requires
        sx > 0,
        fits(rope_chars(*text), 0),
    ensures
        cursor_at(cur, rope_chars(*text), sx as int, rope_chars(*text).len() as int),
{
    let len = rope_len_chars(text);
    cursor_from_char(text, sx, len, 0)
}

/// The cursor at the start of the text.
pub fn cursor_start(text: &Rope, sx: usize) -> (cur: Cursor)
    requires
        sx > 0,
        fits(rope_chars(*text), 0),
    ensures
        cursor_at(cur, rope_chars(*text), sx as int, 0),
{
    cursor_from_char(text, sx, 0, 0)
}

/// The cursor at the start of line `line_inx` (at the end of the text for the line after
/// the last).
pub fn cursor_from_line(text: &Rope, sx: usize, line_inx: usize) -> (cur: Cursor)
    requires
        sx > 0,
        line_inx <= line_count(rope_chars(*text)),
        fits(rope_chars(*text), 0),
    ensures
        cursor_at(
            cur,
            rope_chars(*text),
            sx as int,
            line_start(rope_chars(*text), line_inx as int),
        ),
{
    let c = rope_line_to_char(text, line_inx);
    proof {
        lemma_line_start_bounded(rope_chars(*text), line_inx as int);
    }
    cursor_from_char(text, sx, c, 0)
}

/// The line that `cursor_from_line_wrapped` goes to: counted back from the last line when
/// negative.
pub open spec fn wrapped_line(s: Seq<char>, line_inx: int) -> int {
    if line_inx < 0 {
        line_count(s) - 1 + line_inx
    } else {
        line_inx
    }
}

/// The cursor at the start of line `line_inx`, counted back from the last line when
/// negative.
pub fn cursor_from_line_wrapped(text: &Rope, sx: usize, line_inx: i64) -> (cur: Cursor)
    requires
        sx > 0,
        fits(rope_chars(*text), 0),
        line_inx > i64::MIN,
        line_inx < 0 ==> -line_inx <= line_count(rope_chars(*text)) - 1,
        line_inx >= 0 ==> line_inx <= line_count(rope_chars(*text)),
    ensures
        cursor_at(
            cur,
            rope_chars(*text),
            sx as int,
            line_start(rope_chars(*text), wrapped_line(rope_chars(*text), line_inx as int)),
        ),
{
    let n = rope_len_lines(text);
    let inx: usize = if line_inx < 0 {
        let back = (-line_inx) as u64;
        n - 1 - back as usize
    } else {
        line_inx as usize
    };
    cursor_from_line(text, sx, inx)
}

/// The row of the cursor: its cells and a copy of the cursor.
pub fn cursor_to_row(cursor: &Cursor, sx: usize) -> (row: RowItem)
    requires
        wrap_index_ok(*cursor, sx as int),
    ensures
        row.elements@ == row_cells(*cursor, sx as int),
        same_cursor(row.cursor, *cursor),
{
    RowItem { elements: cursor.to_elements(sx), cursor: cursor.clone() }
}

/// The length in bytes of a line.
pub open spec fn byte_len(line: Seq<char>) -> int {
    vstd::utf8::encode_utf8(line).len() as int
}

/// The position `cursor_move_to_lc` goes to: the line's first character plus `lc` taken
/// modulo the line's length in bytes.
pub open spec fn move_to_lc_target(cursor: Cursor, lc: int) -> int {
    cursor.lc0 + lc % byte_len(cursor.line@)
}

/// The cursor at character `lc` of its line, taken modulo the line's length in bytes (so
/// that `-1` is near its end), with no column hint.
pub fn cursor_move_to_lc(text: &Rope, sx: usize, cursor: &Cursor, lc: i32) -> (cur: Cursor)
    requires
        sx > 0,
        fits(rope_chars(*text), 0),
        0 < byte_len(cursor.line@) <= i32::MAX,
        move_to_lc_target(*cursor, lc as int) <= rope_chars(*text).len(),
    ensures
        cursor_at(cur, rope_chars(*text), sx as int, move_to_lc_target(*cursor, lc as int)),
{
    let n = cursor.line.as_str().len() as i32;
    let m = lc.checked_rem_euclid(n).unwrap();
    let c: usize = cursor.lc0 + m as usize;
    cursor_from_char(text, sx, c, cursor.x_hint)
}

/// Moves within the cursor's line, as `cursor_move_to_lc` does.
fn cursor_to_line_x(text: &Rope, sx: usize, cursor: &Cursor, x: i32) -> (cur: Cursor)
    requires
        sx > 0,
        fits(rope_chars(*text), 0),
        0 < byte_len(cursor.line@) <= i32::MAX,
        move_to_lc_target(*cursor, x as int) <= rope_chars(*text).len(),
    ensures
        cursor_at(cur, rope_chars(*text), sx as int, move_to_lc_target(*cursor, x as int)),
{
    cursor_move_to_lc(text, sx, cursor, x)
}

/// The cursor `dx_back` characters back, stopping at the start of the text.
pub fn cursor_char_backward(text: &Rope, sx: usize, cursor: &Cursor, dx_back: usize) -> (cur: Cursor)
    requires
        sx > 0,
        fits(rope_chars(*text), 0),
        cursor.c <= rope_chars(*text).len(),
    ensures
        cursor_at(
            cur,
            rope_chars(*text),
            sx as int,
            if dx_back > cursor.c {
                0
            } else {
                cursor.c - dx_back
            },
        ),
{
    let dx = if dx_back > cursor.c {
        cursor.c
    } else {
        dx_back
    };
    let c = cursor.c - dx;
    cursor_from_char(text, sx, c, cursor.x_hint)
}

/// The cursor `dx_forward` characters on, stopping at the text's last character.
pub fn cursor_char_forward(text: &Rope, sx: usize, cursor: &Cursor, dx_forward: usize) -> (cur: Cursor)
    requires
        sx > 0,
        fits(rope_chars(*text), 0),
        rope_chars(*text).len() > 0,
        cursor.c + dx_forward <= usize::MAX,
    ensures
        cursor_at(
            cur,
            rope_chars(*text),
            sx as int,
            at_most(cursor.c + dx_forward, rope_chars(*text).len() - 1),
        ),
{
    let mut c = cursor.c + dx_forward;
    let len = rope_len_chars(text);
    if c >= len {
        c = len - 1;
    }
    cursor_from_char(text, sx, c, cursor.x_hint)
}

/// The cursor `dx` characters on (back when negative), stopping at the start of the text
/// or its last character; unchanged for a zero `dx`.
pub fn cursor_move_to_x(text: &Rope, sx: usize, cursor: &Cursor, dx: i32) -> (cur: Cursor)
    requires
        sx > 0,
        fits(rope_chars(*text), 0),
        dx > i32::MIN,
        dx < 0 ==> cursor.c <= rope_chars(*text).len(),
        dx > 0 ==> rope_chars(*text).len() > 0 && cursor.c + dx <= usize::MAX,
    ensures
        dx < 0 ==> cursor_at(
            cur,
            rope_chars(*text),
            sx as int,
            if -dx > cursor.c {
                0
            } else {
                cursor.c + dx
            },
        ),
        dx > 0 ==> cursor_at(
            cur,
            rope_chars(*text),
            sx as int,
            at_most(cursor.c + dx, rope_chars(*text).len() - 1),
        ),
        dx == 0 ==> same_cursor(cur, *cursor),
{
    if dx < 0 {
        let dx_back = (-dx) as usize;
        cursor_char_backward(text, sx, cursor, dx_back)
    } else if dx > 0 {
        let dx_forward = dx as usize;
        cursor_char_forward(text, sx, cursor, dx_forward)
    } else {
        cursor.clone()
    }
}

/// The cursor moved to column `rx` of row `wrap` of its line, kept on the line's last cell;
/// its hint stays.
pub fn cursor_to_line_relative(_text: &Rope, sx: usize, cursor: &Cursor, wrap: usize, rx: usize) -> (cur: Cursor)
    requires
        sx > 0,
        wrap * sx + rx <= usize::MAX,
        cursor.lc0 + cursor.elements@.len() <= usize::MAX,
    ensures
        same_line(*cursor, cur),
        cur.x_hint == cursor.x_hint,
        placed(cur, sx as int, wrap as int, rx as int),
{
    let mut c = cursor.clone();
    let end = if c.elements.len() > 0 {
        c.elements.len() - 1
    } else {
        0
    };
    let t = wrap * sx + rx;
    let r = if end < t {
        end
    } else {
        t
    };
    proof {
        let es = c.elements@;
        lemma_shown_le(es.take(at_most(r as int, es.len() as int)));
    }
    c.wrap0 = r / sx;
    c.r = r;
    c.c = c.lc0 + Cursor::line_r_to_lc(c.elements.as_slice(), r);
    c
}

/// The cursor at column `rx` of row `wrap` of line `line_inx`, or none past the last line.
pub fn cursor_line_relative(text: &Rope, sx: usize, line_inx: usize, wrap: usize, rx: usize) -> (cur: Option<Cursor>)
    requires
        sx > 0,
        fits(rope_chars(*text), 0),
        wrap * sx + rx <= usize::MAX,
    ensures
        match cur {
            Some(x) => on_line(x, rope_chars(*text), sx as int, line_inx as int) && x.x_hint == 0
                && placed(x, sx as int, wrap as int, rx as int),
            None => line_inx >= line_count(rope_chars(*text)),
        },
{
    let n = rope_len_lines(text);
    if line_inx >= n {
        return None;
    }
    let cursor = cursor_from_line(text, sx, line_inx);
    proof {
        let s = rope_chars(*text);
        lemma_line_start(s, line_inx as int);
        lemma_line_cells_bound(cursor, s, sx as int);
    }
    Some(cursor_to_line_relative(text, sx, &cursor, wrap, rx))
}

/// The cells of a line of the text, and its first position, fit together in a `usize`.
proof fn lemma_line_cells_bound(cur: Cursor, s: Seq<char>, sx: int)
    requires
        on_line(cur, s, sx, cur.line_inx as int),
        fits(s, 0),
    ensures
        cur.lc0 + cur.elements@.len() <= 4 * s.len(),
        cur.elements@.len() <= 4 * cur.line@.len(),
{
    lemma_line_start(s, cur.line_inx as int);
    lemma_line_start_bounded(s, cur.line_inx + 1);
    lemma_line_start_monotone(s, cur.line_inx as int, cur.line_inx + 1);
    lemma_line_cells_len(cur.line@);
}

/// A line before another ends with a line end, so it has a cell and a row.
proof fn lemma_earlier_line_has_row(cur: Cursor, s: Seq<char>, sx: int)
    requires
        sx > 0,
        on_line(cur, s, sx, cur.line_inx as int),
        cur.line_inx + 1 < line_count(s),
    ensures
        cur.elements@.len() >= 1,
        cur.wraps >= 1,
        (cur.wraps - 1) * sx < cur.elements@.len(),
{
    lemma_line_start(s, cur.line_inx as int);
    lemma_line_start_bounded(s, cur.line_inx + 1);
    lemma_line_start_monotone(s, cur.line_inx as int, cur.line_inx + 1);
    assert(cur.line@.len() == cur.lc1 - cur.lc0);
    lemma_cells_cover(cur.line@);
    let n = cur.elements@.len() as int;
    assert((n + sx - 1) / sx >= 1 && ((n + sx - 1) / sx - 1) * sx < n) by (nonlinear_arith)
        requires
            n >= 1,
            sx > 0,
    ;
}

/// Within a line's rows, the next row's first cell is a cell of the line.
proof fn lemma_row_within(n: int, sx: int, w: int)
    requires
        sx > 0,
        0 <= w,
        w + 1 < (n + sx - 1) / sx,
    ensures
        (w + 1) * sx < n,
{
    assert((w + 1) * sx < n) by (nonlinear_arith)
        requires
            sx > 0,
            0 <= w,
            w + 1 < (n + sx - 1) / sx,
    ;
}

/// The cursor one row up, keeping its column hint on its line, or none on the first row.
pub fn cursor_visual_prev_line(text: &Rope, sx: usize, cursor: &Cursor) -> (cur: Option<Cursor>)
    requires
        sx > 0,
        valid(*cursor, rope_chars(*text), sx as int),
        fits(rope_chars(*text), cursor.x_hint as int),
    ensures
        match cur {
            Some(x) => has_prev(*cursor) && prev_rel(rope_chars(*text), sx as int, *cursor, x),
            None => !has_prev(*cursor),
        },
{
    let ghost s = rope_chars(*text);
    let rx = cursor.x_hint;
    proof {
        lemma_line_cells_bound(*cursor, s, sx as int);
        lemma_row_start_le(cursor.r as int, sx as int);
    }
    if cursor.wrap0 > 0 {
        proof {
            assert((cursor.wrap0 - 1) * sx <= cursor.wrap0 * sx) by (nonlinear_arith)
                requires
                    cursor.wrap0 >= 1,
                    sx > 0,
            ;
        }
        Some(cursor_to_line_relative(text, sx, cursor, cursor.wrap0 - 1, rx))
    } else {
        if cursor.line_inx == 0 {
            return None;
        } else {
            let c = cursor_from_line(text, sx, cursor.line_inx - 1);
            proof {
                lemma_line_start(s, cursor.line_inx - 1);
                lemma_line_cells_bound(c, s, sx as int);
                lemma_earlier_line_has_row(c, s, sx as int);
            }
            Some(cursor_to_line_relative(text, sx, &c, c.wraps - 1, rx))
        }
    }
}

/// The cursor one row down, keeping its column hint on its line, or none on the last row
/// (the rows of the text's last line are never reached).
pub fn cursor_visual_next_line(text: &Rope, sx: usize, cursor: &Cursor) -> (cur: Option<Cursor>)
    requires
        sx > 0,
        valid(*cursor, rope_chars(*text), sx as int),
        fits(rope_chars(*text), cursor.x_hint as int),
    ensures
        match cur {
            Some(x) => has_next(rope_chars(*text), *cursor) && next_rel(
                rope_chars(*text),
                sx as int,
                *cursor,
                x,
            ),
            None => !has_next(rope_chars(*text), *cursor),
        },
{
    let ghost s = rope_chars(*text);
    let rx = cursor.x_hint;
    proof {
        lemma_line_cells_bound(*cursor, s, sx as int);
        lemma_breaks_bounded(s, s.len() as int);
        lemma_row_start_le(cursor.r as int, sx as int);
        assert(cursor.wrap0 <= cursor.r) by (nonlinear_arith)
            requires
                cursor.wrap0 == cursor.r as int / (sx as int),
                sx > 0,
        ;
    }
    let wrap = cursor.wrap0 + 1;
    if wrap < cursor.wraps {
        proof {
            lemma_row_within(cursor.elements@.len() as int, sx as int, cursor.wrap0 as int);
        }
        Some(cursor_to_line_relative(text, sx, cursor, wrap, rx))
    } else {
        let line_inx = cursor.line_inx + 1;
        let n = rope_len_lines(text);
        if line_inx < n - 1 {
            cursor_line_relative(text, sx, line_inx, 0, rx)
        } else {
            None
        }
    }
}

/// A row step lands on a cursor that stands on a line of the text.
pub proof fn lemma_steps_valid(s: Seq<char>, sx: int, a: Cursor, b: Cursor)
    requires
        sx > 0,
        valid(a, s, sx),
        next_rel(s, sx, a, b) || prev_rel(s, sx, a, b),
    ensures
        valid(b, s, sx),
        b.x_hint <= a.x_hint,
{
    assert(a.wrap0 * sx >= 0) by (nonlinear_arith)
        requires
            sx > 0,
    ;
    assert(b.wraps * sx >= 0) by (nonlinear_arith)
        requires
            sx > 0,
    ;
}

/// The cursor moved `d` words on (back for a negative `d`; with `cap`, a word is anything
/// between blanks), with no column hint; unchanged for a zero `d`.
pub fn cursor_move_to_word(text: &Rope, sx: usize, cursor: &Cursor, d: i32, cap: bool) -> (cur: Cursor)
    requires
        sx > 0,
        fits(rope_chars(*text), 0),
        cursor.c <= rope_chars(*text).len(),
        d != i32::MIN,
        d > 0 ==> rope_chars(*text).len() > 0,
    ensures
        d == 0 ==> same_cursor(cur, *cursor),
        d != 0 ==> cursor_at(
            cur,
            rope_chars(*text),
            sx as int,
            word_target(rope_chars(*text), cursor.c as int, motions(d), d < 0, cap),
        ),
{
    if d == 0 {
        return cursor.clone();
    }
    let c = word_position(text, cursor.c, d, cap);
    cursor_from_char(text, sx, c, 0)
}

/// A cursor made at a position keeps its column and its position consistent: `r_to_c` of its
/// column gives back its position, and `lc_to_r` of its place in its line gives back its
/// column.
pub proof fn lemma_column_round_trip(cur: Cursor, s: Seq<char>, sx: int, c: int)
    requires
        sx > 0,
        cursor_at(cur, s, sx, c),
    ensures
        cur.lc0 + chars_before(cur.elements@, cur.r as int) == cur.c,
        columns(cur.line@, cur.c - cur.lc0) == cur.r,
{
    lemma_cursor_at_valid(cur, s, sx, c);
}

/// A column `r` with `q * sx <= r < q * sx + sx` lies in row `q`.
proof fn lemma_in_row(r: int, sx: int, q: int)
    requires
        sx > 0,
        q >= 0,
        q * sx <= r < q * sx + sx,
    ensures
        r / sx == q,
{
    assert(r / sx == q) by (nonlinear_arith)
        requires
            sx > 0,
            q >= 0,
            q * sx <= r < q * sx + sx,
    ;
}

/// A cursor on a cell of its line is on one of the line's rows.
proof fn lemma_row_of_cell(cur: Cursor, sx: int)
    requires
        sx > 0,
        cur.r < cur.elements@.len(),
        cur.wrap0 == cur.r as int / sx,
        cur.wraps == rows_for(cur.elements@.len() as int, sx),
    ensures
        cur.wrap0 < cur.wraps,
        cur.wrap0 * sx <= cur.r,
{
    let n = cur.elements@.len() as int;
    let r = cur.r as int;
    assert(r / sx < (n + sx - 1) / sx && (r / sx) * sx <= r) by (nonlinear_arith)
        requires
            sx > 0,
            0 <= r < n,
    ;
}

/// The first cell of a row before the line's last row is a cell of the line.
proof fn lemma_row_start_in_line(n: int, sx: int, w: int)
    requires
        sx > 0,
        0 <= w < (n + sx - 1) / sx,
    ensures
        w * sx < n,
{
    assert(w * sx < n) by (nonlinear_arith)
        requires
            sx > 0,
            0 <= w < (n + sx - 1) / sx,
    ;
}

/// Placing a cursor at column `x < sx` of a row of its line puts it on that row.
proof fn lemma_placed_row(b: Cursor, sx: int, w: int, x: int)
    requires
        sx > 0,
        0 <= x < sx,
        0 <= w < b.wraps,
        b.wraps == rows_for(b.elements@.len() as int, sx),
        placed(b, sx, w, x),
    ensures
        b.wrap0 == w,
{
    let n = b.elements@.len() as int;
    lemma_row_start_in_line(n, sx, w);
    assert(w * sx <= last_cell(n));
    lemma_in_row(b.r as int, sx, w);
}

/// Moving one row down and then one row up comes back to the same row of the same line,
/// for a cursor standing on a cell of its line whose column hint lies within a row.
pub proof fn lemma_down_then_up(s: Seq<char>, sx: int, a: Cursor, b: Cursor, c: Cursor)
    requires
        sx > 0,
        valid(a, s, sx),
        a.r < a.elements@.len(),
        a.x_hint < sx,
        next_rel(s, sx, a, b),
        prev_rel(s, sx, b, c),
    ensures
        c.line_inx == a.line_inx,
        c.wrap0 == a.wrap0,
{
    lemma_row_of_cell(a, sx);
    let w = a.wrap0 as int;
    let x = a.x_hint as int;
    if w + 1 < a.wraps {
        lemma_placed_row(b, sx, w + 1, x);
        lemma_placed_row(c, sx, w, x);
    } else {
        lemma_earlier_line_has_row(b, s, sx);
        lemma_placed_row(b, sx, 0, x);
        assert(c.wraps == a.wraps);
        lemma_placed_row(c, sx, c.wraps - 1, 0);
    }
}

/// Moving one row up and then one row down comes back to the same row of the same line,
/// for a cursor standing on a cell of its line whose column hint lies within a row.
pub proof fn lemma_up_then_down(s: Seq<char>, sx: int, a: Cursor, b: Cursor, c: Cursor)
    requires
        sx > 0,
        valid(a, s, sx),
        a.r < a.elements@.len(),
        a.x_hint < sx,
        prev_rel(s, sx, a, b),
        next_rel(s, sx, b, c),
    ensures
        c.line_inx == a.line_inx,
        c.wrap0 == a.wrap0,
{
    lemma_row_of_cell(a, sx);
    let w = a.wrap0 as int;
    let x = a.x_hint as int;
    if w > 0 {
        lemma_placed_row(b, sx, w - 1, x);
        lemma_placed_row(c, sx, w, x);
    } else {
        lemma_earlier_line_has_row(b, s, sx);
        lemma_placed_row(b, sx, b.wraps - 1, x);
        lemma_placed_row(c, sx, 0, 0);
    }
}

} // verus!
