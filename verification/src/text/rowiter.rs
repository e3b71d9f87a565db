use ropey::Rope;
use vstd::prelude::*;

use crate::div_ceil;
use crate::rope::{
    lemma_line_start, lemma_line_start_bounded, lemma_line_start_monotone, line_count, line_start,
    rope_chars, rope_clone, rope_len_lines, rope_line_string,
};
use crate::text::cursor::{
    at_most, fits, rows_for, same_cursor, string_to_elements, Cursor, RowItem,
};
use crate::text::linewrap::{copy_row, lemma_line_cells_len, line_cells};
use crate::text::ViewChar;

verus! {

/// The cells of the row that `RowIter::next` hands out for the cursor's column `r`: the row
/// holding that column, if the line has cells and that row exists.
pub open spec fn row_next(es: Seq<ViewChar>, sx: int, r: int) -> Option<Seq<ViewChar>> {
    let cur = r / sx;
    if es.len() == 0 || cur >= rows_for(es.len() as int, sx) {
        None
    } else {
        Some(es.subrange(cur * sx, at_most(es.len() as int, cur * sx + sx)))
    }
}

/// The cells of the row that `RowIter::prev` hands out for the cursor's column `r`: the row
/// before the one holding that column, if the line has cells and that row exists.
pub open spec fn row_prev(es: Seq<ViewChar>, sx: int, r: int) -> Option<Seq<ViewChar>> {
    let cur = r / sx;
    if es.len() == 0 || cur == 0 {
        None
    } else {
        Some(es.subrange((cur - 1) * sx, at_most(es.len() as int, (cur - 1) * sx + sx)))
    }
}

/// `item` is the row `cells` laid out from `cursor`, or there is none and no item.
pub open spec fn row_item_is(item: Option<RowItem>, cells: Option<Seq<ViewChar>>, cursor: Cursor) -> bool {
    match item {
        Some(it) => cells matches Some(cs) && it.elements@ == cs && same_cursor(it.cursor, cursor),
        None => cells is None,
    }
}

/// The cells of line `l` of `s`.
pub open spec fn cells_of_line(s: Seq<char>, l: int) -> Seq<ViewChar> {
    line_cells(s.subrange(line_start(s, l), line_start(s, l + 1)))
}

/// Hands out the rows of a line's cells around a cursor's column.
#[derive(Debug)]
pub struct RowIter {
    text: Rope,
    cursor: Cursor,
    sx: usize,
}

impl RowIter {
    pub closed spec fn spec_text(&self) -> Seq<char> {
        rope_chars(self.text)
    }

    pub closed spec fn spec_cursor(&self) -> Cursor {
        self.cursor
    }

    pub closed spec fn spec_sx(&self) -> usize {
        self.sx
    }

    /// An iterator over the rows of a line, from the row of `cursor`.
    pub fn new(text: Rope, sx: usize, cursor: Cursor) -> (it: Self)
        ensures
            it.spec_text() == rope_chars(text),
            it.spec_sx() == sx,
            it.spec_cursor() == cursor,
    {
        Self { text, sx, cursor }
    }

    /// The row of `elements` holding the cursor's column, or none when the line has no cells
    /// or no such row.
    pub fn next(&mut self, elements: &Vec<ViewChar>) -> (r: Option<RowItem>)
        requires
            old(self).spec_sx() > 0,
            elements@.len() + old(self).spec_sx() <= usize::MAX,
        ensures
            *final(self) == *old(self),
            row_item_is(
                r,
                row_next(elements@, old(self).spec_sx() as int, old(self).spec_cursor().r as int),
                old(self).spec_cursor(),
            ),
    {
        if elements.len() == 0 {
            return None;
        }
        let wraps = div_ceil(elements.len(), self.sx);
        let current = self.cursor.r / self.sx;
        if current >= wraps {
            return None;
        }
        let ghost n = elements@.len() as int;
        let ghost sxi = self.sx as int;
        proof {
            assert(current * sxi < n) by (nonlinear_arith)
                requires
                    current < (n + sxi - 1) / sxi,
                    sxi > 0,
                    current >= 0,
            ;
        }
        let start = current * self.sx;
        let end = if elements.len() < start + self.sx {
            elements.len()
        } else {
            start + self.sx
        };
        let cells = copy_row(vstd::slice::slice_subrange(elements.as_slice(), start, end));
        Some(RowItem { elements: cells, cursor: self.cursor.clone() })
    }

    /// The row of `elements` before the one holding the cursor's column, or none when the
    /// line has no cells or the cursor is on its first row.
    pub fn prev(&mut self, elements: &Vec<ViewChar>) -> (r: Option<RowItem>)
        requires
            old(self).spec_sx() > 0,
            elements@.len() > 0 && old(self).spec_cursor().r / old(self).spec_sx() > 0 ==> (
            old(self).spec_cursor().r / old(self).spec_sx() - 1) * old(self).spec_sx()
                <= elements@.len(),
        ensures
            *final(self) == *old(self),
            row_item_is(
                r,
                row_prev(elements@, old(self).spec_sx() as int, old(self).spec_cursor().r as int),
                old(self).spec_cursor(),
            ),
    {
        if elements.len() == 0 {
            return None;
        }
        let mut current = self.cursor.r / self.sx;
        if current == 0 {
            return None;
        }
        current = current - 1;
        let ghost sxi = self.sx as int;
        proof {
            assert(current * sxi + sxi <= self.cursor.r) by (nonlinear_arith)
                requires
                    current + 1 == (self.cursor.r as int) / sxi,
                    sxi > 0,
                    current >= 0,
            ;
        }
        let start = current * self.sx;
        let end = if elements.len() < start + self.sx {
            elements.len()
        } else {
            start + self.sx
        };
        let cells = copy_row(vstd::slice::slice_subrange(elements.as_slice(), start, end));
        Some(RowItem { elements: cells, cursor: self.cursor.clone() })
    }
}

/// Hands out the rows of a text line by line: the rows of the cursor's line, then those of
/// the lines after (or before) it.
pub struct LineIter {
    text: Rope,
    cursor: Cursor,
    sx: usize,
    row_iter: RowIter,
    elements: Vec<ViewChar>,
}

impl LineIter {
    pub closed spec fn spec_text(&self) -> Seq<char> {
        rope_chars(self.text)
    }

    pub closed spec fn spec_cursor(&self) -> Cursor {
        self.cursor
    }

    pub closed spec fn spec_sx(&self) -> usize {
        self.sx
    }

    pub closed spec fn spec_elements(&self) -> Seq<ViewChar> {
        self.elements@
    }

    /// The text, width and cursor of the iterator over the current line's rows.
    pub closed spec fn spec_rows(&self) -> (Seq<char>, usize, Cursor) {
        (self.row_iter.spec_text(), self.row_iter.spec_sx(), self.row_iter.spec_cursor())
    }

    /// The iterator's parts agree: the current line's cells and an iterator over its rows,
    /// all over the same text and width; the text's lines' cells fit in a `usize` with a
    /// row's width added.
    pub open spec fn wf(&self) -> bool {
        &&& self.spec_sx() > 0
        &&& fits(self.spec_text(), self.spec_sx() as int)
        &&& self.spec_rows().0 == self.spec_text()
        &&& self.spec_rows().1 == self.spec_sx()
        &&& self.spec_elements().len() + self.spec_sx() <= usize::MAX
    }

    /// An iterator from the row of `cursor`, with the cells of the cursor's line.
    pub fn new(text: Rope, sx: usize, cursor: Cursor) -> (it: Self)
        requires
            sx > 0,
            fits(rope_chars(text), sx as int),
            cursor.line_inx < line_count(rope_chars(text)),
        ensures
            it.wf(),
            it.spec_text() == rope_chars(text),
            it.spec_sx() == sx,
            same_cursor(it.spec_cursor(), cursor),
            same_cursor(it.spec_rows().2, cursor),
            it.spec_elements() == cells_of_line(rope_chars(text), cursor.line_inx as int),
    {
        let line = rope_line_string(&text, cursor.line_inx);
        let elements = string_to_elements(&line);
        proof {
            lemma_line_fits(rope_chars(text), cursor.line_inx as int);
        }
        let row_iter = RowIter::new(rope_clone(&text), sx, cursor.clone());
        Self { text, sx, cursor, row_iter, elements }
    }

    /// The row of the current line at the row iterator's cursor; past the line's rows, the
    /// first row handed out for the next line (none after the last line).
    pub fn next(&mut self) -> (r: Option<RowItem>)
        requires
            old(self).wf(),
            old(self).spec_cursor().line_inx < usize::MAX,
        ensures
            final(self).wf(),
            final(self).spec_text() == old(self).spec_text(),
            final(self).spec_sx() == old(self).spec_sx(),
            ({
                let s = old(self).spec_text();
                let sx = old(self).spec_sx() as int;
                let c = old(self).spec_rows().2;
                let l = old(self).spec_cursor().line_inx + 1;
                match row_next(old(self).spec_elements(), sx, c.r as int) {
                    Some(cells) => row_item_is(r, Some(cells), c) && *final(self) == *old(self),
                    None => {
                        &&& same_cursor(
                            final(self).spec_cursor(),
                            Cursor { line_inx: l as usize, ..old(self).spec_cursor() },
                        )
                        &&& if l >= line_count(s) {
                            &&& r is None
                            &&& final(self).spec_elements() == old(self).spec_elements()
                            &&& final(self).spec_rows() == old(self).spec_rows()
                        } else {
                            &&& final(self).spec_elements() == cells_of_line(s, l)
                            &&& same_cursor(final(self).spec_rows().2, final(self).spec_cursor())
                            &&& row_item_is(
                                r,
                                row_next(final(self).spec_elements(), sx, final(self).spec_cursor().r as int),
                                final(self).spec_cursor(),
                            )
                        }
                    },
                }
            }),
    {
        match self.row_iter.next(&self.elements) {
            Some(ri) => Some(ri),
            None => {
                self.cursor.line_inx = self.cursor.line_inx + 1;
                let n = rope_len_lines(&self.text);
                if self.cursor.line_inx >= n {
                    None
                } else {
                    let line = rope_line_string(&self.text, self.cursor.line_inx);
                    self.elements = string_to_elements(&line);
                    proof {
                        lemma_line_fits(rope_chars(self.text), self.cursor.line_inx as int);
                    }
                    let row_iter = RowIter::new(rope_clone(&self.text), self.sx, self.cursor.clone());
                    self.row_iter = row_iter;
                    self.row_iter.next(&self.elements)
                }
            },
        }
    }

    /// The row of the current line before the row iterator's cursor; on the line's first
    /// row, the first row handed out for the line before (none on the first line).
    pub fn prev(&mut self) -> (r: Option<RowItem>)
        requires
            old(self).wf(),
            old(self).spec_cursor().line_inx <= line_count(old(self).spec_text()),
            ({
                let c = old(self).spec_rows().2;
                let sx = old(self).spec_sx() as int;
                old(self).spec_elements().len() > 0 && (c.r as int) / sx > 0 ==> ((c.r as int) / sx - 1) * sx
                    <= old(self).spec_elements().len()
            }),
        ensures
            final(self).wf(),
            final(self).spec_text() == old(self).spec_text(),
            final(self).spec_sx() == old(self).spec_sx(),
            ({
                let s = old(self).spec_text();
                let sx = old(self).spec_sx() as int;
                let c = old(self).spec_rows().2;
                let l = old(self).spec_cursor().line_inx - 1;
                match row_prev(old(self).spec_elements(), sx, c.r as int) {
                    Some(cells) => row_item_is(r, Some(cells), c) && *final(self) == *old(self),
                    None => if old(self).spec_cursor().line_inx == 0 {
                        r is None && *final(self) == *old(self)
                    } else {
                        &&& same_cursor(
                            final(self).spec_cursor(),
                            Cursor { line_inx: l as usize, ..old(self).spec_cursor() },
                        )
                        &&& final(self).spec_elements() == cells_of_line(s, l)
                        &&& same_cursor(final(self).spec_rows().2, final(self).spec_cursor())
                        &&& row_item_is(
                            r,
                            row_next(final(self).spec_elements(), sx, final(self).spec_cursor().r as int),
                            final(self).spec_cursor(),
                        )
                    },
                }
            }),
    {
        match self.row_iter.prev(&self.elements) {
            Some(ri) => Some(ri),
            None => {
                if self.cursor.line_inx == 0 {
                    None
                } else {
                    self.cursor.line_inx = self.cursor.line_inx - 1;
                    let line = rope_line_string(&self.text, self.cursor.line_inx);
                    self.elements = string_to_elements(&line);
                    proof {
                        lemma_line_fits(rope_chars(self.text), self.cursor.line_inx as int);
                    }
                    self.row_iter = RowIter::new(rope_clone(&self.text), self.sx, self.cursor.clone());
                    let mut it = RowIter::new(rope_clone(&self.text), self.sx, self.cursor.clone());
                    it.next(&self.elements)
                }
            },
        }
    }
}

/// The cells of a line of a text that fits are no more than four times the text's length.
proof fn lemma_line_fits(s: Seq<char>, l: int)
    requires
        0 <= l < line_count(s),
    ensures
        cells_of_line(s, l).len() <= 4 * s.len(),
{
    lemma_line_start(s, l);
    lemma_line_start_bounded(s, l + 1);
    lemma_line_start_monotone(s, l, l + 1);
    lemma_line_cells_len(s.subrange(line_start(s, l), line_start(s, l + 1)));
}

} // verus!
