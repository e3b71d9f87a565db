use ropey::Rope;
use vstd::prelude::*;

use crate::rope::rope_chars;
use crate::text::cursor::{
    cursor_to_row, cursor_visual_next_line, cursor_visual_prev_line, fits, has_next, has_prev,
    lemma_steps_valid, lemma_valid_wrap_index, next_rel, prev_rel, row_cells, same_cursor, valid,
    Cursor, RowItem,
};

verus! {

/// Each row of `out` holds the cells of its cursor's row.
pub open spec fn rows_match(out: Seq<RowItem>, sx: int) -> bool {
    forall|i: int| 0 <= i < out.len() ==> (#[trigger] out[i]).elements@ == row_cells(out[i].cursor, sx)
}

/// `out` are the rows of a screen of `sy` rows around `cursor`: the rows above it back to
/// `start` while they fit, then the rows below it while they fit; `rx` is the cursor's column
/// in its row and `ry` the number of rows above it.
pub open spec fn screen_around(
    s: Seq<char>,
    sx: int,
    sy: int,
    start: Cursor,
    cursor: Cursor,
    rx: u16,
    ry: u16,
    out: Seq<RowItem>,
) -> bool {
    let k = ry as int;
    &&& rx == (cursor.r - cursor.wrap0 * sx) as u16
    &&& 0 <= k < out.len()
    &&& same_cursor(out[k].cursor, cursor)
    &&& forall|i: int| 0 <= i < k ==> prev_rel(s, sx, #[trigger] out[i + 1].cursor, out[i].cursor)
    &&& forall|i: int| k <= i < out.len() - 1 ==> next_rel(s, sx, #[trigger] out[i].cursor, out[i + 1].cursor)
    &&& forall|i: int| 0 < i <= k ==> (#[trigger] out[i]).cursor.c > start.c
    &&& out.len() <= if sy > 1 {
        sy
    } else {
        1
    }
    &&& k < out.len() - 1 ==> (out[0].cursor.c <= start.c || !has_prev(out[0].cursor))
    &&& out.len() < sy ==> (out[0].cursor.c <= start.c || !has_prev(out[0].cursor)) && !has_next(
        s,
        out.last().cursor,
    )
    &&& rows_match(out, sx)
}

/// Lays out the rows of a screen.
pub struct LineWorker {}

impl LineWorker {
    /// The rows of a screen of `sy` rows whose first row is `start`: `start` and the rows
    /// below it, as many as fit or as the text has.
    pub fn screen_from_start(text: &Rope, sx: usize, sy: usize, start: &Cursor, _cursor: &Cursor) -> (out: Vec<RowItem>)
        requires
            sx > 0,
            valid(*start, rope_chars(*text), sx as int),
            fits(rope_chars(*text), sx as int),
            fits(rope_chars(*text), start.x_hint as int),
        ensures
            out@.len() >= 1,
            same_cursor(out@[0].cursor, *start),
            forall|i: int|
                0 <= i < out@.len() - 1 ==> next_rel(
                    rope_chars(*text),
                    sx as int,
                    #[trigger] out@[i].cursor,
                    out@[i + 1].cursor,
                ),
            rows_match(out@, sx as int),
            out@.len() <= if sy > 1 {
                sy as int
            } else {
                1
            },
            out@.len() < sy ==> !has_next(rope_chars(*text), out@.last().cursor),
    {
        let ghost s = rope_chars(*text);
        let ghost sxi = sx as int;
        let mut out: Vec<RowItem> = Vec::new();
        proof {
            lemma_valid_wrap_index(*start, s, sxi);
        }
        out.push(cursor_to_row(start, sx));
        let mut c = start.clone();
        while out.len() < sy
            invariant
                sx > 0,
                s == rope_chars(*text),
                sxi == sx as int,
                fits(s, sxi),
                fits(s, start.x_hint as int),
                out@.len() >= 1,
                out@.len() <= sy || out@.len() == 1,
                same_cursor(out@[0].cursor, *start),
                same_cursor(out@.last().cursor, c),
                valid(c, s, sxi),
                c.x_hint <= start.x_hint,
                forall|i: int|
                    0 <= i < out@.len() - 1 ==> next_rel(s, sxi, #[trigger] out@[i].cursor, out@[i + 1].cursor),
                rows_match(out@, sxi),
            ensures
                out@.len() >= 1,
                same_cursor(out@[0].cursor, *start),
                forall|i: int|
                    0 <= i < out@.len() - 1 ==> next_rel(s, sxi, #[trigger] out@[i].cursor, out@[i + 1].cursor),
                rows_match(out@, sxi),
                out@.len() <= if sy > 1 {
                    sy as int
                } else {
                    1
                },
                out@.len() < sy ==> !has_next(s, out@.last().cursor),
            decreases sy - out@.len(),
        {
            match cursor_visual_next_line(text, sx, &c) {
                Some(x) => {
                    proof {
                        lemma_steps_valid(s, sxi, c, x);
                        lemma_valid_wrap_index(x, s, sxi);
                    }
                    let ghost before = out@;
                    let row = cursor_to_row(&x, sx);
                    out.push(row);
                    proof {
                        let p = out@;
                        assert forall|i: int| 0 <= i < p.len() - 1 implies next_rel(
                            s,
                            sxi,
                            #[trigger] p[i].cursor,
                            p[i + 1].cursor,
                        ) by {
                            if i < before.len() - 1 {
                                assert(p[i] == before[i] && p[i + 1] == before[i + 1]);
                            } else {
                                assert(p[i] == before.last() && p[i + 1] == row);
                            }
                        }
                        assert forall|i: int| 0 <= i < p.len() implies (#[trigger] p[i]).elements@
                            == row_cells(p[i].cursor, sxi) by {
                            if i < before.len() {
                                assert(p[i] == before[i]);
                            }
                        }
                    }
                    c = x;
                },
                None => {
                    break;
                },
            }
        }
        out
    }

    /// The rows of a screen of `sy` rows around `cursor`: the rows above it back to `start`
    /// (while they fit), then the rows below it (while they fit); with the cursor's column
    /// in its row and the number of rows above it.
    pub fn screen_from_cursor(text: &Rope, sx: usize, sy: usize, start: &Cursor, cursor: &Cursor) -> (r: (u16, u16, Vec<RowItem>))
        requires
            sx > 0,
            sy <= 65536,
            valid(*cursor, rope_chars(*text), sx as int),
            fits(rope_chars(*text), sx as int),
            fits(rope_chars(*text), cursor.x_hint as int),
        ensures
            screen_around(rope_chars(*text), sx as int, sy as int, *start, *cursor, r.0, r.1, r.2@),
    {
        let ghost s = rope_chars(*text);
        let ghost sxi = sx as int;
        proof {
            crate::text::cursor::lemma_row_start_le(cursor.r as int, sxi);
            lemma_valid_wrap_index(*cursor, s, sxi);
        }
        let mut out: Vec<RowItem> = Vec::new();
        let rx = cursor.rx(sx);
        let mut ry: u16 = 0;
        out.push(cursor_to_row(cursor, sx));
        let mut cp = cursor.clone();
        while out.len() < sy
            invariant
                sx > 0,
                sy <= 65536,
                sxi == sx as int,
                s == rope_chars(*text),
                fits(s, sxi),
                fits(s, cursor.x_hint as int),
                out@.len() >= 1,
                out@.len() <= sy || out@.len() == 1,
                ry as int == out@.len() - 1,
                same_cursor(out@[ry as int].cursor, *cursor),
                same_cursor(out@[0].cursor, cp),
                valid(cp, s, sxi),
                cp.x_hint <= cursor.x_hint,
                forall|i: int| 0 <= i < ry ==> prev_rel(s, sxi, #[trigger] out@[i + 1].cursor, out@[i].cursor),
                forall|i: int| 0 < i <= ry ==> (#[trigger] out@[i]).cursor.c > start.c,
                rows_match(out@, sxi),
            ensures
                out@.len() >= 1,
                out@.len() <= sy || out@.len() == 1,
                ry as int == out@.len() - 1,
                same_cursor(out@[ry as int].cursor, *cursor),
                forall|i: int| 0 <= i < ry ==> prev_rel(s, sxi, #[trigger] out@[i + 1].cursor, out@[i].cursor),
                forall|i: int| 0 < i <= ry ==> (#[trigger] out@[i]).cursor.c > start.c,
                out@.len() < sy ==> (out@[0].cursor.c <= start.c || !has_prev(out@[0].cursor)),
                rows_match(out@, sxi),
            decreases sy - out@.len(),
        {
            if cp.c <= start.c {
                break;
            }
            match cursor_visual_prev_line(text, sx, &cp) {
                Some(x) => {
                    proof {
                        lemma_steps_valid(s, sxi, cp, x);
                        lemma_valid_wrap_index(x, s, sxi);
                    }
                    let ghost before = out@;
                    let row = cursor_to_row(&x, sx);
                    out.insert(0, row);
                    proof {
                        let p = out@;
                        assert(p[0] == row);
                        assert forall|i: int| 0 <= i < before.len() implies p[i + 1] == before[i] by {}
                        assert forall|i: int| 0 <= i < p.len() - 1 implies prev_rel(
                            s,
                            sxi,
                            #[trigger] p[i + 1].cursor,
                            p[i].cursor,
                        ) by {
                            if i > 0 {
                                assert(p[i] == before[i - 1] && p[i + 1] == before[i]);
                                assert(prev_rel(s, sxi, before[(i - 1) + 1].cursor, before[i - 1].cursor));
                            } else {
                                assert(p[1] == before[0]);
                            }
                        }
                        assert forall|i: int| 0 < i < p.len() implies (#[trigger] p[i]).cursor.c > start.c by {
                            assert(p[i] == before[i - 1]);
                        }
                        assert forall|i: int| 0 <= i < p.len() implies (#[trigger] p[i]).elements@
                            == row_cells(p[i].cursor, sxi) by {
                            if i > 0 {
                                assert(p[i] == before[i - 1]);
                            }
                        }
                        assert(p[ry + 1] == before[ry as int]);
                    }
                    cp = x;
                    ry = ry + 1;
                },
                None => {
                    break;
                },
            }
        }
        let ghost k = ry as int;
        let mut cn = cursor.clone();
        while out.len() < sy
            invariant
                sx > 0,
                sxi == sx as int,
                s == rope_chars(*text),
                fits(s, sxi),
                fits(s, cursor.x_hint as int),
                0 <= k < out@.len(),
                k == ry as int,
                out@.len() <= sy || out@.len() == 1,
                same_cursor(out@[k].cursor, *cursor),
                same_cursor(out@.last().cursor, cn),
                valid(cn, s, sxi),
                cn.x_hint <= cursor.x_hint,
                forall|i: int| 0 <= i < k ==> prev_rel(s, sxi, #[trigger] out@[i + 1].cursor, out@[i].cursor),
                forall|i: int| k <= i < out@.len() - 1 ==> next_rel(s, sxi, #[trigger] out@[i].cursor, out@[i + 1].cursor),
                forall|i: int| 0 < i <= k ==> (#[trigger] out@[i]).cursor.c > start.c,
                k < out@.len() - 1 ==> (out@[0].cursor.c <= start.c || !has_prev(out@[0].cursor)),
                out@.len() < sy ==> (out@[0].cursor.c <= start.c || !has_prev(out@[0].cursor)),
                rows_match(out@, sxi),
            ensures
                0 <= k < out@.len(),
                out@.len() <= sy || out@.len() == 1,
                same_cursor(out@[k].cursor, *cursor),
                forall|i: int| 0 <= i < k ==> prev_rel(s, sxi, #[trigger] out@[i + 1].cursor, out@[i].cursor),
                forall|i: int| k <= i < out@.len() - 1 ==> next_rel(s, sxi, #[trigger] out@[i].cursor, out@[i + 1].cursor),
                forall|i: int| 0 < i <= k ==> (#[trigger] out@[i]).cursor.c > start.c,
                k < out@.len() - 1 ==> (out@[0].cursor.c <= start.c || !has_prev(out@[0].cursor)),
                out@.len() < sy ==> (out@[0].cursor.c <= start.c || !has_prev(out@[0].cursor)) && !has_next(s, out@.last().cursor),
                rows_match(out@, sxi),
            decreases sy - out@.len(),
        {
            match cursor_visual_next_line(text, sx, &cn) {
                Some(x) => {
                    proof {
                        lemma_steps_valid(s, sxi, cn, x);
                        lemma_valid_wrap_index(x, s, sxi);
                    }
                    let ghost before = out@;
                    let row = cursor_to_row(&x, sx);
                    out.push(row);
                    proof {
                        let p = out@;
                        assert forall|i: int| 0 <= i < before.len() implies p[i] == before[i] by {}
                        assert forall|i: int| k <= i < p.len() - 1 implies next_rel(
                            s,
                            sxi,
                            #[trigger] p[i].cursor,
                            p[i + 1].cursor,
                        ) by {
                            if i < before.len() - 1 {
                                assert(p[i] == before[i] && p[i + 1] == before[i + 1]);
                            } else {
                                assert(p[i] == before.last() && p[i + 1] == row);
                            }
                        }
                        assert forall|i: int| 0 <= i < k implies prev_rel(s, sxi, #[trigger] p[i + 1].cursor, p[i].cursor) by {
                            assert(p[i] == before[i] && p[i + 1] == before[i + 1]);
                        }
                        assert forall|i: int| 0 < i <= k implies (#[trigger] p[i]).cursor.c > start.c by {
                            assert(p[i] == before[i]);
                        }
                        assert forall|i: int| 0 <= i < p.len() implies (#[trigger] p[i]).elements@
                            == row_cells(p[i].cursor, sxi) by {
                            if i < before.len() {
                                assert(p[i] == before[i]);
                            }
                        }
                    }
                    cn = x;
                },
                None => {
                    break;
                },
            }
        }
        (rx as u16, ry, out)
    }
}

} // verus!
