use ropey::Rope;
use vstd::prelude::*;

use crate::rope::{line_count, rope_chars};
use crate::tui::cursor::{
    cursor_visual_next_line, cursor_visual_prev_line, has_next, has_prev, lemma_steps_same,
    next_rel, prev_rel, same_cursor, walk, Cursor,
};
use crate::config::BufferConfig;
use crate::tui::cursor::line_data;
use crate::tui::viewchar::tab_ok;

verus! {

/// `out` are the rows of a screen of `sy` rows around `cursor`: the rows above it back to
/// `start` while they fit, then the rows below it while they fit; `rx` is the cursor's column
/// in its row and `ry` the number of rows above it.
pub open spec fn screen_around(
    s: Seq<char>,
    sx: int,
    sy: int,
    start: Cursor,
    cursor: Cursor,
    rx: u16,
    ry: u16,
    out: Seq<Cursor>,
) -> bool {
    let k = ry as int;
    &&& rx == (cursor.r - cursor.wrap0 * sx) as u16
    &&& 0 <= k < out.len()
    &&& same_cursor(out[k], cursor)
    &&& forall|i: int| 0 <= i < k ==> prev_rel(s, sx, #[trigger] out[i + 1], out[i])
    &&& forall|i: int| k <= i < out.len() - 1 ==> next_rel(s, sx, #[trigger] out[i], out[i + 1])
    &&& forall|i: int| 0 < i <= k ==> (#[trigger] out[i]).c > start.c
    &&& out.len() <= if sy > 1 {
        sy
    } else {
        1
    }
    &&& k < out.len() - 1 ==> (out[0].c <= start.c || !has_prev(out[0]))
    &&& out.len() < sy ==> (out[0].c <= start.c || !has_prev(out[0])) && !has_next(s, out.last())
}

/// Lays out the rows of a screen.
pub struct LineWorker {}

impl LineWorker {
    /// The rows of a screen of `sy` rows whose first row is `start`: `start` and the rows
    /// below it, as many as fit or as the text has.
    pub fn screen_from_start(text: &Rope, sx: usize, sy: usize, start: &Cursor, _cursor: &Cursor) -> (out: Vec<Cursor>)
        requires
            sx > 0,
            tab_ok(start.config),
        ensures
            out@.len() >= 1,
            same_cursor(out@[0], *start),
            walk(rope_chars(*text), sx as int, out@, true),
            out@.len() <= if sy > 1 {
                sy as int
            } else {
                1
            },
            out@.len() < sy ==> !has_next(rope_chars(*text), out@.last()),
    {
        let ghost s = rope_chars(*text);
        let mut out: Vec<Cursor> = Vec::new();
        out.push(start.clone());
        let mut c = start.clone();
        while out.len() < sy
            invariant
                sx > 0,
                s == rope_chars(*text),
                out@.len() >= 1,
                out@.len() <= sy || out@.len() == 1,
                same_cursor(out@[0], *start),
                same_cursor(out@.last(), c),
                walk(s, sx as int, out@, true),
                c.config == start.config,
                tab_ok(start.config),
            ensures
                out@.len() >= 1,
                same_cursor(out@[0], *start),
                walk(s, sx as int, out@, true),
                out@.len() <= if sy > 1 {
                    sy as int
                } else {
                    1
                },
                out@.len() < sy ==> !has_next(s, out@.last()),
            decreases sy - out@.len(),
        {
            match cursor_visual_next_line(text, sx, &c) {
                Some(x) => {
                    let ghost before = out@;
                    let y = x.clone();
                    out.push(y);
                    proof {
                        lemma_next_step(s, sx as int, before, c, x, y);
                        crate::tui::cursor::lemma_next_keeps(c, x, sx as int, s);
                    }
                    c = x;
                },
                None => {
                    proof {
                        assert(!has_next(s, out@.last()));
                    }
                    break;
                },
            }
        }
        out
    }

    /// The rows of a screen of `sy` rows around `cursor`: the rows above it back to `start`
    /// (while they fit), then the rows below it (while they fit); with the cursor's column
    /// in its row and the number of rows above it.
    pub fn screen_from_cursor(text: &Rope, sx: usize, sy: usize, start: &Cursor, cursor: &Cursor) -> (r: (u16, u16, Vec<Cursor>))
        requires
            sx > 0,
            sy <= 65536,
            tab_ok(cursor.config),
            cursor.line_inx <= line_count(rope_chars(*text)),
            cursor.wrap0 * sx <= cursor.r,
        ensures
            screen_around(rope_chars(*text), sx as int, sy as int, *start, *cursor, r.0, r.1, r.2@),
    {
        let ghost s = rope_chars(*text);
        let mut out: Vec<Cursor> = Vec::new();
        let rx = cursor.rx(sx);
        let mut ry: u16 = 0;
        out.push(cursor.clone());
        let mut cp = cursor.clone();
        let mut stopped = false;
        while out.len() < sy
            invariant
                sx > 0,
                sy <= 65536,
                s == rope_chars(*text),
                out@.len() >= 1,
                out@.len() <= sy || out@.len() == 1,
                ry as int == out@.len() - 1,
                same_cursor(out@[ry as int], *cursor),
                same_cursor(out@[0], cp),
                forall|i: int| 0 <= i < ry ==> prev_rel(s, sx as int, #[trigger] out@[i + 1], out@[i]),
                forall|i: int| 0 < i <= ry ==> (#[trigger] out@[i]).c > start.c,
                cp.config == cursor.config,
                tab_ok(cursor.config),
                cp.line_inx <= line_count(s),
                stopped ==> (out@[0].c <= start.c || !has_prev(out@[0])),
            ensures
                out@.len() >= 1,
                out@.len() <= sy || out@.len() == 1,
                ry as int == out@.len() - 1,
                same_cursor(out@[ry as int], *cursor),
                forall|i: int| 0 <= i < ry ==> prev_rel(s, sx as int, #[trigger] out@[i + 1], out@[i]),
                forall|i: int| 0 < i <= ry ==> (#[trigger] out@[i]).c > start.c,
                out@.len() < sy ==> (out@[0].c <= start.c || !has_prev(out@[0])),
            decreases sy - out@.len(),
        {
            if cp.c <= start.c {
                break;
            }
            match cursor_visual_prev_line(text, sx, &cp) {
                Some(x) => {
                    let ghost before = out@;
                    let y = x.clone();
                    out.insert(0, y);
                    proof {
                        lemma_prev_step(s, sx as int, before, cp, x, y, start.c as int);
                        crate::tui::cursor::lemma_prev_keeps(cp, x, sx as int, s);
                    }
                    cp = x;
                    ry = ry + 1;
                },
                None => {
                    break;
                },
            }
        }
        let ghost k = ry as int;
        let mut cn = cursor.clone();
        while out.len() < sy
            invariant
                sx > 0,
                s == rope_chars(*text),
                0 <= k < out@.len(),
                k == ry as int,
                out@.len() <= sy || out@.len() == 1,
                same_cursor(out@[k], *cursor),
                same_cursor(out@.last(), cn),
                forall|i: int| 0 <= i < k ==> prev_rel(s, sx as int, #[trigger] out@[i + 1], out@[i]),
                forall|i: int| k <= i < out@.len() - 1 ==> next_rel(s, sx as int, #[trigger] out@[i], out@[i + 1]),
                forall|i: int| 0 < i <= k ==> (#[trigger] out@[i]).c > start.c,
                k < out@.len() - 1 ==> (out@[0].c <= start.c || !has_prev(out@[0])),
                out@.len() < sy ==> (out@[0].c <= start.c || !has_prev(out@[0])),
                cn.config == cursor.config,
                tab_ok(cursor.config),
            ensures
                0 <= k < out@.len(),
                out@.len() <= sy || out@.len() == 1,
                same_cursor(out@[k], *cursor),
                forall|i: int| 0 <= i < k ==> prev_rel(s, sx as int, #[trigger] out@[i + 1], out@[i]),
                forall|i: int| k <= i < out@.len() - 1 ==> next_rel(s, sx as int, #[trigger] out@[i], out@[i + 1]),
                forall|i: int| 0 < i <= k ==> (#[trigger] out@[i]).c > start.c,
                k < out@.len() - 1 ==> (out@[0].c <= start.c || !has_prev(out@[0])),
                out@.len() < sy ==> (out@[0].c <= start.c || !has_prev(out@[0])) && !has_next(s, out@.last()),
            decreases sy - out@.len(),
        {
            match cursor_visual_next_line(text, sx, &cn) {
                Some(x) => {
                    let ghost before = out@;
                    let y = x.clone();
                    out.push(y);
                    proof {
                        lemma_next_step_from(s, sx as int, before, cn, x, y, k);
                        crate::tui::cursor::lemma_next_keeps(cn, x, sx as int, s);
                    }
                    cn = x;
                },
                None => {
                    break;
                },
            }
        }
        (rx as u16, ry, out)
    }
}

/// Pushing a row reached by one step down keeps a walk down.
proof fn lemma_next_step(s: Seq<char>, sx: int, before: Seq<Cursor>, c: Cursor, x: Cursor, y: Cursor)
    requires
        before.len() >= 1,
        walk(s, sx, before, true),
        same_cursor(before.last(), c),
        next_rel(s, sx, c, x),
        same_cursor(y, x),
    ensures
        walk(s, sx, before.push(y), true),
        before.push(y)[0] == before[0],
        same_cursor(before.push(y).last(), x),
{
    lemma_steps_same(s, sx, c, before.last(), x, y);
    let p = before.push(y);
    assert forall|i: int| 0 <= i < p.len() - 1 implies next_rel(s, sx, #[trigger] p[i], p[i + 1]) by {
        if i < before.len() - 1 {
            assert(p[i] == before[i] && p[i + 1] == before[i + 1]);
        }
    }
}

/// Pushing a row reached by one step down keeps the steps down from row `k` on.
proof fn lemma_next_step_from(s: Seq<char>, sx: int, before: Seq<Cursor>, c: Cursor, x: Cursor, y: Cursor, k: int)
    requires
        0 <= k < before.len(),
        forall|i: int| k <= i < before.len() - 1 ==> next_rel(s, sx, #[trigger] before[i], before[i + 1]),
        same_cursor(before.last(), c),
        next_rel(s, sx, c, x),
        same_cursor(y, x),
    ensures
        forall|i: int| k <= i < before.push(y).len() - 1 ==> next_rel(s, sx, #[trigger] before.push(y)[i], before.push(y)[i + 1]),
        forall|i: int| 0 <= i < before.len() ==> before.push(y)[i] == before[i],
        same_cursor(before.push(y).last(), x),
{
    lemma_steps_same(s, sx, c, before.last(), x, y);
    let p = before.push(y);
    assert forall|i: int| k <= i < p.len() - 1 implies next_rel(s, sx, #[trigger] p[i], p[i + 1]) by {
        if i < before.len() - 1 {
            assert(p[i] == before[i] && p[i + 1] == before[i + 1]);
        }
    }
}

/// Putting in front a row reached by one step up keeps the steps up to the cursor's row.
proof fn lemma_prev_step(s: Seq<char>, sx: int, before: Seq<Cursor>, c: Cursor, x: Cursor, y: Cursor, start_c: int)
    requires
        before.len() >= 1,
        forall|i: int| 0 <= i < before.len() - 1 ==> prev_rel(s, sx, #[trigger] before[i + 1], before[i]),
        forall|i: int| 0 < i < before.len() ==> (#[trigger] before[i]).c > start_c,
        same_cursor(before[0], c),
        c.c > start_c,
        prev_rel(s, sx, c, x),
        same_cursor(y, x),
    ensures
        ({
            let p = before.insert(0, y);
            &&& forall|i: int| 0 <= i < p.len() - 1 ==> prev_rel(s, sx, #[trigger] p[i + 1], p[i])
            &&& forall|i: int| 0 < i < p.len() ==> (#[trigger] p[i]).c > start_c
            &&& same_cursor(p[0], x)
            &&& forall|i: int| 0 <= i < before.len() ==> p[i + 1] == before[i]
        }),
{
    lemma_steps_same(s, sx, c, before[0], x, y);
    let p = before.insert(0, y);
    assert forall|i: int| 0 <= i < p.len() - 1 implies prev_rel(s, sx, #[trigger] p[i + 1], p[i]) by {
        if i > 0 {
            assert(p[i] == before[i - 1] && p[i + 1] == before[i]);
            assert(prev_rel(s, sx, before[(i - 1) + 1], before[i - 1]));
        } else {
            assert(p[0] == y && p[1] == before[0]);
            assert(prev_rel(s, sx, before[0], y));
        }
    }
    assert forall|i: int| 0 < i < p.len() implies (#[trigger] p[i]).c > start_c by {
        assert(p[i] == before[i - 1]);
    }
}

/// Row `i + 1` of `out` is row `i` moved one row down.
pub open spec fn next_at(s: Seq<char>, sx: int, out: Seq<Cursor>, i: int) -> bool {
    next_rel(s, sx, out[i], out[i + 1])
}

/// Row `i` of `out` is row `i + 1` moved one row up.
pub open spec fn prev_at(s: Seq<char>, sx: int, out: Seq<Cursor>, i: int) -> bool {
    prev_rel(s, sx, out[i + 1], out[i])
}

/// A row step keeps the line fields describing a line of the text.
proof fn lemma_step_line_data(s: Seq<char>, sx: int, config: BufferConfig, a: Cursor, b: Cursor, down: bool)
    requires
        line_data(a, s, sx, config, a.line_inx as int),
        if down {
            next_rel(s, sx, a, b)
        } else {
            prev_rel(s, sx, a, b)
        },
    ensures
        line_data(b, s, sx, config, b.line_inx as int),
{
}

proof fn lemma_lines_down(s: Seq<char>, sx: int, config: BufferConfig, out: Seq<Cursor>, k: int, j: int)
    requires
        0 <= k <= j < out.len(),
        line_data(out[k], s, sx, config, out[k].line_inx as int),
        forall|i: int| k <= i < out.len() - 1 ==> #[trigger] next_at(s, sx, out, i),
    ensures
        line_data(out[j], s, sx, config, out[j].line_inx as int),
    decreases j - k,
{
    if j > k {
        lemma_lines_down(s, sx, config, out, k, j - 1);
        assert(next_at(s, sx, out, j - 1));
        lemma_step_line_data(s, sx, config, out[j - 1], out[j], true);
    }
}

proof fn lemma_lines_up(s: Seq<char>, sx: int, config: BufferConfig, out: Seq<Cursor>, k: int, j: int)
    requires
        0 <= j <= k < out.len(),
        line_data(out[k], s, sx, config, out[k].line_inx as int),
        forall|i: int| 0 <= i < k ==> #[trigger] prev_at(s, sx, out, i),
    ensures
        line_data(out[j], s, sx, config, out[j].line_inx as int),
    decreases k - j,
{
    if j < k {
        lemma_lines_up(s, sx, config, out, k, j + 1);
        assert(prev_at(s, sx, out, j));
        lemma_step_line_data(s, sx, config, out[j + 1], out[j], false);
    }
}

/// Every row of a screen laid out around a cursor describes a line of the text.
pub proof fn lemma_screen_lines(
    s: Seq<char>,
    sx: int,
    sy: int,
    start: Cursor,
    cursor: Cursor,
    rx: u16,
    ry: u16,
    out: Seq<Cursor>,
    config: BufferConfig,
)
    requires
        screen_around(s, sx, sy, start, cursor, rx, ry, out),
        line_data(cursor, s, sx, config, cursor.line_inx as int),
    ensures
        forall|i: int| 0 <= i < out.len() ==> line_data(#[trigger] out[i], s, sx, config, out[i].line_inx as int),
{
    let k = ry as int;
    assert forall|i: int| k <= i < out.len() - 1 implies #[trigger] next_at(s, sx, out, i) by {
        assert(next_rel(s, sx, out[i], out[i + 1]));
    }
    assert forall|i: int| 0 <= i < k implies #[trigger] prev_at(s, sx, out, i) by {
        assert(prev_rel(s, sx, out[i + 1], out[i]));
    }
    assert forall|i: int| 0 <= i < out.len() implies line_data(#[trigger] out[i], s, sx, config, out[i].line_inx as int) by {
        if i >= k {
            lemma_lines_down(s, sx, config, out, k, i);
        } else {
            lemma_lines_up(s, sx, config, out, k, i);
        }
    }
}

} // verus!
