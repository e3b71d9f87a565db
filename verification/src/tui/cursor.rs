use ropey::Rope;
use vstd::prelude::*;
use vstd::string::StringExecFns;
use vstd::utf8::encode_utf8;

use crate::config::BufferConfig;
use crate::div_ceil;
use crate::rope::{
    breaks_before, lemma_breaks_bounded, lemma_line_of, lemma_line_start, line_count, line_start,
    rope_char_to_line, rope_chars, rope_len_chars, rope_len_lines, rope_line_string,
    rope_line_to_char,
};
use crate::tui::viewchar::{
    cap, first_lc_at_least, first_r_at_least, grapheme_viewchar, lemma_element_found,
    lemma_single_char_elements,
    lemma_same_texts_same_width, len_sum,
    string_to_elements, tab_ok, viewchar_text, width_sum, ViewChar, ViewCharCollection,
    ViewCharWithSize,
};
use crate::tui::format::{format_wrapped, tui_format_bounds, tui_wrapped};
use crate::tui::row::{clone_formats, formats_view};
use crate::tui::viewchar::LineFormat;
use crate::unicode::{grapheme_split, graphemes};
use crate::strings::{decimal, push_decimal, with_decimal};
use crate::word::{motions, word_position, word_target};

verus! {

/// A position in a text together with the line that holds it: the line's number, its first
/// and one-past-last characters, its text, its rendered elements, its width in columns and
/// how many rows it takes when cut at the view's width, the row and the column (`r`) of the
/// position in the line, and the column the cursor tries to keep when it moves between rows.
#[derive(Debug)]
pub struct Cursor {
    pub line_inx: usize,
    pub wraps: usize,
    pub lc0: usize,
    pub lc1: usize,
    pub c: usize,
    pub r: usize,
    pub wrap0: usize,
    pub x_hint: usize,
    pub line_len: usize,
    pub unicode_width: usize,
    pub line: String,
    pub config: BufferConfig,
    pub elements: ViewCharCollection,
}

/// Two cursors hold the same values.
pub open spec fn same_cursor(a: Cursor, b: Cursor) -> bool {
    &&& a.line_inx == b.line_inx && a.wraps == b.wraps && a.lc0 == b.lc0 && a.lc1 == b.lc1
    &&& a.c == b.c && a.r == b.r && a.wrap0 == b.wrap0 && a.x_hint == b.x_hint
    &&& a.line_len == b.line_len && a.unicode_width == b.unicode_width
    &&& a.line@ == b.line@ && a.config == b.config
    &&& a.elements@ == b.elements@ && a.elements.wf() == b.elements.wf()
}

impl Clone for Cursor {
    fn clone(&self) -> (c: Self)
        ensures
            same_cursor(c, *self),
    {
        Cursor {
            line_inx: self.line_inx,
            wraps: self.wraps,
            lc0: self.lc0,
            lc1: self.lc1,
            c: self.c,
            r: self.r,
            wrap0: self.wrap0,
            x_hint: self.x_hint,
            line_len: self.line_len,
            unicode_width: self.unicode_width,
            line: self.line.clone(),
            config: self.config,
            elements: self.elements.clone(),
        }
    }
}

/// The column where the first element starting at character `lc` or later starts; zero
/// when there is none.
pub open spec fn lc_to_r_of(es: Seq<ViewCharWithSize>, lc: usize) -> int {
    match first_lc_at_least(es, lc) {
        Some(i) => es[i].spec_r() as int,
        None => 0,
    }
}

/// The character where the first element starting at column `r` or later starts; zero when
/// there is none.
pub open spec fn r_to_lc_of(es: Seq<ViewCharWithSize>, r: usize) -> int {
    match first_r_at_least(es, r) {
        Some(i) => es[i].spec_lc() as int,
        None => 0,
    }
}

/// `v` holds the rendered elements of `line`: one for each grapheme.
pub open spec fn elements_of(v: ViewCharCollection, line: Seq<char>, config: BufferConfig) -> bool {
    &&& v.wf()
    &&& v@.len() == grapheme_split(line).len()
    &&& forall|i: int|
        0 <= i < v@.len() ==> grapheme_viewchar(
            #[trigger] grapheme_split(line)[i],
            config,
            v.viewchars()[i],
        )
}

/// The rows a line of width `uw` takes at width `sx`: its width and one more column for the
/// cursor past its end, divided by `sx` and rounded up.
pub open spec fn wraps_for(uw: int, sx: int) -> int {
    (cap(uw + 1) + sx - 1) / sx
}

/// The line fields of `cur` describe line `l` of `s`.
pub open spec fn line_data(cur: Cursor, s: Seq<char>, sx: int, config: BufferConfig, l: int) -> bool {
    &&& 0 <= l < line_count(s)
    &&& cur.line_inx == l
    &&& cur.lc0 == line_start(s, l)
    &&& cur.lc1 == line_start(s, l + 1)
    &&& cur.line@ == s.subrange(cur.lc0 as int, cur.lc1 as int)
    &&& cur.config == config
    &&& elements_of(cur.elements, cur.line@, config)
    &&& cur.unicode_width == width_sum(cur.elements@, 0, cur.elements@.len() as int)
    &&& cur.wraps == wraps_for(cur.unicode_width as int, sx)
    &&& cur.line_len == encode_utf8(cur.line@).len() as usize
}

/// The position `c`, cut to the text's end.
pub open spec fn clamp_char(s: Seq<char>, c: int) -> int {
    if c > s.len() {
        s.len() as int
    } else {
        c
    }
}

/// `cur` is the cursor at position `c` (cut to the text's end) of `s`, at width `sx`, with
/// column hint `x_hint`.
pub open spec fn cursor_at(
    cur: Cursor,
    s: Seq<char>,
    sx: int,
    config: BufferConfig,
    c: int,
    x_hint: int,
) -> bool {
    let c1 = clamp_char(s, c);
    &&& line_data(cur, s, sx, config, breaks_before(s, c1) as int)
    &&& cur.c == c1
    &&& cur.r == lc_to_r_of(cur.elements@, (c1 - cur.lc0) as usize)
    &&& cur.wrap0 == (cur.r as int) / sx
    &&& cur.x_hint == x_hint
}

/// `a` and `b` describe the same line.
pub open spec fn same_line(a: Cursor, b: Cursor) -> bool {
    &&& a.line_inx == b.line_inx && a.wraps == b.wraps && a.lc0 == b.lc0 && a.lc1 == b.lc1
    &&& a.line_len == b.line_len && a.unicode_width == b.unicode_width
    &&& a.line@ == b.line@ && a.config == b.config
    &&& a.elements@ == b.elements@ && a.elements.wf() == b.elements.wf()
}

/// The column that row `wrap` and column `rx` of that row come to, kept on the line's last
/// column.
pub open spec fn placed_r(uw: int, sx: int, wrap: int, rx: int) -> int {
    let end = if uw > 0 {
        uw - 1
    } else {
        0
    };
    if wrap * sx + rx < end {
        wrap * sx + rx
    } else {
        end
    }
}

/// `b` stands at column `rx` of row `wrap` of its line, and keeps `rx` as its hint.
pub open spec fn placed(b: Cursor, sx: int, wrap: int, rx: int) -> bool {
    let r = placed_r(b.unicode_width as int, sx, wrap, rx);
    &&& b.r == r
    &&& b.wrap0 == r / sx
    &&& b.c == cap(b.lc0 + r_to_lc_of(b.elements@, r as usize))
    &&& b.x_hint == rx
}

/// There is a row below the row of `a`.
pub open spec fn has_next(s: Seq<char>, a: Cursor) -> bool {
    a.wrap0 + 1 < a.wraps || a.line_inx + 1 < line_count(s)
}

/// There is a row above the row of `a`.
pub open spec fn has_prev(a: Cursor) -> bool {
    a.wrap0 > 0 || a.line_inx > 0
}

/// `b` is `a` moved one row down, keeping the column hint: the next row of its line, or the
/// first row of the next line.
pub open spec fn next_rel(s: Seq<char>, sx: int, a: Cursor, b: Cursor) -> bool {
    if a.wrap0 + 1 < a.wraps {
        same_line(a, b) && placed(b, sx, a.wrap0 + 1, a.x_hint as int)
    } else {
        &&& a.line_inx + 1 < line_count(s)
        &&& line_data(b, s, sx, a.config, a.line_inx + 1)
        &&& placed(b, sx, 0, a.x_hint as int)
    }
}

/// `b` is `a` moved one row up, keeping the column hint: the previous row of its line, or
/// the last row of the previous line.
pub open spec fn prev_rel(s: Seq<char>, sx: int, a: Cursor, b: Cursor) -> bool {
    if a.wrap0 > 0 {
        same_line(a, b) && placed(b, sx, a.wrap0 - 1, a.x_hint as int)
    } else {
        &&& a.line_inx > 0
        &&& line_data(b, s, sx, a.config, a.line_inx - 1)
        &&& placed(b, sx, b.wraps - 1, a.x_hint as int)
    }
}

/// Each cursor of `path` is the one before it moved one row down (up when `!down`).
pub open spec fn walk(s: Seq<char>, sx: int, path: Seq<Cursor>, down: bool) -> bool {
    forall|i: int|
        0 <= i < path.len() - 1 ==> if down {
            next_rel(s, sx, #[trigger] path[i], path[i + 1])
        } else {
            prev_rel(s, sx, #[trigger] path[i], path[i + 1])
        }
}

/// Moving along rows keeps the buffer settings: every cursor of a walk has the settings of
/// its first one.
pub proof fn lemma_walk_config(s: Seq<char>, sx: int, path: Seq<Cursor>, down: bool, i: int)
    requires
        walk(s, sx, path, down),
        0 <= i < path.len(),
    ensures
        path[i].config == path[0].config,
    decreases i,
{
    if i > 0 {
        lemma_walk_config(s, sx, path, down, i - 1);
        if down {
            assert(next_rel(s, sx, path[i - 1], path[i]));
        } else {
            assert(prev_rel(s, sx, path[i - 1], path[i]));
        }
    }
}

/// Rows reached from row `k` by moving up and down all have its settings.
#[verifier::spinoff_prover]
pub proof fn lemma_rows_config(s: Seq<char>, sx: int, out: Seq<Cursor>, k: int, i: int)
    requires
        0 <= k < out.len(),
        0 <= i < out.len(),
        forall|j: int| 0 <= j < k ==> prev_rel(s, sx, #[trigger] out[j + 1], out[j]),
        forall|j: int| k <= j < out.len() - 1 ==> next_rel(s, sx, #[trigger] out[j], out[j + 1]),
    ensures
        out[i].config == out[k].config,
    decreases if i < k { k - i } else { i - k },
{
    if i < k {
        lemma_rows_config(s, sx, out, k, i + 1);
        lemma_step_config(s, sx, out[i + 1], out[i], false);
    } else if i > k {
        lemma_rows_config(s, sx, out, k, i - 1);
        lemma_step_config(s, sx, out[i - 1], out[i], true);
    }
}

/// A step one row down (or up) keeps the settings.
proof fn lemma_step_config(s: Seq<char>, sx: int, a: Cursor, b: Cursor, down: bool)
    requires
        if down {
            next_rel(s, sx, a, b)
        } else {
            prev_rel(s, sx, a, b)
        },
    ensures
        b.config == a.config,
{
}

/// The column reached from row `wrap` at column `rx`, kept inside the line's last column.
fn row_column(uw: usize, sx: usize, wrap: usize, rx: usize) -> (r: usize)
    requires
        sx > 0,
    ensures
        r == placed_r(uw as int, sx as int, wrap as int, rx as int),
{
    let end = if uw > 0 {
        uw - 1
    } else {
        0
    };
    let lim = (usize::MAX - rx) / sx;
    if wrap <= lim {
        proof {
            assert(wrap * sx <= usize::MAX - rx) by (nonlinear_arith)
                requires
                    wrap <= lim,
                    lim == (usize::MAX - rx) / (sx as int),
                    sx > 0,
                    rx <= usize::MAX,
            ;
        }
        let t = wrap * sx + rx;
        if t < end {
            t
        } else {
            end
        }
    } else {
        proof {
            assert(wrap * sx + rx > usize::MAX) by (nonlinear_arith)
                requires
                    wrap > lim,
                    lim == (usize::MAX - rx) / (sx as int),
                    sx > 0,
                    rx <= usize::MAX,
            ;
        }
        end
    }
}

/// The cursor at position `c` (cut to the text's end) with column hint `x_hint`.
pub fn cursor_from_char(text: &Rope, sx: usize, config: &BufferConfig, c: usize, x_hint: usize) -> (cur: Cursor)
    requires
        sx > 0,
        tab_ok(*config),
    ensures
        cursor_at(cur, rope_chars(*text), sx as int, *config, c as int, x_hint as int),
{
    let ghost s = rope_chars(*text);
    let len = rope_len_chars(text);
    let c = if c > len {
        len
    } else {
        c
    };
    let line_inx = rope_char_to_line(text, c);
    let n = rope_len_lines(text);
    proof {
        lemma_line_of(s, c as int);
        lemma_breaks_bounded(s, c as int);
        assert(line_inx < n);
    }
    let lc0 = rope_line_to_char(text, line_inx);
    let lc1 = rope_line_to_char(text, line_inx + 1);
    let line = rope_line_string(text, line_inx);
    let elements = string_to_elements(&line, config);
    let uw = elements.unicode_width();
    let wraps = div_ceil(uw.saturating_add(1), sx);
    let r = elements.lc_to_r(c - lc0);
    let wrap0 = r / sx;
    let line_len = line.as_str().len();
    Cursor {
        line_inx,
        x_hint,
        c,
        r,
        wraps,
        wrap0,
        lc0,
        lc1,
        unicode_width: uw,
        elements,
        line_len,
        line,
        config: *config,
    }
}

/// The cursor at the end of the text.
pub fn cursor_eof(text: &Rope, sx: usize, config: &BufferConfig) -> (cur: Cursor)
    requires
        sx > 0,
        tab_ok(*config),
    ensures
        cursor_at(cur, rope_chars(*text), sx as int, *config, rope_chars(*text).len() as int, 0),
{
    let len = rope_len_chars(text);
    cursor_from_char(text, sx, config, len, 0)
}

/// The cursor at the start of the text.
pub fn cursor_start(text: &Rope, sx: usize, config: &BufferConfig) -> (cur: Cursor)
    requires
        sx > 0,
        tab_ok(*config),
    ensures
        cursor_at(cur, rope_chars(*text), sx as int, *config, 0, 0),
{
    cursor_from_char(text, sx, config, 0, 0)
}

/// The cursor at the same position and hint, for a new width or a changed text.
pub fn cursor_resize(text: &Rope, sx: usize, cursor: &Cursor) -> (cur: Cursor)
    requires
        sx > 0,
        tab_ok(cursor.config),
    ensures
        cursor_at(
            cur,
            rope_chars(*text),
            sx as int,
            cursor.config,
            cursor.c as int,
            cursor.x_hint as int,
        ),
{
    cursor_from_char(text, sx, &cursor.config, cursor.c, cursor.x_hint)
}

/// The cursor at the same position and hint, after the text changed.
pub fn cursor_update(text: &Rope, sx: usize, cursor: &Cursor) -> (cur: Cursor)
    requires
        sx > 0,
        tab_ok(cursor.config),
    ensures
        cursor_at(
            cur,
            rope_chars(*text),
            sx as int,
            cursor.config,
            cursor.c as int,
            cursor.x_hint as int,
        ),
{
    cursor_resize(text, sx, cursor)
}

/// The cursor at the start of line `line_inx`.
pub fn cursor_from_line(text: &Rope, sx: usize, config: &BufferConfig, line_inx: usize) -> (cur: Cursor)
    requires
        sx > 0,
        tab_ok(*config),
        line_inx <= line_count(rope_chars(*text)),
    ensures
        cursor_at(
            cur,
            rope_chars(*text),
            sx as int,
            *config,
            line_start(rope_chars(*text), line_inx as int),
            0,
        ),
{
    let c = rope_line_to_char(text, line_inx);
    cursor_from_char(text, sx, config, c, 0)
}

/// The line that `cursor_from_line_wrapped` goes to: counted back from the last line when
/// negative.
pub open spec fn wrapped_line(s: Seq<char>, line_inx: int) -> int {
    if line_inx < 0 {
        line_count(s) - 1 + line_inx
    } else {
        line_inx
    }
}

/// The cursor that `cursor_from_line_wrapped` gives for a line from `0` to the last is on that
/// line, at its start (line `0` is the first line, at position `0`); for `-k` it is on the
/// `k`-th line before the last.
pub proof fn lemma_line_jump_lands_on_line(cur: Cursor, s: Seq<char>, sx: int, config: BufferConfig, line_inx: int)
    requires
        line_inx >= 0 ==> line_inx < line_count(s),
        line_inx < 0 ==> -line_inx <= line_count(s) - 1,
        cursor_at(cur, s, sx, config, line_start(s, wrapped_line(s, line_inx)), 0),
    ensures
        line_inx >= 0 ==> cur.line_inx == line_inx && cur.c == line_start(s, line_inx) && cur.c == cur.lc0,
        line_inx == 0 ==> cur.c == 0,
        line_inx < 0 ==> cur.line_inx == line_count(s) - 1 + line_inx && cur.c == cur.lc0,
{
    let l = wrapped_line(s, line_inx);
    lemma_line_start(s, l);
    lemma_line_start(s, 0);
    assert(breaks_before(s, 0) == 0);
}

/// The cursor at the start of line `line_inx`, counted back from the last line when
/// negative.
pub fn cursor_from_line_wrapped(text: &Rope, sx: usize, config: &BufferConfig, line_inx: i64) -> (cur: Cursor)
    requires
        sx > 0,
        tab_ok(*config),
        line_inx > i64::MIN,
        line_inx < 0 ==> -line_inx <= line_count(rope_chars(*text)) - 1,
        line_inx >= 0 ==> line_inx <= line_count(rope_chars(*text)),
    ensures
        cursor_at(
            cur,
            rope_chars(*text),
            sx as int,
            *config,
            line_start(rope_chars(*text), wrapped_line(rope_chars(*text), line_inx as int)),
            0,
        ),
{
    let n = rope_len_lines(text);
    let inx: usize = if line_inx < 0 {
        let back = (-line_inx) as u64;
        n - 1 - back as usize
    } else {
        line_inx as usize
    };
    cursor_from_line(text, sx, config, inx)
}

/// The position `cursor_move_to_lc` goes to: column `lc` of the line, taken modulo the
/// line's length in bytes.
pub open spec fn move_to_lc_target(cursor: Cursor, lc: int) -> int {
    cursor.lc0 + lc % (cursor.line_len as int)
}

/// The cursor at character `lc` of the line, counted modulo the line's length (so `-1` is
/// its end), keeping the column hint.
pub fn cursor_move_to_lc(text: &Rope, sx: usize, cursor: &Cursor, lc: i32) -> (cur: Cursor)
    requires
        sx > 0,
        tab_ok(cursor.config),
        0 < cursor.line_len <= i32::MAX,
        cursor.lc0 + cursor.line_len <= usize::MAX,
    ensures
        cursor_at(
            cur,
            rope_chars(*text),
            sx as int,
            cursor.config,
            move_to_lc_target(*cursor, lc as int),
            cursor.x_hint as int,
        ),
{
    let n = cursor.line_len as i32;
    let m = lc.checked_rem_euclid(n).unwrap();
    let c: usize = cursor.lc0 + m as usize;
    cursor_from_char(text, sx, &cursor.config, c, cursor.x_hint)
}

/// The cursor moved to column `rx` of row `wrap` of its line (kept on the line's last
/// column), with `rx` as its new hint.
pub fn cursor_to_line_relative(_text: &Rope, sx: usize, cursor: &Cursor, wrap: usize, rx: usize) -> (cur: Cursor)
    requires
        sx > 0,
    ensures
        same_line(*cursor, cur),
        placed(cur, sx as int, wrap as int, rx as int),
{
    let mut c = cursor.clone();
    let r = row_column(c.unicode_width, sx, wrap, rx);
    c.wrap0 = r / sx;
    c.r = r;
    c.c = c.lc0.saturating_add(c.elements.r_to_lc(r));
    c.x_hint = rx;
    c
}

/// The cursor at column `rx` of row `wrap` of line `line_inx`, or none past the last line.
pub fn cursor_line_relative(
    text: &Rope,
    sx: usize,
    config: &BufferConfig,
    line_inx: usize,
    wrap: usize,
    rx: usize,
) -> (cur: Option<Cursor>)
    requires
        sx > 0,
        tab_ok(*config),
    ensures
        match cur {
            Some(x) => line_data(x, rope_chars(*text), sx as int, *config, line_inx as int)
                && placed(x, sx as int, wrap as int, rx as int),
            None => line_inx >= line_count(rope_chars(*text)),
        },
{
    let n = rope_len_lines(text);
    if line_inx >= n {
        return None;
    }
    let cursor = cursor_from_line(text, sx, config, line_inx);
    proof {
        let s = rope_chars(*text);
        lemma_line_start(s, line_inx as int);
    }
    Some(cursor_to_line_relative(text, sx, &cursor, wrap, rx))
}

/// A line has at least one row.
proof fn lemma_wraps_positive(uw: int, sx: int)
    requires
        sx > 0,
        0 <= uw,
    ensures
        wraps_for(uw, sx) >= 1,
{
    let a = cap(uw + 1);
    assert(a >= 1);
    assert((a + sx - 1) / sx >= 1) by (nonlinear_arith)
        requires
            a >= 1,
            sx > 0,
    ;
}

/// The cursor one row up, keeping its column hint, or none on the first row.
pub fn cursor_visual_prev_line(text: &Rope, sx: usize, cursor: &Cursor) -> (cur: Option<Cursor>)
    requires
        sx > 0,
        tab_ok(cursor.config),
        cursor.line_inx <= line_count(rope_chars(*text)),
    ensures
        match cur {
            Some(x) => prev_rel(rope_chars(*text), sx as int, *cursor, x),
            None => !has_prev(*cursor),
        },
{
    let rx = cursor.x_hint;
    if cursor.wrap0 > 0 {
        Some(cursor_to_line_relative(text, sx, cursor, cursor.wrap0 - 1, rx))
    } else {
        if cursor.line_inx == 0 {
            return None;
        } else {
            let ghost s = rope_chars(*text);
            let c = cursor_from_line(text, sx, &cursor.config, cursor.line_inx - 1);
            proof {
                lemma_line_start(s, cursor.line_inx - 1);
                lemma_wraps_positive(c.unicode_width as int, sx as int);
            }
            Some(cursor_to_line_relative(text, sx, &c, c.wraps - 1, rx))
        }
    }
}

/// The cursor one row down, keeping its column hint, or none on the last row.
pub fn cursor_visual_next_line(text: &Rope, sx: usize, cursor: &Cursor) -> (cur: Option<Cursor>)
    requires
        sx > 0,
        tab_ok(cursor.config),
    ensures
        match cur {
            Some(x) => next_rel(rope_chars(*text), sx as int, *cursor, x),
            None => !has_next(rope_chars(*text), *cursor),
        },
{
    let rx = cursor.x_hint;
    if cursor.wraps > 0 && cursor.wrap0 < cursor.wraps - 1 {
        let wrap = cursor.wrap0 + 1;
        Some(cursor_to_line_relative(text, sx, cursor, wrap, rx))
    } else {
        let n = rope_len_lines(text);
        if cursor.line_inx < n - 1 {
            cursor_line_relative(text, sx, &cursor.config, cursor.line_inx + 1, 0, rx)
        } else {
            None
        }
    }
}

/// A cursor placed on a row stands before the line's last column, so its row number has a
/// successor.
proof fn lemma_placed_wrap(b: Cursor, sx: int, wrap: int, rx: int)
    requires
        sx > 0,
        wrap >= 0,
        rx >= 0,
        placed(b, sx, wrap, rx),
    ensures
        b.wrap0 < usize::MAX,
{
    let r = b.r as int;
    assert(r / sx <= r) by (nonlinear_arith)
        requires
            r >= 0,
            sx > 0,
    ;
}

/// A walk stays a walk when one more step is taken from its last cursor.
proof fn lemma_walk_push(s: Seq<char>, sx: int, path: Seq<Cursor>, x: Cursor, down: bool)
    requires
        path.len() >= 1,
        walk(s, sx, path, down),
        if down {
            next_rel(s, sx, path.last(), x)
        } else {
            prev_rel(s, sx, path.last(), x)
        },
    ensures
        walk(s, sx, path.push(x), down),
        path.push(x).last() == x,
        path.push(x)[0] == path[0],
{
    let p = path.push(x);
    assert forall|i: int| 0 <= i < p.len() - 1 implies (if down {
        next_rel(s, sx, #[trigger] p[i], p[i + 1])
    } else {
        prev_rel(s, sx, p[i], p[i + 1])
    }) by {
        if i < path.len() - 1 {
            assert(p[i] == path[i] && p[i + 1] == path[i + 1]);
        } else {
            assert(p[i] == path.last() && p[i + 1] == x);
        }
    }
}

/// One row down, the cursor can step again.
pub proof fn lemma_next_keeps(a: Cursor, b: Cursor, sx: int, s: Seq<char>)
    requires
        sx > 0,
        next_rel(s, sx, a, b),
    ensures
        b.wrap0 < usize::MAX,
        b.config == a.config,
{
    lemma_next_wrap(a, b, sx, s);
}

/// One row up, the cursor can step again.
pub proof fn lemma_prev_keeps(a: Cursor, b: Cursor, sx: int, s: Seq<char>)
    requires
        a.line_inx <= line_count(s),
        prev_rel(s, sx, a, b),
    ensures
        b.line_inx <= line_count(s),
        b.config == a.config,
{
}

/// The row steps hold between copies of the cursors they hold between.
pub proof fn lemma_steps_same(s: Seq<char>, sx: int, a: Cursor, a2: Cursor, b: Cursor, b2: Cursor)
    requires
        same_cursor(a, a2),
        same_cursor(b, b2),
    ensures
        next_rel(s, sx, a, b) ==> next_rel(s, sx, a2, b2),
        prev_rel(s, sx, a, b) ==> prev_rel(s, sx, a2, b2),
{
}

/// One row down, the cursor is again on a row with a successor number.
proof fn lemma_next_wrap(a: Cursor, b: Cursor, sx: int, s: Seq<char>)
    requires
        sx > 0,
        next_rel(s, sx, a, b),
    ensures
        b.wrap0 < usize::MAX,
        b.config == a.config,
{
    if a.wrap0 + 1 < a.wraps {
        lemma_placed_wrap(b, sx, a.wrap0 + 1, a.x_hint as int);
    } else {
        lemma_placed_wrap(b, sx, 0, a.x_hint as int);
    }
}

/// On a line whose elements are each at least one column wide and stand for at least one
/// character, and whose width and length stay below `usize::MAX`, the column where an
/// element starts and the character where it starts lead to each other: `lc_to_r` of its
/// character is its column, and `r_to_lc` of that column is its character again.
pub proof fn lemma_collection_round_trip(v: ViewCharCollection, i: int)
    requires
        v.wf(),
        0 <= i < v@.len(),
        forall|k: int| 0 <= k < v@.len() ==> (#[trigger] v@[k]).spec_width() > 0,
        forall|k: int| 0 <= k < v@.len() ==> (#[trigger] v@[k]).spec_char_len() > 0,
        width_sum(v@, 0, v@.len() as int) < usize::MAX,
        len_sum(v@, 0, v@.len() as int) < usize::MAX,
    ensures
        lc_to_r_of(v@, v@[i].spec_lc()) == v@[i].spec_r(),
        r_to_lc_of(v@, lc_to_r_of(v@, v@[i].spec_lc()) as usize) == v@[i].spec_lc(),
{
    lemma_element_found(v, i);
}

/// On a line whose elements each stand for one character and are at least one column wide,
/// and whose width stays below `usize::MAX`, a cursor at any character before the line's end
/// leads back to itself: `lc_to_r` of its place in the line is its column and `r_to_c` of
/// its column is its position.
pub proof fn lemma_single_char_round_trip(cur: Cursor, s: Seq<char>, sx: int, config: BufferConfig, c: int, x: int)
    requires
        cursor_at(cur, s, sx, config, c, x),
        cur.c - cur.lc0 < cur.elements@.len() < usize::MAX,
        forall|k: int| 0 <= k < cur.elements@.len() ==> (#[trigger] cur.elements@[k]).spec_width() > 0,
        forall|k: int| 0 <= k < cur.elements@.len() ==> (#[trigger] cur.elements@[k]).spec_char_len() == 1,
        cur.unicode_width < usize::MAX,
    ensures
        lc_to_r_of(cur.elements@, (cur.c - cur.lc0) as usize) == cur.r,
        cur.lc0 + r_to_lc_of(cur.elements@, cur.r) == cur.c,
{
    lemma_single_char_elements(cur.elements);
    lemma_line_of(s, cur.c as int);
    let i = cur.c - cur.lc0;
    assert(0 <= i);
    assert(cur.elements@[i].spec_lc() == i);
    assert(len_sum(cur.elements@, 0, cur.elements@.len() as int) < usize::MAX);
    lemma_column_round_trip(cur, s, sx, config, c, x, i);
}

/// At a position where an element of its line starts, on a line whose elements are each
/// at least one column wide and stand for at least one character, and whose width and
/// length stay below `usize::MAX`, a cursor's column leads back to its position: `r_to_c`
/// of its column gives its position, as `lc_to_r` of its place in the line gives its column.
pub proof fn lemma_column_round_trip(
    cur: Cursor,
    s: Seq<char>,
    sx: int,
    config: BufferConfig,
    c: int,
    x: int,
    i: int,
)
    requires
        cursor_at(cur, s, sx, config, c, x),
        0 <= i < cur.elements@.len(),
        cur.elements@[i].spec_lc() == cur.c - cur.lc0,
        forall|k: int| 0 <= k < cur.elements@.len() ==> (#[trigger] cur.elements@[k]).spec_width() > 0,
        forall|k: int| 0 <= k < cur.elements@.len() ==> (#[trigger] cur.elements@[k]).spec_char_len() > 0,
        cur.unicode_width < usize::MAX,
        len_sum(cur.elements@, 0, cur.elements@.len() as int) < usize::MAX,
    ensures
        cur.lc0 + r_to_lc_of(cur.elements@, cur.r) == cur.c,
        lc_to_r_of(cur.elements@, (cur.c - cur.lc0) as usize) == cur.r,
{
    lemma_element_found(cur.elements, i);
}

/// Two cursors on the same line of a text, with the same settings, take the same width and
/// the same number of rows.
proof fn lemma_line_width_unique(a: Cursor, c: Cursor, s: Seq<char>, sx: int, config: BufferConfig, l: int)
    requires
        line_data(a, s, sx, config, l),
        line_data(c, s, sx, config, l),
    ensures
        a.unicode_width == c.unicode_width,
        a.wraps == c.wraps,
{
    let g = grapheme_split(a.line@);
    assert forall|i: int| 0 <= i < a.elements@.len() implies viewchar_text(
        #[trigger] a.elements.viewchars()[i],
    ) == viewchar_text(c.elements.viewchars()[i]) by {
        assert(grapheme_viewchar(g[i], config, a.elements.viewchars()[i]));
        assert(grapheme_viewchar(g[i], config, c.elements.viewchars()[i]));
    }
    lemma_same_texts_same_width(a.elements, c.elements);
}

/// Column `r` with `q * sx <= r < q * sx + sx` lies in row `q`.
proof fn lemma_in_row(r: int, sx: int, q: int)
    requires
        sx > 0,
        q >= 0,
        q * sx <= r < q * sx + sx,
    ensures
        r / sx == q,
{
    assert(r / sx == q) by (nonlinear_arith)
        requires
            sx > 0,
            q >= 0,
            q * sx <= r < q * sx + sx,
    ;
}

/// Placing a cursor at column `x < sx` of row `w`, when that row starts on an element of
/// the line (or the line is empty and the row is the first), puts it on row `w`.
proof fn lemma_placed_on_row(b: Cursor, sx: int, w: int, x: int)
    requires
        sx > 0,
        0 <= x < sx,
        0 <= w,
        w * sx < b.unicode_width || (w == 0 && b.unicode_width == 0),
        placed(b, sx, w, x),
    ensures
        b.wrap0 == w,
{
    let uw = b.unicode_width as int;
    let ws = w * sx;
    let end = if uw > 0 {
        uw - 1
    } else {
        0
    };
    assert(b.r == placed_r(uw, sx, w, x));
    assert(placed_r(uw, sx, w, x) == if ws + x < end {
        ws + x
    } else {
        end
    });
    assert(ws <= end);
    lemma_in_row(b.r as int, sx, w);
}

/// A cursor on an element of its line is on one of the line's rows.
proof fn lemma_on_a_row(a: Cursor, sx: int)
    requires
        sx > 0,
        a.r < a.unicode_width < usize::MAX,
        a.wrap0 == a.r as int / sx,
        a.wraps == wraps_for(a.unicode_width as int, sx),
    ensures
        a.wrap0 < a.wraps,
        a.wrap0 * sx <= a.r,
{
    let r = a.r as int;
    let uw = a.unicode_width as int;
    assert(r / sx < (uw + 1 + sx - 1) / sx && (r / sx) * sx <= r) by (nonlinear_arith)
        requires
            sx > 0,
            0 <= r < uw,
    ;
}

/// Moving one row down and then one row up comes back to the same row of the same line, for
/// a cursor on an element of its line whose column hint lies within a row, when the row
/// below it on its line (if it goes there) starts on an element of the line.
pub proof fn lemma_down_then_up(s: Seq<char>, sx: int, config: BufferConfig, a: Cursor, b: Cursor, c: Cursor)
    requires
        sx > 0,
        line_data(a, s, sx, config, a.line_inx as int),
        a.r < a.unicode_width < usize::MAX,
        a.wrap0 == a.r as int / sx,
        a.x_hint < sx,
        a.wrap0 + 1 < a.wraps ==> (a.wrap0 + 1) * sx < a.unicode_width,
        next_rel(s, sx, a, b),
        prev_rel(s, sx, b, c),
    ensures
        c.line_inx == a.line_inx,
        c.wrap0 == a.wrap0,
{
    lemma_on_a_row(a, sx);
    let w = a.wrap0 as int;
    let x = a.x_hint as int;
    if w + 1 < a.wraps {
        lemma_placed_on_row(b, sx, w + 1, x);
        lemma_placed_on_row(c, sx, w, x);
    } else {
        if b.unicode_width > 0 {
            lemma_placed_on_row(b, sx, 0, x);
        } else {
            lemma_in_row(b.r as int, sx, 0);
        }
        lemma_line_width_unique(a, c, s, sx, config, a.line_inx as int);
        lemma_placed_on_row(c, sx, c.wraps - 1, x);
    }
}

/// Moving one row up and then one row down comes back to the same row of the same line, for
/// a cursor on an element of its line whose column hint lies within a row, when the last row
/// of the line above (if it goes there) starts on an element of that line.
pub proof fn lemma_up_then_down(s: Seq<char>, sx: int, config: BufferConfig, a: Cursor, b: Cursor, c: Cursor)
    requires
        sx > 0,
        line_data(a, s, sx, config, a.line_inx as int),
        a.r < a.unicode_width < usize::MAX,
        a.wrap0 == a.r as int / sx,
        a.x_hint < sx,
        a.wrap0 == 0 ==> (b.wraps - 1) * sx < b.unicode_width || b.unicode_width == 0,
        prev_rel(s, sx, a, b),
        next_rel(s, sx, b, c),
    ensures
        c.line_inx == a.line_inx,
        c.wrap0 == a.wrap0,
{
    lemma_on_a_row(a, sx);
    let w = a.wrap0 as int;
    let x = a.x_hint as int;
    if w > 0 {
        assert((w - 1) * sx < w * sx) by (nonlinear_arith)
            requires
                sx > 0,
        ;
        lemma_placed_on_row(b, sx, w - 1, x);
        lemma_placed_on_row(c, sx, w, x);
    } else {
        if b.unicode_width > 0 {
            assert(b.wraps >= 1) by {
                lemma_wraps_positive(b.unicode_width as int, sx);
            }
            lemma_placed_on_row(b, sx, b.wraps - 1, x);
        } else {
            assert(b.wraps == 1) by {
                assert((cap(1) + sx - 1) / sx == 1) by (nonlinear_arith)
                    requires
                        sx > 0,
                        cap(1) == 1,
                ;
            }
            lemma_in_row(b.r as int, sx, 0);
        }
        if c.unicode_width > 0 {
            lemma_placed_on_row(c, sx, 0, x);
        } else {
            lemma_in_row(c.r as int, sx, 0);
        }
    }
}

/// The cursor `dy` rows down (up when negative), keeping its column hint, stopping at the
/// first or last row.
pub fn cursor_move_to_y(text: &Rope, sx: usize, cursor: &Cursor, dy: i32) -> (cur: Cursor)
    requires
        sx > 0,
        tab_ok(cursor.config),
        cursor.line_inx <= line_count(rope_chars(*text)),
    ensures
        dy == 0 ==> same_cursor(cur, *cursor),
        dy != 0 ==> exists|path: Seq<Cursor>|
            {
                &&& path.len() >= 1
                &&& same_cursor(path[0], *cursor)
                &&& path.last() == cur
                &&& walk(rope_chars(*text), sx as int, path, dy > 0)
                &&& (path.len() - 1 == if dy > 0 {
                    dy as int
                } else {
                    -dy
                } || (path.len() - 1 < (if dy > 0 {
                    dy as int
                } else {
                    -dy
                }) && if dy > 0 {
                    !has_next(rope_chars(*text), path.last())
                } else {
                    !has_prev(path.last())
                }))
            },
{
    let ghost s = rope_chars(*text);
    let mut c = cursor.clone();
    let ghost mut path: Seq<Cursor> = seq![c];
    if dy > 0 {
        let mut count: i32 = 0;
        loop
            invariant
                sx > 0,
                s == rope_chars(*text),
                0 <= count <= dy,
                path.len() == count + 1,
                same_cursor(path[0], *cursor),
                path.last() == c,
                walk(s, sx as int, path, true),
                c.config == cursor.config,
                tab_ok(cursor.config),
            ensures
                path.len() >= 1,
                same_cursor(path[0], *cursor),
                path.last() == c,
                walk(s, sx as int, path, true),
                path.len() - 1 == dy || (path.len() - 1 < dy && !has_next(s, path.last())),
            decreases dy - count,
        {
            if count >= dy {
                break;
            }
            match cursor_visual_next_line(text, sx, &c) {
                Some(x) => {
                    proof {
                        lemma_walk_push(s, sx as int, path, x, true);
                        path = path.push(x);
                        lemma_next_wrap(c, x, sx as int, s);
                    }
                    c = x;
                    count += 1;
                },
                None => break,
            }
        }
        proof {
            assert(walk(s, sx as int, path, dy > 0));
        }
    } else if dy < 0 {
        let mut count: i32 = 0;
        loop
            invariant
                sx > 0,
                s == rope_chars(*text),
                dy <= count <= 0,
                path.len() == -count + 1,
                same_cursor(path[0], *cursor),
                path.last() == c,
                walk(s, sx as int, path, false),
                c.config == cursor.config,
                tab_ok(cursor.config),
                c.line_inx <= line_count(s),
            ensures
                path.len() >= 1,
                same_cursor(path[0], *cursor),
                path.last() == c,
                walk(s, sx as int, path, false),
                path.len() - 1 == -dy || (path.len() - 1 < -dy && !has_prev(path.last())),
            decreases count - dy,
        {
            if count <= dy {
                break;
            }
            match cursor_visual_prev_line(text, sx, &c) {
                Some(x) => {
                    proof {
                        lemma_walk_push(s, sx as int, path, x, false);
                        path = path.push(x);
                    }
                    c = x;
                    count -= 1;
                },
                None => break,
            }
        }
    }
    c
}

/// The cursor moved to `next`, a grapheme boundary found after it, kept before the text's
/// last character, with the same column hint.
pub fn cursor_char_forward(text: &Rope, sx: usize, cursor: &Cursor, next: usize) -> (cur: Cursor)
    requires
        sx > 0,
        tab_ok(cursor.config),
        rope_chars(*text).len() > 0,
    ensures
        cursor_at(
            cur,
            rope_chars(*text),
            sx as int,
            cursor.config,
            if next >= rope_chars(*text).len() - 1 {
                rope_chars(*text).len() - 1
            } else {
                next as int
            },
            cursor.x_hint as int,
        ),
{
    let len = rope_len_chars(text);
    let mut c = next;
    if c >= len - 1 {
        c = len - 1;
    }
    cursor_from_char(text, sx, &cursor.config, c, cursor.x_hint)
}

/// The cursor moved to `prev`, a grapheme boundary found before it, with the same column
/// hint.
pub fn cursor_char_backward(text: &Rope, sx: usize, cursor: &Cursor, prev: usize) -> (cur: Cursor)
    requires
        sx > 0,
        tab_ok(cursor.config),
    ensures
        cursor_at(cur, rope_chars(*text), sx as int, cursor.config, prev as int, cursor.x_hint as int),
{
    cursor_from_char(text, sx, &cursor.config, prev, cursor.x_hint)
}

/// A row's first column is not past the cursor's column.
proof fn lemma_row_start_le(r: int, sx: int)
    requires
        r >= 0,
        sx > 0,
    ensures
        (r / sx) * sx <= r,
{
    assert((r / sx) * sx <= r) by (nonlinear_arith)
        requires
            r >= 0,
            sx > 0,
    ;
}

/// The cursor moved to `target`, the grapheme boundary `dx` graphemes away (back when
/// negative), with its column in its row as its new hint; with `dx` zero it stays and takes
/// that hint.
pub fn cursor_move_to_x(text: &Rope, sx: usize, cursor: &Cursor, dx: i32, target: usize) -> (cur: Cursor)
    requires
        sx > 0,
        tab_ok(cursor.config),
        dx > 0 ==> rope_chars(*text).len() > 0,
        dx == 0 ==> cursor.wrap0 * sx <= cursor.r,
    ensures
        dx < 0 ==> cursor_at(
            cur,
            rope_chars(*text),
            sx as int,
            cursor.config,
            target as int,
            cur.r - cur.wrap0 * sx,
        ),
        dx > 0 ==> cursor_at(
            cur,
            rope_chars(*text),
            sx as int,
            cursor.config,
            if target >= rope_chars(*text).len() - 1 {
                rope_chars(*text).len() - 1
            } else {
                target as int
            },
            cur.r - cur.wrap0 * sx,
        ),
        dx == 0 ==> same_line(*cursor, cur) && cur.c == cursor.c && cur.r == cursor.r
            && cur.wrap0 == cursor.wrap0 && cur.x_hint == cursor.r - cursor.wrap0 * sx,
{
    let c = if dx < 0 {
        cursor_char_backward(text, sx, cursor, target)
    } else if dx > 0 {
        cursor_char_forward(text, sx, cursor, target)
    } else {
        cursor.clone()
    };
    proof {
        if dx != 0 {
            lemma_row_start_le(c.r as int, sx as int);
        }
    }
    c.save_x_hint(sx)
}

/// The first character `ch` of the line after the cursor's position, as a column of the
/// line.
pub open spec fn char_after(line: Seq<char>, start: int, ch: char) -> Option<int> {
    if exists|i: int| start < i < line.len() && line[i] == ch {
        Some(choose|i: int| start < i < line.len() && line[i] == ch && forall|j: int| start < j < i ==> line[j] != ch)
    } else {
        None
    }
}

/// The cursor moved to the next `ch` after it on its line; unchanged when there is none.
pub fn cursor_move_to_char(text: &Rope, sx: usize, cursor: &Cursor, d: i32, ch: char, _flag: bool) -> (cur: Cursor)
    requires
        sx > 0,
        tab_ok(cursor.config),
        cursor.lc0 <= cursor.c,
        cursor.line@.len() <= i32::MAX,
        0 < cursor.line_len <= i32::MAX,
        cursor.lc0 + cursor.line_len <= usize::MAX,
    ensures
        match char_after(cursor.line@, cursor.c - cursor.lc0, ch) {
            Some(i) => cursor_at(
                cur,
                rope_chars(*text),
                sx as int,
                cursor.config,
                move_to_lc_target(*cursor, i),
                cursor.x_hint as int,
            ),
            None => same_cursor(cur, *cursor),
        },
{
    let start = cursor.c - cursor.lc0;
    let mut found: Option<usize> = None;
    let mut k: usize = 0;
    for x in it: cursor.line.as_str().chars()
        invariant
            it.seq() == cursor.line@,
            cursor.line@.len() <= i32::MAX,
            k == it.index(),
            k <= cursor.line@.len(),
            match found {
                Some(i) => start < i < k && cursor.line@[i as int] == ch && forall|j: int|
                    start < j < i ==> cursor.line@[j] != ch,
                None => forall|j: int| start < j < k ==> cursor.line@[j] != ch,
            },
    {
        if found.is_none() && k > start && x == ch {
            found = Some(k);
        }
        k = k + 1;
    }
    match found {
        Some(i) => {
            proof {
                let line = cursor.line@;
                let st = start as int;
                assert(exists|j: int| st < j < line.len() && line[j] == ch);
                let w = choose|j: int| st < j < line.len() && line[j] == ch && forall|m: int| st < m < j ==> line[m] != ch;
                assert(w == i) by {
                    if w < i {
                    } else if w > i {
                    }
                }
            }
            cursor_move_to_lc(text, sx, cursor, i as i32)
        },
        None => cursor.clone(),
    }
}

/// The cursor moved `d` words on (back for a negative `d`; with `cap`, a word is anything
/// between blanks), with its column in its row as its new hint; unchanged for a zero `d`.
pub fn cursor_move_to_word(text: &Rope, sx: usize, cursor: &Cursor, d: i32, cap: bool) -> (cur: Cursor)
    requires
        sx > 0,
        tab_ok(cursor.config),
        cursor.c <= rope_chars(*text).len(),
        d != i32::MIN,
    ensures
        d == 0 ==> same_cursor(cur, *cursor),
        d != 0 ==> cursor_at(
            cur,
            rope_chars(*text),
            sx as int,
            cursor.config,
            word_target(rope_chars(*text), cursor.c as int, motions(d), d < 0, cap),
            cur.r - cur.wrap0 * sx,
        ),
{
    if d == 0 {
        return cursor.clone();
    }
    let c = word_position(text, cursor.c, d, cap);
    let moved = cursor_from_char(text, sx, &cursor.config, c, 0);
    proof {
        lemma_row_start_le(moved.r as int, sx as int);
    }
    moved.save_x_hint(sx)
}

/// Where a row of a cursor's line starts and ends, in columns from the start of the line
/// (`r0`, `r1`) and in characters of the text (`c0`, `c1`), and the cursor's place in it.
pub struct WrapIndex {
    pub r0: usize,
    pub r1: usize,
    pub c0: usize,
    pub c1: usize,
    pub cx: usize,
    pub rx: usize,
}

/// The bounds of the cursor's row: columns `wrap0 * sx` up to the next row or the line's
/// width; the characters of the elements before them (counted by element, as the row's
/// columns are).
pub open spec fn wrap_index_fields(cursor: Cursor, sx: int) -> (int, int, int, int) {
    let es = cursor.elements@;
    let n = es.len() as int;
    let r0 = cursor.wrap0 * sx;
    let r1 = if cursor.unicode_width < (cursor.wrap0 + 1) * sx {
        cursor.unicode_width as int
    } else {
        (cursor.wrap0 + 1) * sx
    };
    let a = if r0 >= n {
        n
    } else {
        r0
    };
    let b = if r1 > n {
        n
    } else {
        r1
    };
    let c0 = cursor.lc0 + crate::tui::viewchar::len_sum(es, 0, a);
    let c1 = c0 + crate::tui::viewchar::len_sum(es, a, b);
    (r0, r1, c0, c1)
}

/// The cursor's row can be measured without overflow.
pub open spec fn wrap_index_ok(cursor: Cursor, sx: int) -> bool {
    let (r0, r1, c0, c1) = wrap_index_fields(cursor, sx);
    let n = cursor.elements@.len() as int;
    &&& cursor.wrap0 < usize::MAX
    &&& (cursor.wrap0 + 1) * sx <= usize::MAX
    &&& r0 <= cursor.r
    &&& (if r0 >= n { n } else { r0 }) <= (if r1 > n { n } else { r1 })
    &&& c1 <= usize::MAX
    &&& c0 <= cursor.c
}

/// Sums of lengths are not negative.
proof fn lemma_len_sum_nonneg(es: Seq<ViewCharWithSize>, a: int, b: int)
    ensures
        crate::tui::viewchar::len_sum(es, a, b) >= 0,
    decreases b - a,
{
    if b > a {
        lemma_len_sum_nonneg(es, a, b - 1);
    }
}

impl WrapIndex {
    fn from_cursor(cursor: &Cursor, sx: usize) -> (w: WrapIndex)
        requires
            wrap_index_ok(*cursor, sx as int),
        ensures
            (w.r0 as int, w.r1 as int, w.c0 as int, w.c1 as int) == wrap_index_fields(*cursor, sx as int),
            w.rx == cursor.r - w.r0,
            w.cx == cursor.c - w.c0,
    {
        proof {
            assert(cursor.wrap0 * sx <= (cursor.wrap0 + 1) * sx) by (nonlinear_arith)
                requires sx >= 0, cursor.wrap0 >= 0;
        }
        let r0 = cursor.wrap0 * sx;
        let r1 = if cursor.unicode_width < (cursor.wrap0 + 1) * sx {
            cursor.unicode_width
        } else {
            (cursor.wrap0 + 1) * sx
        };
        let rx = cursor.r - r0;
        let c0 = cursor.lc0 + cursor.elements.char_length_range(0, r0);
        let c1 = c0 + cursor.elements.char_length_range(r0, r1);
        let cx = cursor.c - c0;
        WrapIndex { r0, r1, c0, c1, cx, rx }
    }
}

impl Cursor {
    /// The numbers of the short account can be computed: the cursor is not before its line's
    /// start, and its line and row numbers can be counted from one.
    pub open spec fn summary_ok(&self) -> bool {
        self.lc0 <= self.c && self.line_inx < usize::MAX && self.wrap0 < usize::MAX
    }

    /// The short account of the cursor that `simple_format` gives.
    pub open spec fn summary(&self) -> Seq<char> {
        "(Line:"@ + decimal((self.line_inx + 1) as nat) + ",r:"@ + decimal(self.r as nat)
            + ",dc:"@ + decimal((self.c - self.lc0) as nat) + ",xh:"@ + decimal(
            self.x_hint as nat,
        ) + ",w:"@ + decimal((self.wrap0 + 1) as nat) + "/"@ + decimal(self.wraps as nat) + ",uw:"@
            + decimal(self.unicode_width as nat) + ",cw:"@ + decimal(self.line_len as nat) + ")"@
    }

    /// A short account of the cursor for debugging: its line (counted from one), column,
    /// character in the line, hint, row (counted from one) out of its rows, width in
    /// columns and length in bytes.
    pub fn simple_format(&self) -> (s: String)
        requires
            self.lc0 <= self.c,
            self.line_inx < usize::MAX,
            self.wrap0 < usize::MAX,
        ensures
            s@ == "(Line:"@ + decimal((self.line_inx + 1) as nat) + ",r:"@ + decimal(self.r as nat)
                + ",dc:"@ + decimal((self.c - self.lc0) as nat) + ",xh:"@ + decimal(
                self.x_hint as nat,
            ) + ",w:"@ + decimal((self.wrap0 + 1) as nat) + "/"@ + decimal(self.wraps as nat) + ",uw:"@
                + decimal(self.unicode_width as nat) + ",cw:"@ + decimal(self.line_len as nat)
                + ")"@,
    {
        let mut s = with_decimal("(Line:", self.line_inx + 1);
        s.append(",r:");
        push_decimal(&mut s, self.r);
        s.append(",dc:");
        push_decimal(&mut s, self.c - self.lc0);
        s.append(",xh:");
        push_decimal(&mut s, self.x_hint);
        s.append(",w:");
        push_decimal(&mut s, self.wrap0 + 1);
        s.append("/");
        push_decimal(&mut s, self.wraps);
        s.append(",uw:");
        push_decimal(&mut s, self.unicode_width);
        s.append(",cw:");
        push_decimal(&mut s, self.line_len);
        s.append(")");
        s
    }

    /// The formatted runs of the cursor's row.
    pub fn to_line_format(&self, config: &BufferConfig, sx: usize, highlight: String) -> (v: Vec<LineFormat>)
        requires
            tab_ok(*config),
            tui_format_bounds(self.line@, highlight@),
        ensures
            formats_view(v@) == ({
                let rows = tui_wrapped(self.line@, sx as int, highlight@, *config);
                if self.wrap0 < rows.len() {
                    rows[self.wrap0 as int]
                } else {
                    Seq::empty()
                }
            }),
    {
        let rows = format_wrapped(&self.line, sx, highlight, config);
        if self.wrap0 < rows.len() {
            clone_formats(&rows[self.wrap0])
        } else {
            proof {
                assert(formats_view(Seq::<LineFormat>::empty()) =~= Seq::empty());
            }
            Vec::new()
        }
    }

    /// The cursor's column within its row.
    pub fn rx(&self, sx: usize) -> (x: usize)
        requires
            self.wrap0 * sx <= self.r,
        ensures
            x == self.r - self.wrap0 * sx,
    {
        let r0 = self.wrap0 * sx;
        self.r - r0
    }

    /// The cursor with its column within its row as its hint.
    pub fn save_x_hint(self, sx: usize) -> (c: Cursor)
        requires
            self.wrap0 * sx <= self.r,
        ensures
            same_cursor(c, Cursor { x_hint: (self.r - self.wrap0 * sx) as usize, ..self }),
    {
        let rx = self.rx(sx);
        let mut c = self;
        c.x_hint = rx;
        c
    }

    /// The column where the element at character `lc` of the line (or the first after it)
    /// starts.
    pub fn lc_to_r(&self, lc: usize) -> (r: usize)
        ensures
            r == lc_to_r_of(self.elements@, lc),
    {
        self.elements.lc_to_r(lc)
    }

    /// The position in the text of the element at column `r` of the line (or the first
    /// after it).
    pub fn r_to_c(&self, r: usize) -> (c: usize)
        requires
            self.lc0 + r_to_lc_of(self.elements@, r) <= usize::MAX,
        ensures
            c == self.lc0 + r_to_lc_of(self.elements@, r),
    {
        self.lc0 + self.elements.r_to_lc(r)
    }

    /// The rendered elements of the cursor's row.
    pub fn to_elements(&self, sx: usize) -> (v: Vec<ViewChar>)
        requires
            wrap_index_ok(*self, sx as int),
            wrap_index_fields(*self, sx as int).0 <= wrap_index_fields(*self, sx as int).1
                <= self.elements@.len(),
        ensures
            v@ == self.elements.viewchars().subrange(
                wrap_index_fields(*self, sx as int).0,
                wrap_index_fields(*self, sx as int).1,
            ),
    {
        let wi = WrapIndex::from_cursor(self, sx);
        self.elements.elements_range(wi.r0, wi.r1)
    }

    /// The graphemes of the line numbered from `c0` up to `c1` of the cursor's row, joined.
    pub fn to_string(&self, sx: usize) -> (s: String)
        requires
            wrap_index_ok(*self, sx as int),
        ensures
            s@ == ({
                let gs = grapheme_split(self.line@);
                let (_, _, c0, c1) = wrap_index_fields(*self, sx as int);
                let a = if c0 > gs.len() {
                    gs.len() as int
                } else {
                    c0
                };
                let b = if c1 > gs.len() {
                    gs.len() as int
                } else {
                    c1
                };
                gs.subrange(a, b).flatten()
            }),
    {
        let wi = WrapIndex::from_cursor(self, sx);
        proof {
            let es = self.elements@;
            let n = es.len() as int;
            let r0 = self.wrap0 * sx;
            let a0 = if r0 >= n { n } else { r0 };
            let r1 = wrap_index_fields(*self, sx as int).1;
            let b0 = if r1 > n { n } else { r1 };
            lemma_len_sum_nonneg(es, a0, b0);
        }
        let gs = graphemes(self.line.as_str());
        let ghost g = grapheme_split(self.line@);
        let a = if wi.c0 > gs.len() {
            gs.len()
        } else {
            wi.c0
        };
        let b = if wi.c1 > gs.len() {
            gs.len()
        } else {
            wi.c1
        };
        let mut out = String::new();
        let mut i = a;
        while i < b
            invariant
                a <= i <= b <= gs@.len(),
                gs@.map_values(|x: String| x@) == g,
                out@ == g.subrange(a as int, i as int).flatten(),
            decreases b - i,
        {
            proof {
                assert(g[i as int] == gs@[i as int]@);
                assert(g.subrange(a as int, i + 1).drop_last() =~= g.subrange(a as int, i as int));
                g.subrange(a as int, i + 1).lemma_flatten_and_flatten_alt_are_equivalent();
                g.subrange(a as int, i as int).lemma_flatten_and_flatten_alt_are_equivalent();
            }
            out.append(gs[i].as_str());
            i = i + 1;
        }
        out
    }
}

} // verus!
