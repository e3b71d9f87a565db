use vstd::prelude::*;

use crate::rope::{line_count, line_start, text_fits};
use crate::text::smart::{
    delta_wrap_spec, jump_line_spec, line_move_spec, move_x_target, move_y_spec, next_wrap_spec,
    bar_tabs, prev_wrap_ok, prev_wrap_spec, wrap_arg_ok, wrap_at, wrap_window_spec, SmartBuffer,
    Wrap,
};
use crate::strings::{decimal, default_hash, string_push, with_decimal};
use crate::text::display::DrawCommand;
use crate::text::viewrow::{dotted, ViewRow};
use crate::text::viewspec::ViewSpec;
use crate::text::command::Command;
use crate::text::Mode;

verus! {

/// The cursor of a view: its position, the column it tries to keep when moving between
/// rows, and whether it moved since it was last cleared.
#[derive(Debug)]
pub struct ViewCursor {
    cx: u16,
    cy: u16,
    _x_hint: u16,
    _has_changed: bool,
}

impl ViewCursor {
    pub closed spec fn spec_pos(&self) -> (u16, u16) {
        (self.cx, self.cy)
    }

    pub closed spec fn spec_x_hint(&self) -> u16 {
        self._x_hint
    }

    pub closed spec fn spec_has_changed(&self) -> bool {
        self._has_changed
    }

    pub fn new() -> (c: Self)
        ensures
            c.spec_pos() == (0u16, 0u16),
            c.spec_x_hint() == 0,
            !c.spec_has_changed(),
    {
        Self { cx: 0, cy: 0, _has_changed: false, _x_hint: 0 }
    }

    pub fn set_x_hint(&mut self, x: u16)
        ensures
            final(self).spec_x_hint() == x,
            final(self).spec_pos() == old(self).spec_pos(),
            final(self).spec_has_changed() == old(self).spec_has_changed(),
    {
        self._x_hint = x;
    }

    pub fn x_hint(&self) -> (x: u16)
        ensures
            x == self.spec_x_hint(),
    {
        self._x_hint
    }

    /// Moves the cursor; it counts as changed when it moved.
    fn update(&mut self, cx: u16, cy: u16)
        ensures
            final(self).spec_pos() == (cx, cy),
            final(self).spec_x_hint() == old(self).spec_x_hint(),
            final(self).spec_has_changed() == (old(self).spec_has_changed() || (cx, cy) != old(
                self,
            ).spec_pos()),
    {
        if cx != self.cx {
            self._has_changed = true
        }
        if cy != self.cy {
            self._has_changed = true
        }
        self.cx = cx;
        self.cy = cy;
    }

    fn clear(&mut self)
        ensures
            final(self).spec_pos() == old(self).spec_pos(),
            final(self).spec_x_hint() == old(self).spec_x_hint(),
            !final(self).spec_has_changed(),
    {
        self._has_changed = false;
    }

    fn pos(&self) -> (p: (u16, u16))
        ensures
            p == self.spec_pos(),
    {
        (self.cx, self.cy)
    }

    fn has_changed(&self) -> (b: bool)
        ensures
            b == self.spec_has_changed(),
    {
        self._has_changed
    }
}

} // verus!

verus! {

/// A view of a buffer: the characters it shows (from `char_start` up to `char_end`, with
/// the cursor at `char_current`), its geometry, its rows, its cursor, and the header,
/// status and command rows.
#[derive(Debug)]
pub struct BufferView<'a> {
    buf: &'a mut SmartBuffer<'a>,
    char_start: usize,
    pub char_current: usize,
    char_end: usize,
    pub mode: Mode,
    pub spec: ViewSpec,
    lines: Vec<ViewRow>,
    pub cursor: ViewCursor,
    header: ViewRow,
    status: ViewRow,
    command: ViewRow,
}

/// A row that has shown nothing yet.
pub open spec fn fresh_row(r: ViewRow) -> bool {
    &&& r.wf()
    &&& r.spec_body() == Some(Seq::<char>::empty())
    &&& r.spec_dirty()
    &&& r.spec_line() == 0
    &&& r.spec_c0() == 0
    &&& r.spec_c1() == 0
}

/// The rows after `resize`: cut to `n`, or filled up to `n` with fresh rows.
pub open spec fn resized_rows(old_rows: Seq<ViewRow>, n: int, new_rows: Seq<ViewRow>) -> bool {
    &&& new_rows.len() == n
    &&& forall|i: int| 0 <= i < n && i < old_rows.len() ==> new_rows[i] == old_rows[i]
    &&& forall|i: int| old_rows.len() <= i < n ==> fresh_row(#[trigger] new_rows[i])
}

impl<'a> BufferView<'a> {
    /// The characters of the buffer.
    pub closed spec fn spec_chars(&self) -> Seq<char> {
        self.buf.chars()
    }

    pub closed spec fn spec_current(&self) -> usize {
        self.char_current
    }

    pub closed spec fn spec_mode(&self) -> Mode {
        self.mode
    }

    /// The view's geometry.
    pub closed spec fn spec_geom(&self) -> ViewSpec {
        self.spec
    }

    pub closed spec fn spec_cursor(&self) -> ViewCursor {
        self.cursor
    }

    pub closed spec fn spec_char_start(&self) -> usize {
        self.char_start
    }

    pub closed spec fn spec_char_end(&self) -> usize {
        self.char_end
    }

    /// The rows of the view's body.
    pub closed spec fn spec_lines(&self) -> Seq<ViewRow> {
        self.lines@
    }

    /// A view of `buf` with geometry `spec`, starting at the top, in normal mode, with a
    /// fresh row for each row of its body.
    pub fn new(buf: &'a mut SmartBuffer<'a>, mode: Mode, spec: ViewSpec) -> (v: Self)
        requires
            spec.lm + spec.rm <= spec.w,
            spec.header + spec.footer + spec.status <= spec.h,
            spec.origin_x + spec.lm <= u16::MAX,
            spec.origin_y + spec.header <= u16::MAX,
        ensures
            v.spec_chars() == old(buf).chars(),
            v.spec_char_start() == 0,
            v.spec_current() == 0,
            v.spec_char_end() == 0,
            v.spec_mode() == Mode::Normal,
            v.spec_geom().w == spec.w && v.spec_geom().h == spec.h,
            v.spec_geom().origin_x == spec.origin_x && v.spec_geom().origin_y == spec.origin_y,
            v.spec_geom().header == spec.header && v.spec_geom().footer == spec.footer && v.spec_geom().status
                == spec.status,
            v.spec_geom().lm == spec.lm && v.spec_geom().rm == spec.rm,
            v.spec_geom().calculated(),
            v.spec_lines().len() == v.spec_geom().sy,
            forall|i: int| 0 <= i < v.spec_lines().len() ==> fresh_row(#[trigger] v.spec_lines()[i]),
            v.spec_cursor().spec_pos() == (0u16, 0u16),
            v.spec_cursor().spec_x_hint() == 0,
    {
        let w = spec.w;
        let h = spec.h;
        let ox = spec.origin_x;
        let oy = spec.origin_y;
        let mut v = Self {
            buf: buf,
            char_start: 0,
            char_current: 0,
            char_end: 0,
            mode: Mode::Normal,
            spec: spec,
            lines: Vec::new(),
            cursor: ViewCursor::new(),
            header: ViewRow::default(),
            status: ViewRow::default(),
            command: ViewRow::default(),
        };
        v.resize(w, h, ox, oy);
        v
    }

    /// Gives the view a new size and origin; the body keeps its rows as far as they fit and
    /// gets fresh rows for the rest.
    pub fn resize(&mut self, w: u16, h: u16, origin_x: u16, origin_y: u16)
        requires
            old(self).spec_geom().lm + old(self).spec_geom().rm <= w,
            old(self).spec_geom().header + old(self).spec_geom().footer + old(self).spec_geom().status <= h,
            origin_x + old(self).spec_geom().lm <= u16::MAX,
            origin_y + old(self).spec_geom().header <= u16::MAX,
        ensures
            view_resized(*old(self), *final(self), w, h, origin_x, origin_y),
    {
        self.spec.resize(w, h, origin_x, origin_y);
        let n = self.spec.sy as usize;
        if self.lines.len() > n {
            self.lines.truncate(n);
        }
        let ghost kept = self.lines@;
        assert(kept.len() == if old(self).lines@.len() > n { n as int } else { old(self).lines@.len() as int });
        assert(forall|i: int| 0 <= i < kept.len() ==> kept[i] == old(self).lines@[i]);
        let ghost sp = self.spec;
        let ghost ch = self.buf.chars();
        let ghost cur = self.cursor;
        let ghost (a, b, c, m) = (self.char_start, self.char_current, self.char_end, self.mode);
        while self.lines.len() < n
            invariant
                self.spec == sp,
                self.buf.chars() == ch,
                self.cursor == cur,
                (self.char_start, self.char_current, self.char_end, self.mode) == (a, b, c, m),
                kept.len() <= self.lines@.len() <= n,
                kept.len() == if old(self).lines@.len() > n { n as int } else { old(self).lines@.len() as int },
                forall|i: int| 0 <= i < kept.len() ==> kept[i] == old(self).lines@[i],
                forall|i: int| 0 <= i < kept.len() ==> self.lines@[i] == kept[i],
                forall|i: int| kept.len() <= i < self.lines@.len() ==> fresh_row(#[trigger] self.lines@[i]),
            decreases n - self.lines@.len(),
        {
            self.lines.push(ViewRow::default());
        }
        assert(self.lines@.len() == n);
        assert forall|i: int| 0 <= i < n && i < old(self).lines@.len() implies self.lines@[i] == old(self).lines@[i] by {
            assert(i < kept.len());
            assert(self.lines@[i] == kept[i]);
        }
        assert(forall|i: int| old(self).lines@.len() <= i < n ==> fresh_row(#[trigger] self.lines@[i]));
    }

    fn char_to_wrap(&self, c: usize) -> (w: Option<Wrap>)
        requires
            self.spec_geom().sx > 0,
            wrap_arg_ok(self.spec_chars(), c as int),
            text_fits(self.spec_chars()),
        ensures
            w == Some(wrap_at(self.spec_chars(), self.spec_geom().sx as int, c as int)),
    {
        self.buf.char_to_wrap(self.spec.sx, c)
    }

    fn prev_wrap(&self, w: &Wrap) -> (r: Option<Wrap>)
        requires
            self.spec_geom().sx > 0,
            text_fits(self.spec_chars()),
            prev_wrap_ok(self.spec_chars(), self.spec_geom().sx as int, *w),
        ensures
            r == prev_wrap_spec(self.spec_chars(), self.spec_geom().sx as int, *w),
    {
        self.buf.prev_wrap(self.spec.sx, w)
    }

    fn next_wrap(&self, w: &Wrap) -> (r: Option<Wrap>)
        requires
            self.spec_geom().sx > 0,
            text_fits(self.spec_chars()),
        ensures
            r == next_wrap_spec(self.spec_chars(), self.spec_geom().sx as int, *w),
    {
        self.buf.next_wrap(self.spec.sx, w)
    }

    fn delta_wrap(&self, c: usize, dy: i32) -> (w: Wrap)
        requires
            self.spec_geom().sx > 0,
            text_fits(self.spec_chars()),
            wrap_arg_ok(self.spec_chars(), c as int),
            dy > i32::MIN,
        ensures
            w == delta_wrap_spec(self.spec_chars(), self.spec_geom().sx as int, c as int, dy as int),
    {
        self.buf.delta_wrap(self.spec.sx, c, dy)
    }

    fn wrap_window_down(&self, c: usize, size: usize) -> (out: Vec<Wrap>)
        requires
            self.spec_geom().sx > 0,
            text_fits(self.spec_chars()),
            wrap_arg_ok(self.spec_chars(), c as int),
            size < i32::MAX,
        ensures
            out@ == wrap_window_spec(self.spec_chars(), self.spec_geom().sx as int, c as int, size as nat, false),
    {
        self.wrap_window(c, size, false)
    }

    fn wrap_window(&self, c: usize, size: usize, reverse: bool) -> (out: Vec<Wrap>)
        requires
            self.spec_geom().sx > 0,
            text_fits(self.spec_chars()),
            wrap_arg_ok(self.spec_chars(), c as int),
            size < i32::MAX,
        ensures
            out@ == wrap_window_spec(self.spec_chars(), self.spec_geom().sx as int, c as int, size as nat, reverse),
    {
        self.buf.wrap_window(self.spec.sx, c, size, reverse)
    }

    /// Column `x` of the cursor's line (from its end when negative), kept in the line.
    pub fn line_move(&self, x: i32) -> (r: usize)
        requires
            self.spec_geom().sx > 0,
            text_fits(self.spec_chars()),
            wrap_arg_ok(self.spec_chars(), self.spec_current() as int),
            self.spec_chars().len() <= i32::MAX,
        ensures
            r == line_move_spec(self.spec_chars(), self.spec_geom().sx as int, self.spec_current() as int, x as int),
    {
        self.buf.line_move(self.spec.sx, self.char_current, x)
    }

    /// The position `dx` characters from `c0`, and its column in its row.
    pub fn move_cursor_x(&mut self, c0: usize, dx: i32) -> (r: (usize, usize))
        requires
            old(self).spec_geom().sx > 0,
            text_fits(old(self).spec_chars()),
            old(self).spec_chars().len() <= i32::MAX,
            c0 <= i32::MAX,
            i32::MIN <= c0 + dx <= i32::MAX,
        ensures
            r.0 == move_x_target(old(self).spec_chars(), old(self).spec_geom().sx as int, c0 as int, dx as int, false),
            r.1 == r.0 - wrap_at(old(self).spec_chars(), old(self).spec_geom().sx as int, r.0 as int).c0,
            same_view(*old(self), *final(self)),
    {
        self.buf.move_cursor_x(self.spec.sx, c0, dx)
    }

    /// The position `dy` rows from the row of `c0`, at the cursor's remembered column.
    pub fn move_cursor_y(&mut self, c0: usize, dy: i32) -> (c: usize)
        requires
            old(self).spec_geom().sx > 0,
            text_fits(old(self).spec_chars()),
            wrap_arg_ok(old(self).spec_chars(), c0 as int),
            dy > i32::MIN,
        ensures
            c == move_y_spec(
                old(self).spec_chars(),
                old(self).spec_geom().sx as int,
                c0 as int,
                dy as int,
                old(self).spec_cursor().spec_x_hint() as int,
            ),
            same_view(*old(self), *final(self)),
    {
        self.buf.move_cursor_y(self.spec.sx, c0, &self.cursor, dy)
    }

    /// The start of line `line`, counted from the last line when negative.
    pub fn jump_to_line(&mut self, line: i64) -> (c: usize)
        requires
            line > i64::MIN,
            line < 0 ==> -line <= line_count(old(self).spec_chars()) - 1,
        ensures
            c == line_start(old(self).spec_chars(), jump_line_spec(old(self).spec_chars(), line as int)),
            same_view(*old(self), *final(self)),
    {
        self.buf.jump_to_line(line)
    }
}

} // verus!
verus! {

/// A row holds character `c`: its range holds `c`, or its range is empty.
pub open spec fn within(r: ViewRow, c: int) -> bool {
    r.spec_c0() == r.spec_c1() || (r.spec_c0() <= c && c < r.spec_c1())
}

/// The first row that holds character `c`.
pub open spec fn first_within(rows: Seq<ViewRow>, c: int) -> Option<int> {
    if exists|i: int| 0 <= i < rows.len() && within(rows[i], c) {
        Some(choose|i: int| 0 <= i < rows.len() && within(rows[i], c) && forall|j: int| 0 <= j < i ==> !within(rows[j], c))
    } else {
        None
    }
}

/// What a drawing step shows, as values: its kind, its position and its text.
pub open spec fn draw_view(d: DrawCommand) -> (int, int, int, Seq<char>) {
    match d {
        DrawCommand::Row(x, y, s) => (2, x as int, y as int, s@),
        DrawCommand::Status(y, s) => (3, 0, y as int, s@),
        DrawCommand::Cursor(x, y) => (4, x as int, y as int, Seq::empty()),
        _ => (0, 0, 0, Seq::empty()),
    }
}

/// The steps that draw the rows that must be drawn again, the first row at screen row `y`.
pub open spec fn dirty_rows(rows: Seq<ViewRow>, x0: int, y: int) -> Seq<(int, int, int, Seq<char>)>
    decreases rows.len(),
{
    if rows.len() == 0 {
        seq![]
    } else {
        let r = rows.last();
        let before = dirty_rows(rows.drop_last(), x0, y);
        if r.spec_dirty() {
            before.push(
                (
                    2,
                    x0,
                    y + rows.len() - 1,
                    match r.spec_body() {
                        Some(b) => dotted(b),
                        None => Seq::<char>::empty(),
                    },
                ),
            )
        } else {
            before
        }
    }
}

/// `rows` after a redraw: each as before, but no longer to be drawn.
pub open spec fn all_clean(before: Seq<ViewRow>, after: Seq<ViewRow>) -> bool {
    &&& after.len() == before.len()
    &&& forall|i: int| 0 <= i < after.len() ==> {
        &&& !(#[trigger] after[i]).spec_dirty()
        &&& after[i].spec_body() == before[i].spec_body()
        &&& after[i].spec_checksum() == before[i].spec_checksum()
        &&& after[i].spec_line() == before[i].spec_line()
        &&& after[i].spec_c0() == before[i].spec_c0()
        &&& after[i].spec_c1() == before[i].spec_c1()
    }
}

impl<'a> BufferView<'a> {
    /// The character under screen cell `(mx, my)`, kept on its row's last character; none
    /// outside the body or on a row past the text.
    pub fn char_from_cursor(&self, mx: u16, my: u16) -> (r: Option<usize>)
        requires
            cell_ok(*self, mx, my),
        ensures
            r == cell_char(*self, mx, my),
    {
        let x0 = self.spec.x0;
        let y0 = self.spec.y0;
        let sx = self.spec.sx;
        let sy = self.spec.sy;
        let y1 = y0 + sy;
        if mx >= x0 && mx < sx && my >= y0 && my < y1 {
            let mut cx = mx as usize - x0 as usize;
            let cy = my as usize - y0 as usize;
            let line = &self.lines[cy];
            if line.is_line() {
                let line_length = line.c1() - line.c0();
                if cx >= line_length {
                    cx = line_length - 1;
                }
                Some(line.c0() + cx)
            } else {
                None
            }
        } else {
            None
        }
    }

    /// The screen cell of character `c`: its column in the first row that holds it, and that
    /// row.
    pub fn cursor_from_char(&self, c: usize) -> (r: Option<(u16, u16)>)
        requires
            first_within(self.spec_lines(), c as int) matches Some(i) ==> self.spec_lines()[i].spec_c0() <= c,
        ensures
            r == match first_within(self.spec_lines(), c as int) {
                Some(i) => Some(((c - self.spec_lines()[i].spec_c0()) as u16, i as u16)),
                None => None,
            },
    {
        let mut i: usize = 0;
        while i < self.lines.len()
            invariant
                i <= self.lines@.len(),
                forall|j: int| 0 <= j < i ==> !within(self.lines@[j], c as int),
                first_within(self.spec_lines(), c as int) matches Some(k) ==> self.spec_lines()[k].spec_c0() <= c,
            decreases self.lines@.len() - i,
        {
            if self.lines[i].is_within(c) {
                proof {
                    let rows = self.lines@;
                    assert(0 <= i < rows.len() && within(rows[i as int], c as int));
                    let w = choose|k: int| 0 <= k < rows.len() && within(rows[k], c as int) && forall|j: int| 0 <= j < k ==> !within(rows[j], c as int);
                    assert(w == i) by {
                        if w < i {
                        } else if w > i {
                        }
                    }
                }
                let w = &self.lines[i];
                let cx = #[verifier::truncate] ((c - w.c0()) as u16);
                let cy = #[verifier::truncate] (i as u16);
                return Some((cx, cy));
            }
            i = i + 1;
        }
        None
    }

    /// Moves the cursor to character `c`.
    pub fn update_cursor(&mut self, c: usize)
        requires
            first_within(old(self).spec_lines(), c as int) matches Some(i) ==> old(self).spec_lines()[i].spec_c0() <= c,
        ensures
            cursor_updated(*old(self), *final(self), c as int),
    {
        self.char_current = c;
        if let Some((cx, cy)) = self.cursor_from_char(c) {
            self.cursor.update(cx, cy);
        }
    }

    /// Marks every row to be drawn again.
    pub fn refresh(&mut self)
        ensures
            view_refreshed(*old(self), *final(self)),
    {
        let mut i: usize = 0;
        let ghost before = self.lines@;
        let ghost ch = self.buf.chars();
        let ghost sp = self.spec;
        let ghost others = (self.char_start, self.char_current, self.char_end, self.mode, self.cursor);
        while i < self.lines.len()
            invariant
                self.buf.chars() == ch,
                self.spec == sp,
                (self.char_start, self.char_current, self.char_end, self.mode, self.cursor) == others,
                self.lines@.len() == before.len(),
                i <= before.len(),
                forall|j: int| 0 <= j < before.len() ==> {
                    &&& (j < i ==> (#[trigger] self.lines@[j]).spec_dirty())
                    &&& (j >= i ==> self.lines@[j] == before[j])
                    &&& self.lines@[j].spec_body() == before[j].spec_body()
                    &&& self.lines@[j].spec_checksum() == before[j].spec_checksum()
                    &&& self.lines@[j].spec_c0() == before[j].spec_c0()
                    &&& self.lines@[j].spec_c1() == before[j].spec_c1()
                    &&& self.lines@[j].spec_line() == before[j].spec_line()
                },
            decreases before.len() - i,
        {
            let mut row = self.lines.remove(i);
            row.mark_dirty();
            self.lines.insert(i, row);
            i = i + 1;
        }
    }
}

/// Every row of the window of `sy` rows from `c` lies inside the text.
pub open spec fn window_in_text(s: Seq<char>, sx: int, c: int, sy: nat) -> bool {
    let ws = wrap_window_spec(s, sx, c, sy, false);
    forall|i: int| 0 <= i < ws.len() ==> (#[trigger] ws[i]).c0 <= ws[i].c1 <= s.len()
}

/// Row `i` of the body after `update_lines`: the text of the `i`-th row of the window (tabs
/// shown as `...|`) with its range, or an empty text past the window.
pub open spec fn row_updated(before: ViewRow, after: ViewRow, s: Seq<char>, ws: Seq<Wrap>, i: int) -> bool {
    let body = if i < ws.len() {
        bar_tabs(s.subrange(ws[i].c0 as int, ws[i].c1 as int))
    } else {
        Seq::<char>::empty()
    };
    &&& after.wf()
    &&& after.spec_body() == Some(body)
    &&& after.spec_dirty() == (before.spec_checksum() != default_hash(body))
    &&& if i < ws.len() {
        after.spec_c0() == ws[i].c0 && after.spec_c1() == ws[i].c1 && after.spec_line() == ws[i].line0
    } else {
        after.spec_c0() == before.spec_c0() && after.spec_c1() == before.spec_c1() && after.spec_line() == before.spec_line()
    }
}

impl<'a> BufferView<'a> {
    /// Fills the body's rows with the rows of the text from the view's first character.
    pub fn update_lines(&mut self)
        requires
            old(self).spec_geom().sx > 0,
            text_fits(old(self).spec_chars()),
            wrap_arg_ok(old(self).spec_chars(), old(self).spec_char_start() as int),
            old(self).spec_lines().len() >= old(self).spec_geom().sy,
            window_in_text(
                old(self).spec_chars(),
                old(self).spec_geom().sx as int,
                old(self).spec_char_start() as int,
                old(self).spec_geom().sy as nat,
            ),
        ensures
            lines_updated(*old(self), *final(self)),
    {
        let c = self.char_start;
        let sy = self.spec.sy as usize;
        let wraps = self.wrap_window_down(c, sy);
        let ghost s = self.buf.chars();
        let ghost before = self.lines@;
        let ghost sp = self.spec;
        let ghost cur = self.cursor;
        let ghost cc = self.char_current;
        let ghost me = (self.mode, self.char_end);
        let mut inx: usize = 0;
        while inx < sy
            invariant
                (self.mode, self.char_end) == me,
                self.buf.chars() == s,
                self.spec == sp,
                self.cursor == cur,
                self.char_current == cc,
                self.char_start == c,
                sy == sp.sy,
                sy <= before.len(),
                self.lines@.len() == before.len(),
                inx <= sy,
                wraps@ == wrap_window_spec(s, sp.sx as int, c as int, sy as nat, false),
                forall|i: int| 0 <= i < wraps@.len() ==> (#[trigger] wraps@[i]).c0 <= wraps@[i].c1 <= s.len(),
                forall|i: int| 0 <= i < inx ==> row_updated(before[i], #[trigger] self.lines@[i], s, wraps@, i),
                forall|i: int| inx <= i < self.lines@.len() ==> #[trigger] self.lines@[i] == before[i],
            decreases sy - inx,
        {
            let mut line = self.lines.remove(inx);
            let ghost old_line = line;
            if inx < wraps.len() {
                let w = &wraps[inx];
                let body = self.buf.wrap_to_string(w, true);
                line.update_string(body);
                line.update_wrap(w);
            } else {
                line.update_string(String::new());
            }
            let ghost lines_mid = self.lines@;
            let ghost new_line = line;
            proof {
                assert(old_line == before[inx as int]);
                assert(row_updated(old_line, new_line, s, wraps@, inx as int));
            }
            self.lines.insert(inx, line);
            proof {
                assert forall|i: int| 0 <= i < inx + 1 implies row_updated(before[i], #[trigger] self.lines@[i], s, wraps@, i) by {
                    if i < inx {
                        assert(self.lines@[i] == lines_mid[i]);
                    } else {
                        assert(self.lines@[i] == new_line);
                    }
                }
                assert forall|i: int| inx + 1 <= i < self.lines@.len() implies #[trigger] self.lines@[i] == before[i] by {
                    assert(self.lines@[i] == lines_mid[i - 1]);
                }
            }
            inx = inx + 1;
        }
    }
}

/// The drawing steps of a view: the header, the rows that must be drawn again, the status
/// and footer rows, and the cursor.
pub open spec fn render_view(
    g: ViewSpec,
    start: usize,
    rows: Seq<ViewRow>,
    pos: (u16, u16),
) -> Seq<(int, int, int, Seq<char>)> {
    let r0 = g.origin_y + g.header;
    let r1 = r0 + rows.len();
    let head = if g.header > 0 {
        seq![(3int, 0int, g.origin_y as int, "Header: "@ + decimal(start as nat))]
    } else {
        seq![]
    };
    let status = if g.status > 0 {
        seq![(3int, 0int, r1, "DEBUG: "@ + decimal(start as nat))]
    } else {
        seq![]
    };
    let footer = if g.footer > 0 {
        seq![(3int, 0int, r1 + g.status, Seq::<char>::empty())]
    } else {
        seq![]
    };
    head + dirty_rows(rows, g.x0 as int, r0) + status + footer + seq![
        (4int, pos.0 + g.x0, pos.1 + g.y0, Seq::<char>::empty()),
    ]
}

impl<'a> BufferView<'a> {
    /// Draws the rows that changed, the header, status and footer rows and the cursor; the
    /// rows are then drawn.
    pub fn render(&mut self) -> (out: Vec<DrawCommand>)
        requires
            old(self).spec_geom().origin_y + old(self).spec_geom().header + old(self).spec_lines().len()
                + old(self).spec_geom().status <= u16::MAX,
            old(self).spec_cursor().spec_pos().0 + old(self).spec_geom().x0 <= u16::MAX,
            old(self).spec_cursor().spec_pos().1 + old(self).spec_geom().y0 <= u16::MAX,
        ensures
            out@.map_values(|d: DrawCommand| draw_view(d)) == render_view(
                old(self).spec_geom(),
                old(self).spec_char_start(),
                old(self).spec_lines(),
                old(self).spec_cursor().spec_pos(),
            ),
            all_clean(old(self).spec_lines(), final(self).spec_lines()),
            final(self).spec_chars() == old(self).spec_chars(),
            final(self).spec_geom() == old(self).spec_geom(),
            final(self).spec_char_start() == old(self).spec_char_start(),
            final(self).spec_cursor() == old(self).spec_cursor(),
    {
        let ghost g = self.spec;
        let ghost before = self.lines@;
        let ghost ch = self.buf.chars();
        let ghost cur = self.cursor;
        let ghost st = self.char_start;
        let mut out: Vec<DrawCommand> = Vec::new();
        let mut row = self.spec.origin_y;
        if self.spec.header > 0 {
            out.push(DrawCommand::Status(row, with_decimal("Header: ", self.char_start)));
            row = row + self.spec.header;
        }
        let ghost head = out@.map_values(|d: DrawCommand| draw_view(d));
        let ghost r0 = row as int;
        proof {
            assert(r0 == g.origin_y + g.header);
        }
        let mut i: usize = 0;
        while i < self.lines.len()
            invariant
                self.buf.chars() == ch,
                self.spec == g,
                self.cursor == cur,
                self.char_start == st,
                g.origin_y + g.header + before.len() + g.status <= u16::MAX,
                self.lines@.len() == before.len(),
                i <= before.len(),
                row as int == r0 + i,
                r0 == g.origin_y + g.header,
                out@.map_values(|d: DrawCommand| draw_view(d)) == head + dirty_rows(
                    before.take(i as int),
                    g.x0 as int,
                    r0,
                ),
                forall|j: int| 0 <= j < i ==> {
                    &&& !(#[trigger] self.lines@[j]).spec_dirty()
                    &&& self.lines@[j].spec_body() == before[j].spec_body()
                    &&& self.lines@[j].spec_checksum() == before[j].spec_checksum()
                    &&& self.lines@[j].spec_line() == before[j].spec_line()
                    &&& self.lines@[j].spec_c0() == before[j].spec_c0()
                    &&& self.lines@[j].spec_c1() == before[j].spec_c1()
                },
                forall|j: int| i <= j < before.len() ==> #[trigger] self.lines@[j] == before[j],
            decreases before.len() - i,
        {
            let mut line = self.lines.remove(i);
            let ghost old_out = out@.map_values(|d: DrawCommand| draw_view(d));
            proof {
                assert(before.take(i + 1).drop_last() =~= before.take(i as int));
                assert(before.take(i + 1).last() == before[i as int]);
                assert(line == before[i as int]);
            }
            if line.is_dirty() {
                let s = line.to_string();
                out.push(DrawCommand::Row(self.spec.x0, row, s));
                line.clear();
                proof {
                    assert(out@.map_values(|d: DrawCommand| draw_view(d)) =~= old_out.push(
                        (2, g.x0 as int, r0 + i, match before[i as int].spec_body() {
                            Some(b) => dotted(b),
                            None => Seq::<char>::empty(),
                        }),
                    ));
                }
            }
            let ghost lines_mid = self.lines@;
            let ghost new_line = line;
            self.lines.insert(i, line);
            proof {
                assert forall|j: int| 0 <= j < i + 1 implies {
                    &&& !(#[trigger] self.lines@[j]).spec_dirty()
                    &&& self.lines@[j].spec_body() == before[j].spec_body()
                    &&& self.lines@[j].spec_checksum() == before[j].spec_checksum()
                    &&& self.lines@[j].spec_line() == before[j].spec_line()
                    &&& self.lines@[j].spec_c0() == before[j].spec_c0()
                    &&& self.lines@[j].spec_c1() == before[j].spec_c1()
                } by {
                    if j < i {
                        assert(self.lines@[j] == lines_mid[j]);
                    } else {
                        assert(self.lines@[j] == new_line);
                    }
                }
                assert forall|j: int| i + 1 <= j < before.len() implies #[trigger] self.lines@[j] == before[j] by {
                    assert(self.lines@[j] == lines_mid[j - 1]);
                }
            }
            row = row + 1;
            i = i + 1;
        }
        proof {
            assert(before.take(before.len() as int) =~= before);
        }
        let ghost v1 = out@.map_values(|d: DrawCommand| draw_view(d));
        proof {
            assert(v1 == head + dirty_rows(before, g.x0 as int, r0));
            assert(head == if g.header > 0 {
                seq![(3int, 0int, g.origin_y as int, "Header: "@ + decimal(st as nat))]
            } else {
                seq![]
            });
        }
        if self.spec.status > 0 {
            out.push(DrawCommand::Status(row, with_decimal("DEBUG: ", self.char_start)));
            row = row + self.spec.status;
        }
        let ghost v2 = out@.map_values(|d: DrawCommand| draw_view(d));
        proof {
            assert(v2 =~= v1 + if g.status > 0 {
                seq![(3int, 0int, r0 + before.len(), "DEBUG: "@ + decimal(st as nat))]
            } else {
                seq![]
            });
            assert(row as int == r0 + before.len() + g.status);
        }
        if self.spec.footer > 0 {
            out.push(DrawCommand::Status(row, String::new()));
        }
        let ghost v3 = out@.map_values(|d: DrawCommand| draw_view(d));
        proof {
            assert(v3 =~= v2 + if g.footer > 0 {
                seq![(3int, 0int, r0 + before.len() + g.status, Seq::<char>::empty())]
            } else {
                seq![]
            });
        }
        let (cx, cy) = self.cursor.pos();
        out.push(DrawCommand::Cursor(cx + self.spec.x0, cy + self.spec.y0));
        proof {
            let v = out@.map_values(|d: DrawCommand| draw_view(d));
            assert(v =~= v3.push((4int, cur.spec_pos().0 + g.x0, cur.spec_pos().1 + g.y0, Seq::<char>::empty())));
            assert(v =~= render_view(g, st, before, cur.spec_pos()));
        }
        out
    }
}

/// Two views that agree in everything a step of the view reads or changes: the text, the
/// cursor's position in it, the mode, the geometry, the cursor, the first and last character
/// shown, and the rows.
pub open spec fn same_view<'a>(v: BufferView<'a>, v2: BufferView<'a>) -> bool {
    &&& v2.spec_chars() == v.spec_chars()
    &&& v2.spec_current() == v.spec_current()
    &&& v2.spec_mode() == v.spec_mode()
    &&& v2.spec_geom() == v.spec_geom()
    &&& v2.spec_cursor() == v.spec_cursor()
    &&& v2.spec_char_start() == v.spec_char_start()
    &&& v2.spec_char_end() == v.spec_char_end()
    &&& v2.spec_lines() == v.spec_lines()
}

/// The cursor can be put at character `c`: the first row that holds `c` does not start after
/// it.
pub open spec fn cursor_ok<'a>(v: BufferView<'a>, c: int) -> bool {
    first_within(v.spec_lines(), c) matches Some(i) ==> v.spec_lines()[i].spec_c0() <= c
}

/// What `update_cursor(c)` does to view `v` (giving `v2`): the cursor moves to character `c`,
/// at its column in the first row that holds it (or stays where it is on the screen when no
/// row holds it), keeping its remembered column; the rest stays.
pub open spec fn cursor_updated<'a>(v: BufferView<'a>, v2: BufferView<'a>, c: int) -> bool {
    &&& v2.spec_current() == c
    &&& match first_within(v.spec_lines(), c) {
        Some(i) => v2.spec_cursor().spec_pos() == ((c - v.spec_lines()[i].spec_c0()) as u16, i as u16),
        None => v2.spec_cursor().spec_pos() == v.spec_cursor().spec_pos(),
    }
    &&& v2.spec_cursor().spec_x_hint() == v.spec_cursor().spec_x_hint()
    &&& v2.spec_lines() == v.spec_lines()
    &&& v2.spec_chars() == v.spec_chars()
    &&& v2.spec_geom() == v.spec_geom()
    &&& v2.spec_char_start() == v.spec_char_start()
    &&& v2.spec_char_end() == v.spec_char_end()
    &&& v2.spec_mode() == v.spec_mode()
}

/// What `resize` does to view `v` (giving `v2`): the new size and origin, the body's size
/// computed again, the rows kept as far as they fit and fresh ones after; the rest stays.
pub open spec fn view_resized<'a>(v: BufferView<'a>, v2: BufferView<'a>, w: u16, h: u16, origin_x: u16, origin_y: u16) -> bool {
    &&& v2.spec_geom().w == w && v2.spec_geom().h == h
    &&& v2.spec_geom().origin_x == origin_x && v2.spec_geom().origin_y == origin_y
    &&& v2.spec_geom().header == v.spec_geom().header && v2.spec_geom().footer == v.spec_geom().footer && v2.spec_geom().status == v.spec_geom().status
    &&& v2.spec_geom().lm == v.spec_geom().lm && v2.spec_geom().rm == v.spec_geom().rm
    &&& v2.spec_geom().calculated()
    &&& resized_rows(v.spec_lines(), v2.spec_geom().sy as int, v2.spec_lines())
    &&& v2.spec_chars() == v.spec_chars()
    &&& v2.spec_char_start() == v.spec_char_start()
    &&& v2.spec_current() == v.spec_current()
    &&& v2.spec_char_end() == v.spec_char_end()
    &&& v2.spec_mode() == v.spec_mode()
    &&& v2.spec_cursor() == v.spec_cursor()
}

/// What `update_lines` does to view `v` (giving `v2`): each row of the body takes the text
/// and range of its row of the window from the view's first character; the rest stays.
pub open spec fn lines_updated<'a>(v: BufferView<'a>, v2: BufferView<'a>) -> bool {
    &&& ({
        let s = v.spec_chars();
        let sy = v.spec_geom().sy as int;
        let ws = wrap_window_spec(s, v.spec_geom().sx as int, v.spec_char_start() as int, sy as nat, false);
        let before = v.spec_lines();
        let after = v2.spec_lines();
        &&& after.len() == before.len()
        &&& forall|i: int| 0 <= i < sy ==> row_updated(before[i], #[trigger] after[i], s, ws, i)
        &&& forall|i: int| sy <= i < after.len() ==> #[trigger] after[i] == before[i]
    })
    &&& v2.spec_chars() == v.spec_chars()
    &&& v2.spec_geom() == v.spec_geom()
    &&& v2.spec_char_start() == v.spec_char_start()
    &&& v2.spec_current() == v.spec_current()
    &&& v2.spec_cursor() == v.spec_cursor()
    &&& v2.spec_mode() == v.spec_mode()
    &&& v2.spec_char_end() == v.spec_char_end()
}

/// What `refresh` does to view `v` (giving `v2`): every row is to be drawn again; the rest
/// stays.
pub open spec fn view_refreshed<'a>(v: BufferView<'a>, v2: BufferView<'a>) -> bool {
    &&& v2.spec_lines().len() == v.spec_lines().len()
    &&& forall|i: int| 0 <= i < v2.spec_lines().len() ==> {
        &&& (#[trigger] v2.spec_lines()[i]).spec_dirty()
        &&& v2.spec_lines()[i].spec_body() == v.spec_lines()[i].spec_body()
        &&& v2.spec_lines()[i].spec_checksum() == v.spec_lines()[i].spec_checksum()
        &&& v2.spec_lines()[i].spec_c0() == v.spec_lines()[i].spec_c0()
        &&& v2.spec_lines()[i].spec_c1() == v.spec_lines()[i].spec_c1()
        &&& v2.spec_lines()[i].spec_line() == v.spec_lines()[i].spec_line()
    }
    &&& v2.spec_chars() == v.spec_chars()
    &&& v2.spec_geom() == v.spec_geom()
    &&& v2.spec_char_start() == v.spec_char_start()
    &&& v2.spec_current() == v.spec_current()
    &&& v2.spec_char_end() == v.spec_char_end()
    &&& v2.spec_mode() == v.spec_mode()
    &&& v2.spec_cursor() == v.spec_cursor()
}

/// What `char_from_cursor` needs: the body's place fits in the numbers, every row of the
/// body exists, and a row under the cell that shows text holds at least one character.
pub open spec fn cell_ok<'a>(v: BufferView<'a>, mx: u16, my: u16) -> bool {
    &&& v.spec_geom().x0 + v.spec_geom().sx <= u16::MAX
    &&& v.spec_geom().y0 + v.spec_geom().sy <= u16::MAX
    &&& v.spec_lines().len() >= v.spec_geom().sy
    &&& ({
        let g = v.spec_geom();
        (mx >= g.x0 && mx < g.sx && my >= g.y0 && my < g.y0 + g.sy) ==> {
            let row = v.spec_lines()[my - g.y0];
            row.spec_body() is Some ==> row.spec_c0() < row.spec_c1()
        }
    })
}

/// The character under screen cell `(mx, my)` of view `v`, kept on its row's last
/// character; none outside the body or on a row past the text.
pub open spec fn cell_char<'a>(v: BufferView<'a>, mx: u16, my: u16) -> Option<usize> {
    ({
        let g = v.spec_geom();
        if mx >= g.x0 && mx < g.sx && my >= g.y0 && my < g.y0 + g.sy {
            let row = v.spec_lines()[my - g.y0];
            let cx = mx - g.x0;
            if row.spec_body() is Some {
                let len = row.spec_c1() - row.spec_c0();
                Some((row.spec_c0() + if cx >= len {
                    len - 1
                } else {
                    cx
                }) as usize)
            } else {
                None
            }
        } else {
            None
        }
    })
}

/// View `v2` is view `v` with `ch` put at the cursor's position and the cursor one further;
/// the rest stays.
pub open spec fn char_inserted<'a>(v: BufferView<'a>, v2: BufferView<'a>, ch: char) -> bool {
    &&& v2.spec_chars() == v.spec_chars().insert(v.spec_current() as int, ch)
    &&& v2.spec_current() == v.spec_current() + 1
    &&& v2.spec_mode() == v.spec_mode()
    &&& v2.spec_geom() == v.spec_geom()
    &&& v2.spec_cursor() == v.spec_cursor()
    &&& v2.spec_char_start() == v.spec_char_start()
    &&& v2.spec_char_end() == v.spec_char_end()
    &&& v2.spec_lines() == v.spec_lines()
}

/// What `update_lines` needs of view `v`: rows of some width, a text that fits, a first
/// character that can be looked up, a row for each row of the body, and a window inside the
/// text.
pub open spec fn lines_ready<'a>(v: BufferView<'a>) -> bool {
    &&& v.spec_geom().sx > 0
    &&& text_fits(v.spec_chars())
    &&& wrap_arg_ok(v.spec_chars(), v.spec_char_start() as int)
    &&& v.spec_lines().len() >= v.spec_geom().sy
    &&& window_in_text(v.spec_chars(), v.spec_geom().sx as int, v.spec_char_start() as int, v.spec_geom().sy as nat)
}

/// What `command` needs: for `Insert`, a cursor inside the text, and the rows laid out again
/// after the insertion, with the cursor one further.
pub open spec fn view_command_ready<'a>(v: BufferView<'a>, c: Command) -> bool {
    match c {
        Command::Insert(ch) => {
            &&& v.spec_current() <= v.spec_chars().len()
            &&& text_fits(v.spec_chars())
            &&& forall|v1: BufferView<'a>| #[trigger] char_inserted(v, v1, ch) ==> lines_ready(v1)
            &&& forall|v1: BufferView<'a>, v2: BufferView<'a>|
                #![trigger char_inserted(v, v1, ch), lines_updated(v1, v2)]
                char_inserted(v, v1, ch) && lines_updated(v1, v2) ==> cursor_ok(v2, v.spec_current() + 1)
        },
        _ => true,
    }
}

/// What `command` does: `Insert` puts the character at the cursor, lays the rows out again and
/// moves the cursor after the character; `Refresh` marks every row to be drawn again; every
/// other command leaves the view as it was.
pub open spec fn view_command_done<'a>(v: BufferView<'a>, c: Command, v2: BufferView<'a>) -> bool {
    match c {
        Command::Insert(ch) => exists|a: BufferView<'a>, b: BufferView<'a>|
            #![trigger char_inserted(v, a, ch), lines_updated(a, b)]
            {
                &&& char_inserted(v, a, ch)
                &&& lines_updated(a, b)
                &&& cursor_updated(b, v2, v.spec_current() + 1)
            },
        Command::Refresh => view_refreshed(v, v2),
        _ => same_view(v, v2),
    }
}

impl<'a> BufferView<'a> {
    /// Carries out the commands that concern the view alone.
    pub fn command(&mut self, command: Command)
        requires
            view_command_ready(*old(self), command),
        ensures
            view_command_done(*old(self), command, *final(self)),
    {
        match command {
            Command::Insert(c) => {
                let cur = self.char_current;
                self.buf.insert_char(cur, c);
                self.char_current = cur + 1;
                let ghost a = *self;
                assert(char_inserted(*old(self), a, c));
                self.update_lines();
                let ghost b = *self;
                self.update_cursor(self.char_current);
                assert(lines_updated(a, b));
            },
            Command::Refresh => {
                self.refresh();
            },
            _ => {},
        }
    }
}

/// A view of one buffer that takes the commands of the keyboard and the mouse.
#[derive(Debug)]
pub struct App<'a> {
    pub view: BufferView<'a>,
}

/// What `resize` needs: a size that holds the margins and the header, footer and status rows
/// of geometry `g` (with right margin `rm`), an origin that keeps the body's place in the
/// numbers, rows of some width, and a window of the new body inside the text `s` from its
/// first character `start`.
pub open spec fn resize_ready(s: Seq<char>, start: int, g: ViewSpec, rm: int, w: int, h: int, ox: int, oy: int) -> bool {
    let sx = w - g.lm - rm;
    let sy = h - g.header - g.footer - g.status;
    &&& g.lm + rm <= w
    &&& g.header + g.footer + g.status <= h
    &&& ox + g.lm <= u16::MAX
    &&& oy + g.header <= u16::MAX
    &&& sx > 0
    &&& text_fits(s)
    &&& wrap_arg_ok(s, start)
    &&& window_in_text(s, sx, start, sy as nat)
}

/// What resizing view `v` to `w` by `h` at `(ox, oy)` needs.
pub open spec fn view_resize_ready<'a>(v: BufferView<'a>, w: u16, h: u16, ox: u16, oy: u16) -> bool {
    resize_ready(v.spec_chars(), v.spec_char_start() as int, v.spec_geom(), v.spec_geom().rm as int, w as int, h as int, ox as int, oy as int)
}

/// View `v` resized to `w` by `h` at `(ox, oy)`, its rows laid out again and all marked to be
/// drawn: that is view `v2`.
pub open spec fn app_resized<'a>(v: BufferView<'a>, v2: BufferView<'a>, w: u16, h: u16, ox: u16, oy: u16) -> bool {
    exists|a: BufferView<'a>, b: BufferView<'a>|
        #![trigger view_resized(v, a, w, h, ox, oy), lines_updated(a, b)]
        {
            &&& view_resized(v, a, w, h, ox, oy)
            &&& lines_updated(a, b)
            &&& view_refreshed(b, v2)
        }
}

/// View `v2` is view `v` in mode `m`; the rest stays.
pub open spec fn mode_set<'a>(v: BufferView<'a>, v2: BufferView<'a>, m: Mode) -> bool {
    &&& v2.spec_mode() == m
    &&& v2.spec_chars() == v.spec_chars()
    &&& v2.spec_current() == v.spec_current()
    &&& v2.spec_geom() == v.spec_geom()
    &&& v2.spec_cursor() == v.spec_cursor()
    &&& v2.spec_char_start() == v.spec_char_start()
    &&& v2.spec_char_end() == v.spec_char_end()
    &&& v2.spec_lines() == v.spec_lines()
}

/// View `v2` is view `v` with the cursor remembering column `x`; the rest stays.
pub open spec fn hint_set<'a>(v: BufferView<'a>, v2: BufferView<'a>, x: u16) -> bool {
    &&& v2.spec_cursor().spec_x_hint() == x
    &&& v2.spec_cursor().spec_pos() == v.spec_cursor().spec_pos()
    &&& v2.spec_cursor().spec_has_changed() == v.spec_cursor().spec_has_changed()
    &&& v2.spec_mode() == v.spec_mode()
    &&& v2.spec_chars() == v.spec_chars()
    &&& v2.spec_current() == v.spec_current()
    &&& v2.spec_geom() == v.spec_geom()
    &&& v2.spec_char_start() == v.spec_char_start()
    &&& v2.spec_char_end() == v.spec_char_end()
    &&& v2.spec_lines() == v.spec_lines()
}

/// View `v2` is view `v` with one more column of right margin and its body computed again;
/// the rest stays.
pub open spec fn margin_grown<'a>(v: BufferView<'a>, v2: BufferView<'a>) -> bool {
    let g = v.spec_geom();
    let g2 = v2.spec_geom();
    &&& g2.w == g.w && g2.h == g.h && g2.origin_x == g.origin_x && g2.origin_y == g.origin_y
    &&& g2.header == g.header && g2.footer == g.footer && g2.status == g.status
    &&& g2.lm == g.lm && g2.rm == g.rm + 1
    &&& g2.calculated()
    &&& v2.spec_mode() == v.spec_mode()
    &&& v2.spec_chars() == v.spec_chars()
    &&& v2.spec_current() == v.spec_current()
    &&& v2.spec_cursor() == v.spec_cursor()
    &&& v2.spec_char_start() == v.spec_char_start()
    &&& v2.spec_char_end() == v.spec_char_end()
    &&& v2.spec_lines() == v.spec_lines()
}

/// The position the cursor goes to for a cursor motion of view `v`.
pub open spec fn motion_target<'a>(v: BufferView<'a>, c: Command) -> int {
    let s = v.spec_chars();
    let sx = v.spec_geom().sx as int;
    let cur = v.spec_current() as int;
    match c {
        Command::MoveCursorX(dx) => move_x_target(s, sx, cur, dx as int, false),
        Command::MoveCursorY(dy) => move_y_spec(s, sx, cur, dy as int, v.spec_cursor().spec_x_hint() as int),
        Command::LineNav(x) => line_move_spec(s, sx, cur, x as int),
        Command::Line(line) => line_start(s, jump_line_spec(s, line as int)),
        _ => cur,
    }
}

/// What `command` needs of the app's view for command `c`: for each command, what the steps
/// it takes need (numbers that fit, a line that exists, rows of some width, a window inside
/// the text), and a cursor that can be put where the command moves it.
pub open spec fn app_ready<'a>(a: App<'a>, c: Command) -> bool {
    let v = a.view;
    let s = v.spec_chars();
    let g = v.spec_geom();
    let cur = v.spec_current() as int;
    let t = motion_target(v, c);
    match c {
        Command::Mode(_) => cursor_ok(v, cur),
        Command::Test => {
            &&& g.rm < u16::MAX
            &&& g.header + g.footer + g.status <= g.h
            &&& g.h >= 1
            &&& g.origin_y < u16::MAX
            &&& resize_ready(s, v.spec_char_start() as int, g, g.rm + 1, g.w as int, g.h - 1, g.origin_x as int, g.origin_y + 1)
        },
        Command::MoveCursorX(dx) => {
            &&& g.sx > 0
            &&& text_fits(s)
            &&& s.len() <= i32::MAX
            &&& cur <= i32::MAX
            &&& i32::MIN <= cur + dx <= i32::MAX
            &&& cursor_ok(v, t)
        },
        Command::MoveCursorY(dy) => {
            &&& g.sx > 0
            &&& text_fits(s)
            &&& wrap_arg_ok(s, cur)
            &&& dy > i32::MIN
            &&& cursor_ok(v, t)
        },
        Command::LineNav(_) => {
            &&& g.sx > 0
            &&& text_fits(s)
            &&& wrap_arg_ok(s, cur)
            &&& s.len() <= i32::MAX
            &&& t >= wrap_at(s, g.sx as int, cur).c0
            &&& cursor_ok(v, t)
        },
        Command::Line(line) => {
            &&& line > i64::MIN
            &&& line < 0 ==> -line <= line_count(s) - 1
            &&& cursor_ok(v, t)
        },
        Command::Resize(x, y) => resize_ready(s, v.spec_char_start() as int, g, g.rm as int, x as int, y as int, 0, 0),
        Command::Mouse(x, y) => {
            &&& cell_ok(v, x, y)
            &&& cell_char(v, x, y) matches Some(p) ==> cursor_ok(v, p as int)
        },
        _ => view_command_ready(v, c),
    }
}

/// What `command` does to the app `a` (giving `a2`): `Mode` switches the mode and puts the
/// cursor in place again; `Test` widens the right margin by one column and resizes the view
/// one row shorter, one row lower; the cursor motions move the cursor to their target (the
/// sideways ones remembering its column in its row); `Line` goes to a line; `Resize` resizes
/// the view; `Mouse` puts the cursor on the character under the cell, if any; every other
/// command goes to the view. The view has no way to scroll, so `Scroll` and `ScrollPage` go
/// to the view as well, which leaves them alone.
pub open spec fn app_step<'a>(a: App<'a>, c: Command, a2: App<'a>) -> bool {
    let v = a.view;
    let v2 = a2.view;
    let s = v.spec_chars();
    let g = v.spec_geom();
    let cur = v.spec_current() as int;
    let t = motion_target(v, c);
    match c {
        Command::Mode(m) => exists|b: BufferView<'a>|
            #[trigger] mode_set(v, b, m) && cursor_updated(b, v2, cur),
        Command::Test => exists|b: BufferView<'a>|
            #[trigger] margin_grown(v, b) && app_resized(
                b,
                v2,
                g.w,
                (g.h - 1) as u16,
                g.origin_x,
                (g.origin_y + 1) as u16,
            ),
        Command::MoveCursorX(_) => exists|b: BufferView<'a>|
            #[trigger] hint_set(v, b, (t - wrap_at(s, g.sx as int, t).c0) as u16) && cursor_updated(b, v2, t),
        Command::MoveCursorY(_) => cursor_updated(v, v2, t),
        Command::LineNav(_) => exists|b: BufferView<'a>|
            #[trigger] hint_set(v, b, (t - wrap_at(s, g.sx as int, cur).c0) as u16) && cursor_updated(b, v2, t),
        Command::Line(_) => cursor_updated(v, v2, t),
        Command::Resize(x, y) => app_resized(v, v2, x, y, 0, 0),
        Command::Mouse(x, y) => match cell_char(v, x, y) {
            Some(p) => cursor_updated(v, v2, p as int),
            None => same_view(v, v2),
        },
        _ => view_command_done(v, c, v2),
    }
}

impl<'a> App<'a> {
    /// An app showing `buf` on a terminal of `x` by `y` cells, from the top, in normal mode.
    pub fn new(buf: &'a mut SmartBuffer<'a>, x: u16, y: u16) -> (a: Self)
        requires
            x >= 8,
            y >= 3,
            text_fits(old(buf).chars()),
            window_in_text(old(buf).chars(), x - 7, 0, (y - 3) as nat),
        ensures
            a.view.spec_chars() == old(buf).chars(),
            a.view.spec_char_start() == 0,
            a.view.spec_current() == 0,
            a.view.spec_char_end() == 0,
            a.view.spec_mode() == Mode::Normal,
            a.view.spec_geom() == (ViewSpec {
                w: x,
                h: y,
                origin_x: 0,
                origin_y: 0,
                header: 1,
                footer: 1,
                status: 1,
                lm: 6,
                rm: 1,
                sx: (x - 7) as u16,
                sy: (y - 3) as u16,
                x0: 6,
                y0: 1,
            }),
            a.view.spec_cursor().spec_pos() == (0u16, 0u16),
            a.view.spec_cursor().spec_x_hint() == 0,
            (exists|v: BufferView<'a>|
                #[trigger] app_resized(v, a.view, x, y, 0, 0) && v.spec_chars() == old(buf).chars() && v.spec_char_start() == 0
                    && v.spec_geom().lm == 6 && v.spec_geom().rm == 1 && v.spec_geom().header == 1
                    && v.spec_geom().footer == 1 && v.spec_geom().status == 1),
    {
        let spec = ViewSpec::new(x, y, 0, 0);
        let mut s = Self { view: BufferView::new(buf, Mode::Normal, spec) };
        let ghost v = s.view;
        s.resize(x, y, 0, 0);
        assert(app_resized(v, s.view, x, y, 0, 0));
        s
    }

    /// Resizes the view to `w` by `h` at `(origin_x, origin_y)`, lays its rows out again and
    /// marks them all to be drawn.
    fn resize(&mut self, w: u16, h: u16, origin_x: u16, origin_y: u16)
        requires
            view_resize_ready(old(self).view, w, h, origin_x, origin_y),
        ensures
            app_resized(old(self).view, final(self).view, w, h, origin_x, origin_y),
    {
        self.view.resize(w, h, origin_x, origin_y);
        let ghost a = self.view;
        self.view.update_lines();
        let ghost b = self.view;
        self.view.refresh();
        assert(view_resized(old(self).view, a, w, h, origin_x, origin_y) && lines_updated(a, b));
    }

    /// Widens the right margin by one column and resizes the view one row shorter, one row
    /// lower.
    fn test(&mut self)
        requires
            app_ready(*old(self), Command::Test),
        ensures
            app_step(*old(self), Command::Test, *final(self)),
    {
        self.view.spec.rm = self.view.spec.rm + 1;
        self.view.spec.calc();
        let ghost b = self.view;
        let w = self.view.spec.w;
        let h = self.view.spec.h;
        let x = self.view.spec.origin_x;
        let y = self.view.spec.origin_y;
        self.resize(w, h - 1, x, y + 1);
        assert(margin_grown(old(self).view, b));
    }

    /// Carries out a command of the keyboard or the mouse.
    pub fn command(&mut self, command: Command)
        requires
            app_ready(*old(self), command),
        ensures
            app_step(*old(self), command, *final(self)),
    {
        match command {
            Command::Mode(m) => {
                self.view.mode = m;
                let ghost b = self.view;
                let cur = self.view.char_current;
                self.view.update_cursor(cur);
                assert(mode_set(old(self).view, b, m));
            },
            Command::Test => {
                self.test();
            },
            Command::MoveCursorX(dx) => {
                let cur = self.view.char_current;
                let (c, x_hint) = self.view.move_cursor_x(cur, dx);
                self.view.cursor.set_x_hint(x_hint as u16);
                let ghost b = self.view;
                self.view.update_cursor(c);
                assert(hint_set(old(self).view, b, x_hint as u16));
            },
            Command::MoveCursorY(dy) => {
                let cur = self.view.char_current;
                let c = self.view.move_cursor_y(cur, dy);
                self.view.update_cursor(c);
            },
            Command::LineNav(x) => {
                let cur = self.view.char_current;
                match self.view.char_to_wrap(cur) {
                    Some(w) => {
                        let c = self.view.line_move(x);
                        let dx = c - w.c0;
                        self.view.cursor.set_x_hint(dx as u16);
                        let ghost b = self.view;
                        self.view.update_cursor(c);
                        assert(hint_set(old(self).view, b, dx as u16));
                    },
                    None => {},
                }
            },
            Command::Line(line) => {
                let c = self.view.jump_to_line(line);
                self.view.update_cursor(c);
            },
            Command::Resize(x, y) => {
                self.resize(x, y, 0, 0);
            },
            Command::Mouse(x, y) => {
                match self.view.char_from_cursor(x, y) {
                    Some(c) => {
                        self.view.update_cursor(c);
                    },
                    None => {},
                }
            },
            _ => self.view.command(command),
        }
    }
}

} // verus!
