use ropey::Rope;
use vstd::prelude::*;

use crate::rope::{line_count, line_start, rope_chars};
use crate::text::buffer::{cut, edited, joined, put, redone, typed, undone, Buffer, BufferState};
use crate::text::command::Command;
use crate::text::search::{
    next_match, prev_match, ranges_view, search_spec, SearchResults, Substring,
};
use crate::tui::cursor::{
    clamp_char, cursor_at, cursor_from_char, cursor_from_line_wrapped, cursor_move_to_lc,
    cursor_move_to_y, cursor_resize, cursor_start, cursor_to_line_relative, cursor_update,
    has_next, has_prev, move_to_lc_target, placed, same_cursor, same_line, walk, wrapped_line,
    Cursor,
};
use crate::tui::display::{block_updated, DrawCommand, RenderBlock, RenderCursor, ViewPos};
use crate::config::BufferConfig;
use crate::tui::format::tui_wrapped;
use crate::tui::lineworker::{lemma_screen_lines, screen_around, LineWorker};
use crate::tui::row::formats_view;
use crate::tui::viewchar::LineFormatType;
use crate::tui::row::RowUpdate;
use crate::tui::viewchar::tab_ok;
use crate::config::spaces;
use crate::strings::{decimal, push_decimal, spaces_string};

verus! {

/// An editing window on a buffer: the buffer, the cursor and the first row shown, the
/// window's size and place, the width of its left margin, the drawn cursor, the margin and
/// text blocks, the rows last laid out, the search results and whether it has the focus.
#[derive(Debug)]
pub struct BufferBlock {
    pub buf: Buffer,
    pub cursor: Cursor,
    pub start: Cursor,
    pub w: usize,
    pub h: usize,
    pub x0: usize,
    pub y0: usize,
    pub prefix: usize,
    pub rc: RenderCursor,
    pub left: RenderBlock,
    pub block: RenderBlock,
    pub cache_render_rows: Vec<Cursor>,
    search_results: SearchResults,
    search_back: bool,
    is_focused: bool,
}

/// A block's drawing steps between saving and restoring the cursor; nothing when it has none.
pub open spec fn framed(p: Seq<DrawCommand>) -> Seq<DrawCommand> {
    if p.len() > 0 {
        seq![DrawCommand::SavePosition] + p + seq![DrawCommand::RestorePosition]
    } else {
        Seq::empty()
    }
}

/// `after` is `before` with `dx` characters after the cursor taken out (before it when
/// negative, down to the start), the cursor where the range started.
pub open spec fn range_removed(before: BufferBlock, after: BufferBlock, dx: i32) -> bool {
    &&& ({
                let c = before.spec_cursor().c as int;
                let start = if dx < 0 {
                    if c + dx < 0 {
                        0
                    } else {
                        c + dx
                    }
                } else {
                    c
                };
                let end = if dx > 0 {
                    c + dx
                } else {
                    c
                };
                let b = before.spec_buf();
                let end0 = if end > b.text.len() {
                    b.text.len() as int
                } else {
                    end
                };
                let b2 = if start < end {
                    if start < end0 {
                        edited(b, cut(b.text, start, end0))
                    } else {
                        b
                    }
                } else {
                    b
                };
                let cur = after.spec_cursor();
                &&& after.spec_buf() == b2
                &&& cursor_at(
                    cur,
                    b2.text,
                    before.spec_block_view().w as int,
                    before.spec_cursor().config,
                    start,
                    cur.r - cur.wrap0 * before.spec_block_view().w,
                )
            })
    &&& after.spec_start() == before.spec_start()
    &&& after.spec_highlight() == before.spec_highlight()
    &&& after.spec_focused() == before.spec_focused()
    &&& after.spec_left() == before.spec_left()
    &&& after.spec_geom() == before.spec_geom()
    &&& after.spec_block_view() == before.spec_block_view()
}

/// `after` is `before` with `ch` typed at the cursor, the cursor after what went in.
pub open spec fn char_typed(before: BufferBlock, after: BufferBlock, ch: char) -> bool {
    &&& ({
                let b = before.spec_buf();
                let c = before.spec_cursor().c as int;
                let t = typed(b.config, ch);
                let b2 = edited(b, put(b.text, c, t));
                let cur = after.spec_cursor();
                &&& after.spec_buf() == b2
                &&& cursor_at(
                    cur,
                    b2.text,
                    before.spec_block_view().w as int,
                    b.config,
                    c + vstd::utf8::encode_utf8(t).len(),
                    cur.r - cur.wrap0 * before.spec_block_view().w,
                )
            })
    &&& after.spec_start() == before.spec_start()
    &&& after.spec_highlight() == before.spec_highlight()
    &&& after.spec_focused() == before.spec_focused()
    &&& after.spec_left() == before.spec_left()
    &&& after.spec_geom() == before.spec_geom()
    &&& after.spec_block_view() == before.spec_block_view()
}

/// `after` is `before` with the cursor at the start of line `line_inx` (counted back from the
/// last line when negative).
pub open spec fn moved_to_line(before: BufferBlock, after: BufferBlock, line_inx: i64) -> bool {
    &&& (cursor_at(
                after.spec_cursor(),
                before.spec_text(),
                before.spec_geom().0 as int,
                before.spec_buf().config,
                line_start(before.spec_text(), wrapped_line(before.spec_text(), line_inx as int)),
                0,
            ))
    &&& (after.spec_buf() == before.spec_buf())
    &&& (after.spec_start() == before.spec_start())
    &&& (after.spec_block_view() == before.spec_block_view())
    &&& (after.spec_highlight() == before.spec_highlight())
    &&& (after.spec_geom() == before.spec_geom())
}

/// `after` is `before` with the cursor at character `dx` of its line (modulo its length).
pub open spec fn moved_in_line(before: BufferBlock, after: BufferBlock, dx: i32) -> bool {
    &&& (({
                let cur = after.spec_cursor();
                cursor_at(
                    cur,
                    before.spec_text(),
                    before.spec_geom().0 as int,
                    before.spec_cursor().config,
                    move_to_lc_target(before.spec_cursor(), dx as int),
                    cur.r - cur.wrap0 * before.spec_geom().0,
                )
            }))
    &&& (after.spec_buf() == before.spec_buf())
    &&& (after.spec_start() == before.spec_start())
    &&& (after.spec_block_view() == before.spec_block_view())
    &&& (after.spec_highlight() == before.spec_highlight())
    &&& (after.spec_geom() == before.spec_geom())
}

/// `after` is `before` with its first row moved `dy` rows down (up when negative), as far as
/// the text goes.
pub open spec fn scrolled(before: BufferBlock, after: BufferBlock, dy: i32) -> bool {
    &&& (dy == 0 ==> same_cursor(after.spec_start(), before.spec_start()))
    &&& (dy != 0 ==> exists|path: Seq<Cursor>|
                {
                    &&& path.len() >= 1
                    &&& same_cursor(path[0], before.spec_start())
                    &&& path.last() == after.spec_start()
                    &&& walk(before.spec_text(), before.spec_geom().0 as int, path, dy > 0)
                    &&& (path.len() - 1 == if dy > 0 {
                        dy as int
                    } else {
                        -dy
                    } || (path.len() - 1 < (if dy > 0 {
                        dy as int
                    } else {
                        -dy
                    }) && if dy > 0 {
                        !has_next(before.spec_text(), path.last())
                    } else {
                        !has_prev(path.last())
                    }))
                })
    &&& (after.spec_buf() == before.spec_buf())
    &&& (after.spec_cursor() == before.spec_cursor())
    &&& (after.spec_geom() == before.spec_geom())
    &&& (after.spec_block_view() == before.spec_block_view())
    &&& (after.spec_highlight() == before.spec_highlight())
    &&& (after.spec_start().config == before.spec_start().config)
}

/// `c` is the cursor on the row shown at screen cell `(mx, my)`, at that column; none outside
/// the text block.
pub open spec fn xy_cursor(before: BufferBlock, mx: usize, my: usize, c: Option<Cursor>) -> bool {
    &&& (({
                let v = before.spec_block_view();
                let rows = before.spec_rows();
                if rows.len() > 0 && mx >= v.x0 && mx < v.w && my >= v.y0 && my < v.y0 + v.h {
                    let cy = my - v.y0;
                    let y = if cy >= rows.len() {
                        rows.len() - 1
                    } else {
                        cy
                    };
                    c matches Some(x) && same_line(rows[y], x) && placed(
                        x,
                        v.w as int,
                        rows[y].wrap0 as int,
                        mx - v.x0,
                    )
                } else {
                    c is None
                }
            }))
}

/// `after` is `before` given a new size and place; the margin shows only when the window is
/// at least ten columns wide, and both cursors are laid out again for the new width.
pub open spec fn block_resized(before: BufferBlock, after: BufferBlock, w: usize, h: usize, x0: usize, y0: usize, prefix: usize) -> bool {
    &&& (after.spec_geom() == (w, h, x0, y0, prefix))
    &&& (after.spec_block_view() == (ViewPos {
                w: (w - if w < 10 { 0 } else { prefix }) as usize,
                h: h,
                x0: (x0 + if w < 10 { 0 } else { prefix }) as usize,
                y0: y0,
            }))
    &&& (cursor_at(
                after.spec_cursor(),
                before.spec_text(),
                w as int,
                before.spec_cursor().config,
                before.spec_cursor().c as int,
                before.spec_cursor().x_hint as int,
            ))
    &&& (cursor_at(
                after.spec_start(),
                before.spec_text(),
                w as int,
                before.spec_start().config,
                before.spec_start().c as int,
                before.spec_start().x_hint as int,
            ))
    &&& (after.spec_buf() == before.spec_buf())
    &&& (after.spec_highlight() == before.spec_highlight())
    &&& (after.spec_focused() == before.spec_focused())
    &&& (after.spec_rows() == before.spec_rows())
}

impl BufferBlock {
    pub closed spec fn spec_buf(&self) -> BufferState {
        self.buf@
    }

    pub open spec fn spec_text(&self) -> Seq<char> {
        self.spec_buf().text
    }

    pub closed spec fn spec_cursor(&self) -> Cursor {
        self.cursor
    }

    pub closed spec fn spec_start(&self) -> Cursor {
        self.start
    }

    /// The window's width, height, origin and margin width.
    pub closed spec fn spec_geom(&self) -> (usize, usize, usize, usize, usize) {
        (self.w, self.h, self.x0, self.y0, self.prefix)
    }

    /// The text block.
    pub closed spec fn spec_block(&self) -> RenderBlock {
        self.block
    }

    /// The margin block.
    pub closed spec fn spec_left(&self) -> RenderBlock {
        self.left
    }

    /// The place of the text block.
    pub closed spec fn spec_block_view(&self) -> ViewPos {
        self.block.spec_view()
    }

    /// The drawing steps that the text block, the margin and the cursor have yet to hand out.
    pub closed spec fn spec_block_pending(&self) -> Seq<DrawCommand> {
        self.block.pending()
    }

    pub closed spec fn spec_left_pending(&self) -> Seq<DrawCommand> {
        self.left.pending()
    }

    pub closed spec fn spec_rc_pending(&self) -> Seq<DrawCommand> {
        self.rc.pending()
    }

    pub closed spec fn spec_rows(&self) -> Seq<Cursor> {
        self.cache_render_rows@
    }

    /// The matches of the last search.
    pub closed spec fn spec_search(&self) -> Seq<Substring> {
        self.search_results@
    }

    /// Whether the last search runs backward.
    pub closed spec fn spec_search_back(&self) -> bool {
        self.search_back
    }

    pub closed spec fn spec_focused(&self) -> bool {
        self.is_focused
    }

    /// A window on `buf`, one column wide, with the cursor and the first row at the start.
    pub fn new(buf: Buffer) -> (b: Self)
        requires
            tab_ok(buf@.config),
        ensures
            b.spec_buf() == buf@,
            cursor_at(b.spec_cursor(), buf@.text, 1, buf@.config, 0, 0),
            cursor_at(b.spec_start(), buf@.text, 1, buf@.config, 0, 0),
            b.spec_geom() == (1usize, 0usize, 0usize, 0usize, 0usize),
            b.spec_rows().len() == 0,
            !b.spec_focused(),
    {
        let config = buf.get_config();
        let text = buf.get_text();
        let zero = ViewPos { w: 0, h: 0, x0: 0, y0: 0 };
        Self {
            left: RenderBlock::new(zero),
            block: RenderBlock::new(zero),
            cache_render_rows: Vec::new(),
            search_results: SearchResults::default(),
            search_back: false,
            start: cursor_start(&text, 1, &config),
            cursor: cursor_start(&text, 1, &config),
            w: 1,
            h: 0,
            x0: 0,
            y0: 0,
            prefix: 0,
            rc: RenderCursor::default(),
            buf,
            is_focused: false,
        }
    }

    /// The rows laid out by the last update.
    pub fn rendered_rows(&self) -> (r: &Vec<Cursor>)
        ensures
            r@ == self.spec_rows(),
    {
        &self.cache_render_rows
    }

    /// A copy of the text.
    pub fn get_text(&self) -> (t: Rope)
        ensures
            rope_chars(t) == self.spec_text(),
    {
        self.buf.get_text()
    }

    /// Replaces the whole text.
    pub fn replace_text(&mut self, s: &str) -> (r: &mut Self)
        ensures
            (*r).spec_buf() == edited(old(self).spec_buf(), s@),
            (*r).spec_cursor() == old(self).spec_cursor(),
            (*r).spec_geom() == old(self).spec_geom(),
            *final(self) == *final(r),
    {
        self.buf.replace_text(s);
        self
    }

    /// Gives the buffer the path `s`.
    pub fn set_path(&mut self, s: &str) -> (r: &mut Self)
        ensures
            path_set(*old(self), *r, s@),
            *final(self) == *final(r),
    {
        self.buf.set_path(s);
        self
    }

    pub fn get_path(&self) -> (p: String)
        ensures
            p@ == self.spec_buf().path,
    {
        self.buf.get_path()
    }

    pub fn set_focus(&mut self, f: bool) -> (r: &mut Self)
        ensures
            (*r).spec_focused() == f,
            (*r).spec_buf() == old(self).spec_buf(),
            (*r).spec_left() == old(self).spec_left(),
            (*r).spec_block() == old(self).spec_block(),
            (*r).spec_cursor() == old(self).spec_cursor(),
            (*r).spec_start() == old(self).spec_start(),
            (*r).spec_geom() == old(self).spec_geom(),
            (*r).spec_block_view() == old(self).spec_block_view(),
            (*r).spec_highlight() == old(self).spec_highlight(),
            (*r).spec_rows() == old(self).spec_rows(),
            *final(self) == *final(r),
    {
        self.is_focused = f;
        self
    }

    /// Hands the rows to the text block.
    pub fn update_rows(&mut self, rows: Vec<RowUpdate>) -> (r: &mut Self)
        requires
            old(self).spec_block_view().y0 + rows@.len() <= usize::MAX,
        ensures
            block_updated(old(self).spec_block(), (*r).spec_block(), rows@),
            (*r).spec_buf() == old(self).spec_buf(),
            (*r).spec_left() == old(self).spec_left(),
            (*r).spec_block_view() == old(self).spec_block_view(),
            (*r).spec_highlight() == old(self).spec_highlight(),
            (*r).spec_cursor() == old(self).spec_cursor(),
            (*r).spec_start() == old(self).spec_start(),
            (*r).spec_geom() == old(self).spec_geom(),
            (*r).spec_rows() == old(self).spec_rows(),
            (*r).spec_left_pending() == old(self).spec_left_pending(),
            (*r).spec_rc_pending() == old(self).spec_rc_pending(),
            (*r).spec_focused() == old(self).spec_focused(),
            *final(self) == *final(r),
    {
        self.block.update_rows(rows);
        self
    }

    /// Forgets what the blocks show, so that all is drawn again.
    pub fn clear(&mut self) -> (r: &mut Self)
        ensures
            (*r).spec_buf() == old(self).spec_buf(),
            (*r).spec_cursor() == old(self).spec_cursor(),
            (*r).spec_start() == old(self).spec_start(),
            (*r).spec_geom() == old(self).spec_geom(),
            (*r).spec_block_view() == old(self).spec_block_view(),
            (*r).spec_focused() == old(self).spec_focused(),
            (*r).spec_rows() == old(self).spec_rows(),
            (*r).spec_block().spec_rows().len() == 0,
            (*r).spec_block().spec_view() == old(self).spec_block().spec_view(),
            (*r).spec_block().spec_highlight() == old(self).spec_block().spec_highlight(),
            (*r).spec_highlight() == old(self).spec_highlight(),
            (*r).spec_block_pending() == old(self).spec_block_pending(),
            (*r).spec_left().spec_rows().len() == 0,
            (*r).spec_left().spec_view() == old(self).spec_left().spec_view(),
            (*r).spec_left().spec_highlight() == old(self).spec_left().spec_highlight(),
            (*r).spec_left_pending() == old(self).spec_left_pending(),
            (*r).spec_rc_pos() == old(self).spec_rc_pos(),
            (*r).spec_rc_pending() == seq![
                DrawCommand::Cursor(old(self).spec_rc_pos().0 as u16, old(self).spec_rc_pos().1 as u16),
            ],
            *final(self) == *final(r),
    {
        self.block.clear();
        self.left.clear();
        self.rc.clear();
        self
    }

    /// The drawing steps of the text block, then of the margin, then, with the focus, the
    /// cursor moves.
    pub fn generate_commands(&mut self) -> (v: Vec<DrawCommand>)
        ensures
            v@ == framed(old(self).spec_block_pending()) + framed(old(self).spec_left_pending()) + if old(
                self,
            ).spec_focused() {
                old(self).spec_rc_pending()
            } else {
                Seq::empty()
            },
            final(self).spec_buf() == old(self).spec_buf(),
            final(self).spec_cursor() == old(self).spec_cursor(),
    {
        let mut out: Vec<DrawCommand> = Vec::new();
        let mut b = self.block.generate_commands();
        out.append(&mut b);
        let mut l = self.left.generate_commands();
        out.append(&mut l);
        if self.is_focused {
            let mut c = self.rc.generate_commands();
            out.append(&mut c);
        }
        out
    }

    /// Gives the window a new size and place; the margin shows only when the window is at
    /// least ten columns wide. The cursors are laid out again for the new width.
    pub fn resize(&mut self, w: usize, h: usize, x0: usize, y0: usize, prefix: usize) -> (r: &mut Self)
        requires
            w > 0,
            w >= 10 ==> prefix <= w,
            x0 + prefix <= usize::MAX,
            tab_ok(old(self).spec_cursor().config),
            tab_ok(old(self).spec_start().config),
        ensures
            block_resized(*old(self), *r, w, h, x0, y0, prefix),
            *final(self) == *final(r),
    {
        self.w = w;
        self.h = h;
        self.x0 = x0;
        self.y0 = y0;
        self.prefix = prefix;
        let p = if w < 10 {
            0
        } else {
            prefix
        };
        self.left.resize(ViewPos { w: p, h: h, x0: x0, y0: y0 });
        self.block.resize(ViewPos { w: w - p, h: h, x0: x0 + p, y0: y0 });
        let text = self.buf.get_text();
        self.cursor = cursor_resize(&text, w, &self.cursor);
        self.start = cursor_resize(&text, w, &self.start);
        self.clear();
        self
    }

    /// Takes out `dx` characters after the cursor (before it when negative, down to the
    /// start); the cursor goes to where the range started, with its column as its hint.
    pub fn remove_range(&mut self, dx: i32) -> (r: &mut Self)
        requires
            old(self).spec_cursor().c <= i32::MAX,
            old(self).spec_cursor().c + dx <= i32::MAX,
            old(self).spec_block_view().w > 0,
            tab_ok(old(self).spec_cursor().config),
        ensures
            range_removed(*old(self), *r, dx),
            (*r).spec_geom() == old(self).spec_geom(),
            (*r).spec_block_view() == old(self).spec_block_view(),
            *final(self) == *final(r),
    {
        let mut start: i32 = self.cursor.c as i32;
        let mut end: i32 = self.cursor.c as i32;
        let sx = self.block.get_view().w;
        if dx < 0 {
            start += dx;
            if start < 0 {
                start = 0;
            }
        } else if dx > 0 {
            end += dx;
        }
        if start < end {
            self.buf.remove_range(start as usize, end as usize);
        }
        let text = self.buf.get_text();
        let c = cursor_from_char(&text, sx, &self.cursor.config, start as usize, 0);
        proof {
            lemma_row_start_le(c.r as int, sx as int);
        }
        self.cursor = c.save_x_hint(sx);
        self
    }

    /// Types `ch` at the cursor (a tab puts in the indentation, a line end the separator);
    /// the cursor moves on by the number of bytes that went in.
    pub fn insert_char(&mut self, ch: char) -> (r: &mut Self)
        requires
            old(self).spec_cursor().c <= old(self).spec_text().len(),
            old(self).spec_cursor().c + 1020 <= usize::MAX,
            old(self).spec_block_view().w > 0,
            tab_ok(old(self).spec_buf().config),
        ensures
            char_typed(*old(self), *r, ch),
            (*r).spec_geom() == old(self).spec_geom(),
            (*r).spec_block_view() == old(self).spec_block_view(),
            *final(self) == *final(r),
    {
        let length = self.buf.insert_char(self.cursor.c, ch);
        proof {
            crate::text::format::lemma_encode_utf8_len(typed(old(self).buf@.config, ch));
        }
        let text = self.buf.get_text();
        let config = self.buf.get_config();
        let sx = self.block.get_view().w;
        let c = cursor_from_char(&text, sx, &config, self.cursor.c + length, 0);
        proof {
            lemma_row_start_le(c.r as int, sx as int);
        }
        self.cursor = c.save_x_hint(sx);
        self
    }

    /// Takes out the character before the cursor, which moves back onto it; no change at
    /// the start.
    pub fn remove_char(&mut self) -> (r: &mut Self)
        requires
            old(self).spec_cursor().c <= old(self).spec_text().len(),
            old(self).spec_geom().0 > 0,
            tab_ok(old(self).spec_buf().config),
        ensures
            ({
                let b = old(self).spec_buf();
                let c = old(self).spec_cursor().c as int;
                let cur = (*r).spec_cursor();
                if c > 0 {
                    &&& (*r).spec_buf() == edited(b, cut(b.text, c - 1, c))
                    &&& cursor_at(
                        cur,
                        cut(b.text, c - 1, c),
                        old(self).spec_geom().0 as int,
                        b.config,
                        c - 1,
                        cur.r - cur.wrap0 * old(self).spec_geom().0,
                    )
                } else {
                    &&& (*r).spec_buf() == b
                    &&& cur == old(self).spec_cursor()
                }
            }),
            (*r).spec_geom() == old(self).spec_geom(),
            *final(self) == *final(r),
    {
        let c = self.cursor.c;
        if c > 0 {
            self.buf.remove_char(c);
            let text = self.buf.get_text();
            let config = self.buf.get_config();
            let nc = cursor_from_char(&text, self.w, &config, c - 1, 0);
            proof {
                lemma_row_start_le(nc.r as int, self.w as int);
            }
            self.cursor = nc.save_x_hint(self.w);
        }
        self
    }

    /// Moves the first row shown `dy` rows down (up when negative).
    pub fn scroll(&mut self, dy: i32) -> (r: &mut Self)
        requires
            old(self).spec_geom().0 > 0,
            tab_ok(old(self).spec_start().config),
            old(self).spec_start().line_inx <= line_count(old(self).spec_text()),
        ensures
            scrolled(*old(self), *r, dy),
            *final(self) == *final(r),
    {
        let text = self.get_text();
        let ghost st0 = self.start;
        self.start = cursor_move_to_y(&text, self.w, &self.start, dy);
        proof {
            if dy != 0 {
                let path = choose|path: Seq<Cursor>|
                    {
                        &&& path.len() >= 1
                        &&& same_cursor(path[0], st0)
                        &&& path.last() == self.start
                        &&& walk(rope_chars(text), self.w as int, path, dy > 0)
                        &&& (path.len() - 1 == if dy > 0 {
                            dy as int
                        } else {
                            -dy
                        } || (path.len() - 1 < (if dy > 0 {
                            dy as int
                        } else {
                            -dy
                        }) && if dy > 0 {
                            !has_next(rope_chars(text), path.last())
                        } else {
                            !has_prev(path.last())
                        }))
                    };
                crate::tui::cursor::lemma_walk_config(
                    rope_chars(text),
                    self.w as int,
                    path,
                    dy > 0,
                    path.len() - 1,
                );
            }
        }
        self
    }

    /// The cursor on the row shown at screen cell `(mx, my)`, at that column; none outside
    /// the text block.
    pub fn cursor_from_xy(&self, mx: usize, my: usize) -> (c: Option<Cursor>)
        requires
            self.spec_block_view().y0 + self.spec_block_view().h <= usize::MAX,
            self.spec_block_view().w > 0,
        ensures
            xy_cursor(*self, mx, my, c),
    {
        let v = self.block.get_view();
        let x0 = v.x0;
        let y0 = v.y0;
        let y1 = y0 + v.h;
        let w = v.w;
        let text = self.buf.get_text();
        let rows = &self.cache_render_rows;
        if rows.len() > 0 && mx >= x0 && mx < w && my >= y0 && my < y1 {
            let cx = mx - x0;
            let cy = my - y0;
            let mut y = cy;
            if cy >= rows.len() {
                y = rows.len() - 1;
            }
            let c = &rows[y];
            Some(cursor_to_line_relative(&text, w, c, c.wrap0, cx))
        } else {
            None
        }
    }

    /// Moves the cursor to the start of line `line_inx`, counted back from the last line
    /// when negative.
    pub fn cursor_move_line(&mut self, line_inx: i64) -> (r: &mut Self)
        requires
            old(self).spec_geom().0 > 0,
            tab_ok(old(self).spec_buf().config),
            line_inx > i64::MIN,
            line_inx < 0 ==> -line_inx <= line_count(old(self).spec_text()) - 1,
            line_inx >= 0 ==> line_inx <= line_count(old(self).spec_text()),
        ensures
            moved_to_line(*old(self), *r, line_inx),
            *final(self) == *final(r),
    {
        let text = self.buf.get_text();
        let config = self.buf.get_config();
        self.cursor = cursor_from_line_wrapped(&text, self.w, &config, line_inx);
        self
    }

    /// Moves the cursor to character `dx` of its line (modulo the line's length), with its
    /// column as its hint.
    pub fn cursor_move_lc(&mut self, dx: i32) -> (r: &mut Self)
        requires
            old(self).spec_geom().0 > 0,
            tab_ok(old(self).spec_cursor().config),
            0 < old(self).spec_cursor().line_len <= i32::MAX,
            old(self).spec_cursor().lc0 + old(self).spec_cursor().line_len <= usize::MAX,
        ensures
            moved_in_line(*old(self), *r, dx),
            *final(self) == *final(r),
    {
        let text = self.buf.get_text();
        let c = cursor_move_to_lc(&text, self.w, &self.cursor, dx);
        proof {
            lemma_row_start_le(c.r as int, self.w as int);
        }
        self.cursor = c.save_x_hint(self.w);
        self
    }

    /// Puts the cursor at `cursor`, as it is.
    pub fn cursor_move(&mut self, cursor: Cursor) -> (r: &mut Self)
        ensures
            (*r).spec_cursor() == cursor,
            (*r).spec_buf() == old(self).spec_buf(),
            (*r).spec_start() == old(self).spec_start(),
            (*r).spec_geom() == old(self).spec_geom(),
            (*r).spec_block_view() == old(self).spec_block_view(),
            (*r).spec_highlight() == old(self).spec_highlight(),
            (*r).spec_rows() == old(self).spec_rows(),
            *final(self) == *final(r),
    {
        self.cursor = cursor;
        self
    }

    /// Goes forward to the text before the most recent undo.
    pub fn redo(&mut self) -> (r: &mut Self)
        ensures
            (*r).spec_buf() == redone(old(self).spec_buf()),
            (*r).spec_cursor() == old(self).spec_cursor(),
            *final(self) == *final(r),
    {
        self.buf.redo();
        self
    }

    /// Goes back to the text before the most recent change.
    pub fn undo(&mut self) -> (r: &mut Self)
        ensures
            (*r).spec_buf() == undone(old(self).spec_buf()),
            (*r).spec_cursor() == old(self).spec_cursor(),
            *final(self) == *final(r),
    {
        self.buf.undo();
        self
    }

    /// Starts over with an empty buffer, the cursor and the first row at its start.
    pub fn reset_buffer(&mut self) -> (r: &mut Self)
        requires
            old(self).spec_geom().0 > 0,
        ensures
            (*r).spec_buf().text.len() == 0,
            (*r).spec_buf().path.len() == 0,
            (*r).spec_buf().undo.len() == 0,
            (*r).spec_buf().redo.len() == 0,
            cursor_at((*r).spec_cursor(), Seq::empty(), old(self).spec_geom().0 as int, (*r).spec_buf().config, 0, 0),
            cursor_at((*r).spec_start(), Seq::empty(), old(self).spec_geom().0 as int, (*r).spec_buf().config, 0, 0),
            (*r).spec_buf().config == BufferConfig::spec_default(),
            (*r).spec_geom() == old(self).spec_geom(),
            (*r).spec_left().spec_view() == old(self).spec_left().spec_view(),
            (*r).spec_block_view() == old(self).spec_block_view(),
            (*r).spec_highlight() == old(self).spec_highlight(),
            (*r).spec_focused() == old(self).spec_focused(),
            *final(self) == *final(r),
    {
        let buf = Buffer::from_string(&String::new());
        let text = buf.get_text();
        let config = buf.get_config();
        self.start = cursor_start(&text, self.w, &config);
        self.cursor = cursor_start(&text, self.w, &config);
        self.buf = buf;
        self.clear();
        self
    }
}

/// A row's first column is not past the cursor's column.
proof fn lemma_row_start_le(r: int, sx: int)
    requires
        r >= 0,
        sx > 0,
    ensures
        (r / sx) * sx <= r,
{
    assert((r / sx) * sx <= r) by (nonlinear_arith)
        requires
            r >= 0,
            sx > 0,
    ;
}

/// Where the cursor is drawn among the rows laid out: on the first row when it is before
/// them, on the last row when it is past them, else on the last row of its line and row
/// number (the first when there is none); with that row's index.
pub open spec fn locate_spec(cur: Cursor, rows: Seq<Cursor>, x0: usize, y0: usize) -> (u16, u16, int) {
    let end = rows.len() - 1;
    if cur.line_inx < rows[0].line_inx || (cur.line_inx == rows[0].line_inx && cur.c < rows[0].c) {
        (0, 0, 0)
    } else if cur.c >= rows[end].lc1 {
        (0, end as u16, end)
    } else {
        let ry = last_row_of(cur, rows, rows.len() as int);
        (x0 as u16, (ry + y0) as u16, ry)
    }
}

/// The last of the first `n` rows on the cursor's line and row number, or zero.
pub open spec fn last_row_of(cur: Cursor, rows: Seq<Cursor>, n: int) -> int
    decreases n,
{
    if n <= 0 {
        0
    } else if rows[n - 1].line_inx == cur.line_inx && rows[n - 1].wrap0 == cur.wrap0 {
        n - 1
    } else {
        last_row_of(cur, rows, n - 1)
    }
}

proof fn lemma_last_row_bounds(cur: Cursor, rows: Seq<Cursor>, n: int)
    requires
        0 <= n <= rows.len(),
        rows.len() > 0,
    ensures
        0 <= last_row_of(cur, rows, n) < rows.len(),
        n > 0 ==> last_row_of(cur, rows, n) < n,
    decreases n,
{
    if n > 0 {
        lemma_last_row_bounds(cur, rows, n - 1);
    }
}

/// `after` is `before` with the cursor's line joined with the next one, the cursor laid out
/// again at its place.
pub open spec fn line_joined(before: BufferBlock, after: BufferBlock) -> bool {
    &&& (({
                let s = before.spec_text();
                let c = clamp_char(s, before.spec_cursor().c as int);
                let b2 = joined(before.spec_buf(), crate::rope::breaks_before(s, c) as int);
                &&& after.spec_buf() == b2
                &&& cursor_at(
                    after.spec_cursor(),
                    b2.text,
                    before.spec_geom().0 as int,
                    before.spec_cursor().config,
                    c,
                    before.spec_cursor().x_hint as int,
                )
            }))
    &&& (after.spec_geom() == before.spec_geom())
    &&& (after.spec_start() == before.spec_start())
    &&& (after.spec_block_view() == before.spec_block_view())
    &&& (after.spec_highlight() == before.spec_highlight())
    &&& (after.spec_text().len() <= before.spec_text().len())
}

/// `after` is `before` laid out from its first row, with the cursor put on the rows.
pub open spec fn laid_out_from_start(before: BufferBlock, after: BufferBlock) -> bool {
    &&& (({
                let s = before.spec_text();
                let rows = after.spec_rows();
                let (cx, cy, i) = locate_spec(before.spec_cursor(), rows, before.spec_block_view().x0, before.spec_block_view().y0);
                &&& rows.len() >= 1
                &&& same_cursor(rows[0], before.spec_start())
                &&& walk(s, before.spec_geom().0 as int, rows, true)
                &&& rows.len() <= if before.spec_geom().1 > 1 { before.spec_geom().1 as int } else { 1 }
                &&& rows.len() < before.spec_geom().1 ==> !has_next(s, rows.last())
                &&& 0 <= i < rows.len()
                &&& same_cursor(after.spec_cursor(), rows[i])
            }))
    &&& (after.spec_buf() == before.spec_buf())
    &&& (after.spec_geom() == before.spec_geom())
}

impl BufferBlock {
    /// Where the cursor is drawn among `rows`, and the row it is drawn on.
    pub fn locate_cursor_pos_in_window(&self, rows: &Vec<Cursor>) -> (r: (u16, u16, Cursor))
        requires
            rows@.len() > 0,
            self.spec_block_view().y0 + rows@.len() <= usize::MAX,
        ensures
            ({
                let (cx, cy, i) = locate_spec(self.spec_cursor(), rows@, self.spec_block_view().x0, self.spec_block_view().y0);
                &&& r.0 == cx
                &&& r.1 == cy
                &&& 0 <= i < rows@.len()
                &&& same_cursor(r.2, rows@[i])
            }),
    {
        let end = rows.len() - 1;
        if self.cursor < rows[0] {
            (0, 0, rows[0].clone())
        } else if self.cursor.c >= rows[end].lc1 {
            (0, #[verifier::truncate] (end as u16), rows[end].clone())
        } else {
            let mut ry: usize = 0;
            let mut i: usize = 0;
            while i < rows.len()
                invariant
                    i <= rows@.len(),
                    rows@.len() > 0,
                    ry == last_row_of(self.cursor, rows@, i as int),
                decreases rows@.len() - i,
            {
                if self.cursor.line_inx == rows[i].line_inx && self.cursor.wrap0 == rows[i].wrap0 {
                    ry = i;
                }
                i = i + 1;
            }
            proof {
                lemma_last_row_bounds(self.cursor, rows@, rows@.len() as int);
            }
            let v = self.block.get_view();
            (#[verifier::truncate] (v.x0 as u16), #[verifier::truncate] ((ry + v.y0) as u16), rows[ry].clone())
        }
    }

    /// Joins the cursor's line with the next; the cursor stays at its position.
    pub fn join_line(&mut self) -> (r: &mut Self)
        requires
            old(self).spec_geom().0 > 0,
            tab_ok(old(self).spec_cursor().config),
        ensures
            line_joined(*old(self), *r),
            *final(self) == *final(r),
    {
        let text = self.buf.get_text();
        let cursor = cursor_update(&text, self.w, &self.cursor);
        self.buf.join_line(cursor.line_inx);
        proof {
            let s0 = old(self).spec_text();
            let l = cursor.line_inx as int;
            crate::rope::lemma_line_start_bounded(s0, l);
            crate::rope::lemma_line_start_bounded(s0, l + 1);
            crate::rope::lemma_line_start_monotone(s0, l, l + 1);
        }
        let text = self.buf.get_text();
        self.cursor = cursor_update(&text, self.w, &cursor);
        self
    }

    /// Lays out the rows from the first row shown, and puts the cursor on them.
    pub fn update_from_start(&mut self) -> (r: &mut Self)
        requires
            old(self).spec_geom().0 > 0,
            tab_ok(old(self).spec_start().config),
            old(self).spec_block_view().y0 + old(self).spec_geom().1 + 1 <= usize::MAX,
        ensures
            laid_out_from_start(*old(self), *r),
            *final(self) == *final(r),
    {
        let text = self.buf.get_text();
        let rows = LineWorker::screen_from_start(&text, self.w, self.h, &self.start, &self.cursor);
        let (cx, cy, cursor) = self.locate_cursor_pos_in_window(&rows);
        self.rc.update(cx as usize, cy as usize);
        self.cursor = cursor;
        self.cache_render_rows = rows;
        self
    }
}

/// The runs that a row shows: those of its line's row at width `sx`, or none past them.
pub open spec fn row_formats(c: Cursor, config: BufferConfig, sx: int, h: Seq<char>) -> Seq<(LineFormatType, Seq<char>)> {
    let rows = tui_wrapped(c.line@, sx, h, config);
    if c.wrap0 < rows.len() {
        rows[c.wrap0 as int]
    } else {
        Seq::empty()
    }
}

/// `after` is `before` laid out again: both cursors are laid out for the text (the cursor at
/// its place and hint, the first row at its own), the rows around the cursor fill the screen,
/// the first row shown is the first row laid out, the drawn cursor sits on the cursor, and the
/// text block shows the rows' runs, with empty rows below the text.
pub open spec fn laid_out(before: BufferBlock, after: BufferBlock) -> bool {
    ({
                let s = before.spec_text();
                let w = before.spec_geom().0 as int;
                let h = before.spec_geom().1 as int;
                let rows = after.spec_rows();
                let cur = after.spec_cursor();
                &&& cursor_at(cur, s, w, before.spec_cursor().config, before.spec_cursor().c as int, before.spec_cursor().x_hint as int)
                &&& exists|st: Cursor, rx: u16, ry: u16| {
                    &&& cursor_at(st, s, w, before.spec_start().config, before.spec_start().c as int, before.spec_start().x_hint as int)
                    &&& screen_around(s, w, h, st, cur, rx, ry, rows)
                    &&& after.spec_rc_pos() == ((before.spec_block_view().x0 + rx) as usize, (before.spec_block_view().y0 + ry) as usize)
                }
                &&& same_cursor(after.spec_start(), rows[0])
                &&& after.spec_block_rows().len() == if rows.len() < h { h } else { rows.len() as int }
                &&& forall|i: int| 0 <= i < after.spec_block_rows().len() ==> #[trigger] after.spec_block_rows()[i] == if i < rows.len() {
                    row_formats(rows[i], before.spec_buf().config, w, before.spec_highlight())
                } else {
                    Seq::empty()
                }
            })
}

impl BufferBlock {
    /// The shown rows of the text block, as runs.
    pub closed spec fn spec_block_rows(&self) -> Seq<Seq<(LineFormatType, Seq<char>)>> {
        self.block.spec_rows().map_values(|r: RowUpdate| formats_view(r.formats@))
    }

    /// The drawn cursor's position.
    pub closed spec fn spec_rc_pos(&self) -> (usize, usize) {
        self.rc.spec_pos()
    }

    /// The text the block highlights.
    pub closed spec fn spec_highlight(&self) -> Seq<char> {
        self.block.spec_highlight()
    }

    /// Lays out the screen around the cursor (both cursors are first laid out again for the
    /// text), moves the first row shown to the first row laid out, moves the drawn cursor,
    /// and hands the rows to the text block (empty rows below the text).
    pub fn update(&mut self) -> (r: &mut Self)
        requires
            old(self).spec_geom().0 > 0,
            old(self).spec_geom().1 <= 65536,
            tab_ok(old(self).spec_cursor().config),
            tab_ok(old(self).spec_start().config),
            tab_ok(old(self).spec_buf().config),
            4 * old(self).spec_text().len() <= i32::MAX,
            vstd::utf8::encode_utf8(old(self).spec_highlight()).len() <= i32::MAX,
            old(self).spec_block_view().x0 + 65536 <= usize::MAX,
            old(self).spec_block_view().y0 + 65536 <= usize::MAX,
        ensures
            ({
                let s = old(self).spec_text();
                let w = old(self).spec_geom().0 as int;
                let h = old(self).spec_geom().1 as int;
                let rows = (*r).spec_rows();
                let cur = (*r).spec_cursor();
                &&& cursor_at(cur, s, w, old(self).spec_cursor().config, old(self).spec_cursor().c as int, old(self).spec_cursor().x_hint as int)
                &&& exists|st: Cursor, rx: u16, ry: u16| {
                    &&& cursor_at(st, s, w, old(self).spec_start().config, old(self).spec_start().c as int, old(self).spec_start().x_hint as int)
                    &&& screen_around(s, w, h, st, cur, rx, ry, rows)
                    &&& (*r).spec_rc_pos() == ((old(self).spec_block_view().x0 + rx) as usize, (old(self).spec_block_view().y0 + ry) as usize)
                }
                &&& same_cursor((*r).spec_start(), rows[0])
                &&& (*r).spec_block_rows().len() == if rows.len() < h { h } else { rows.len() as int }
                &&& forall|i: int| 0 <= i < (*r).spec_block_rows().len() ==> #[trigger] (*r).spec_block_rows()[i] == if i < rows.len() {
                    row_formats(rows[i], old(self).spec_buf().config, w, old(self).spec_highlight())
                } else {
                    Seq::empty()
                }
            }),
            (*r).spec_buf() == old(self).spec_buf(),
            (*r).spec_geom() == old(self).spec_geom(),
            (*r).spec_block_view() == old(self).spec_block_view(),
            (*r).spec_cursor().config == old(self).spec_cursor().config,
            (*r).spec_start().config == old(self).spec_cursor().config,
            (*r).spec_left() == old(self).spec_left(),
            (*r).spec_highlight() == old(self).spec_highlight(),
            (*r).spec_focused() == old(self).spec_focused(),
            *final(self) == *final(r),
    {
        let ghost s = self.buf@.text;
        let text = self.buf.get_text();
        let config = self.buf.get_config();
        self.start = cursor_update(&text, self.w, &self.start);
        self.cursor = cursor_update(&text, self.w, &self.cursor);
        proof {
            lemma_row_start_le(self.cursor.r as int, self.w as int);
        }
        let ghost st = self.start;
        let (cx, cy, rows) = LineWorker::screen_from_cursor(&text, self.w, self.h, &self.start, &self.cursor);
        proof {
            lemma_screen_lines(s, self.w as int, self.h as int, st, self.cursor, cx, cy, rows@, self.cursor.config);
            assert forall|j: int| 0 <= j < rows@.len() implies (#[trigger] rows@[j]).lc0 <= rows@[j].lc1 <= s.len() by {
                let l = rows@[j].line_inx as int;
                crate::rope::lemma_line_start_bounded(s, l);
                crate::rope::lemma_line_start_bounded(s, l + 1);
                crate::rope::lemma_line_start_monotone(s, l, l + 1);
            }
        }
        proof {
            crate::tui::cursor::lemma_rows_config(s, self.w as int, rows@, cy as int, 0);
        }
        self.start = rows[0].clone();
        let v = self.block.get_view();
        self.rc.update(v.x0 + cx as usize, v.y0 + cy as usize);
        let highlight = self.block.get_highlight();
        let updates = row_updates(&rows, &config, self.w, self.h, &highlight, Ghost(s));
        self.block.update_rows(updates);
        self.cache_render_rows = rows;
        self
    }
}

/// The rows to hand to a block: the runs of each laid out row, then empty rows up to `h`.
fn row_updates(
    rows: &Vec<Cursor>,
    config: &BufferConfig,
    w: usize,
    h: usize,
    highlight: &String,
    Ghost(s): Ghost<Seq<char>>,
) -> (updates: Vec<RowUpdate>)
    requires
        rows@.len() <= 65536,
        h <= 65536,
        forall|j: int| 0 <= j < rows@.len() ==> (#[trigger] rows@[j]).line@ == s.subrange(rows@[j].lc0 as int, rows@[j].lc1 as int),
        forall|j: int| 0 <= j < rows@.len() ==> (#[trigger] rows@[j]).lc0 <= rows@[j].lc1 <= s.len(),
        4 * s.len() <= i32::MAX,
        vstd::utf8::encode_utf8(highlight@).len() <= i32::MAX,
        tab_ok(*config),
    ensures
        updates@.len() == if rows@.len() < h { h as int } else { rows@.len() as int },
        forall|j: int| 0 <= j < updates@.len() ==> formats_view((#[trigger] updates@[j]).formats@) == if j < rows@.len() {
            row_formats(rows@[j], *config, w as int, highlight@)
        } else {
            Seq::empty()
        },
{
    let mut updates: Vec<RowUpdate> = Vec::new();
    let mut i: usize = 0;
    while i < rows.len()
        invariant
            i <= rows@.len(),
            updates@.len() == i,
            rows@.len() <= 65536,
            forall|j: int| 0 <= j < rows@.len() ==> (#[trigger] rows@[j]).line@ == s.subrange(rows@[j].lc0 as int, rows@[j].lc1 as int),
            forall|j: int| 0 <= j < rows@.len() ==> (#[trigger] rows@[j]).lc0 <= rows@[j].lc1 <= s.len(),
            4 * s.len() <= i32::MAX,
            vstd::utf8::encode_utf8(highlight@).len() <= i32::MAX,
            tab_ok(*config),
            forall|j: int| 0 <= j < i ==> formats_view((#[trigger] updates@[j]).formats@) == row_formats(rows@[j], *config, w as int, highlight@),
        decreases rows@.len() - i,
    {
        proof {
            lemma_line_bytes(s, rows@[i as int].lc0 as int, rows@[i as int].lc1 as int);
        }
        let f = rows[i].to_line_format(config, w, highlight.clone());
        updates.push(RowUpdate::from_formats(f));
        i = i + 1;
    }
    while updates.len() < h
        invariant
            updates@.len() >= rows@.len(),
            forall|j: int| 0 <= j < rows@.len() ==> formats_view((#[trigger] updates@[j]).formats@) == row_formats(rows@[j], *config, w as int, highlight@),
            forall|j: int| rows@.len() <= j < updates@.len() ==> (#[trigger] updates@[j]).formats@.len() == 0,
            updates@.len() <= if rows@.len() < h { h as int } else { rows@.len() as int },
        decreases h - updates@.len(),
    {
        updates.push(RowUpdate::default());
    }
    proof {
        assert forall|j: int| 0 <= j < updates@.len() implies formats_view((#[trigger] updates@[j]).formats@) == if j < rows@.len() {
            row_formats(rows@[j], *config, w as int, highlight@)
        } else {
            Seq::empty()
        } by {
            if j >= rows@.len() {
                assert(formats_view(updates@[j].formats@) =~= Seq::empty());
            }
        }
    }
    updates
}

/// A stretch of a text takes at most four bytes for each character.
proof fn lemma_line_bytes(s: Seq<char>, a: int, b: int)
    requires
        0 <= a <= b <= s.len(),
    ensures
        vstd::utf8::encode_utf8(s.subrange(a, b)).len() <= 4 * s.len(),
{
    crate::text::format::lemma_encode_utf8_len(s.subrange(a, b));
}

/// The status row: the drawn cursor's place, the cursor's column hint and summary, the path,
/// the text block's place and size, then `width` blanks.
pub open spec fn status_text(
    cx: usize,
    cy: usize,
    x_hint: usize,
    summary: Seq<char>,
    path: Seq<char>,
    geom: (usize, usize, usize, usize),
    width: usize,
) -> Seq<char> {
    "DEBUG: ["@ + decimal(cx as nat) + ","@ + decimal(cy as nat) + "] xh:"@ + decimal(
        x_hint as nat,
    ) + " S:"@ + summary + " "@ + path + " ("@ + decimal(geom.0 as nat) + ", "@ + decimal(
        geom.1 as nat,
    ) + ", "@ + decimal(geom.2 as nat) + ", "@ + decimal(geom.3 as nat) + ")"@ + spaces(
        width as nat,
    )
}

impl BufferBlock {
    /// The text of a status row `width` blanks wider than its account of the block: the drawn
    /// cursor's place, the cursor's hint and short account, the path and the block's place and
    /// size; nothing when the cursor's account cannot be counted.
    pub fn status_line(&self, width: usize) -> (s: Option<String>)
        ensures
            s matches Some(t) ==> t@ == status_text(
                self.spec_rc_pos().0,
                self.spec_rc_pos().1,
                self.spec_cursor().x_hint,
                self.spec_cursor().summary(),
                self.spec_buf().path,
                (self.spec_geom().0, self.spec_geom().1, self.spec_geom().2, self.spec_geom().3),
                width,
            ),
            s is None <==> !self.spec_cursor().summary_ok(),
    {
        let cur = &self.cursor;
        if !(cur.lc0 <= cur.c && cur.line_inx < usize::MAX && cur.wrap0 < usize::MAX) {
            return None;
        }
        let mut s = String::new();
        s.append("DEBUG: [");
        let (cx, cy) = self.rc.pos();
        push_decimal(&mut s, cx);
        s.append(",");
        push_decimal(&mut s, cy);
        s.append("] xh:");
        push_decimal(&mut s, cur.x_hint);
        s.append(" S:");
        let summary = cur.simple_format();
        s.append(summary.as_str());
        s.append(" ");
        let path = self.get_path();
        s.append(path.as_str());
        s.append(" (");
        push_decimal(&mut s, self.w);
        s.append(", ");
        push_decimal(&mut s, self.h);
        s.append(", ");
        push_decimal(&mut s, self.x0);
        s.append(", ");
        push_decimal(&mut s, self.y0);
        s.append(")");
        let pad = spaces_string(width);
        s.append(pad.as_str());
        Some(s)
    }
}

/// What `command` needs of the block for `c`: room to type at the cursor, or to count the
/// range to take out.
pub open spec fn command_ok(b: BufferBlock, c: Command) -> bool {
    match c {
        Command::Insert(_) => {
            &&& b.spec_cursor().c <= b.spec_text().len()
            &&& b.spec_cursor().c + 1020 <= usize::MAX
            &&& b.spec_block_view().w > 0
            &&& tab_ok(b.spec_buf().config)
        },
        Command::RemoveChar(dx) => {
            &&& b.spec_cursor().c <= i32::MAX
            &&& b.spec_cursor().c + dx <= i32::MAX
            &&& b.spec_block_view().w > 0
            &&& tab_ok(b.spec_cursor().config)
        },
        _ => true,
    }
}

/// What `command` does to the block: `Insert` types its character, `RemoveChar` takes out
/// its range, every other command leaves the block as it is.
pub open spec fn block_command(before: BufferBlock, after: BufferBlock, c: Command) -> bool {
    &&& match c {
        Command::Insert(ch) => char_typed(before, after, ch),
        Command::RemoveChar(dx) => range_removed(before, after, dx),
        _ => after == before,
    }
    &&& after.spec_geom() == before.spec_geom()
    &&& after.spec_block_view() == before.spec_block_view()
}

/// `after` is `before` with `path` as its buffer's path, all else kept.
pub open spec fn path_set(before: BufferBlock, after: BufferBlock, path: Seq<char>) -> bool {
    &&& after.spec_buf() == (BufferState { path: path, ..before.spec_buf() })
    &&& after.spec_cursor() == before.spec_cursor()
    &&& after.spec_start() == before.spec_start()
    &&& after.spec_geom() == before.spec_geom()
    &&& after.spec_block_view() == before.spec_block_view()
    &&& after.spec_highlight() == before.spec_highlight()
    &&& after.spec_rows() == before.spec_rows()
    &&& after.spec_focused() == before.spec_focused()
}

impl BufferBlock {
    /// Hands a command to the block: typing a character, or taking out a range of
    /// characters; every other command leaves it as it is.
    pub fn command(&mut self, c: &Command) -> (r: &mut Self)
        requires
            command_ok(*old(self), *c),
        ensures
            block_command(*old(self), *r, *c),
            *final(self) == *final(r),
    {
        match c {
            Command::Insert(x) => self.insert_char(*x),
            Command::RemoveChar(dx) => self.remove_range(*dx),
            _ => self,
        }
    }
}

impl BufferBlock {
    /// Hands the rows to the margin block.
    pub fn update_left_rows(&mut self, rows: Vec<RowUpdate>) -> (r: &mut Self)
        requires
            old(self).spec_left().spec_view().y0 + rows@.len() <= usize::MAX,
        ensures
            block_updated(old(self).spec_left(), (*r).spec_left(), rows@),
            (*r).spec_block() == old(self).spec_block(),
            (*r).spec_buf() == old(self).spec_buf(),
            (*r).spec_cursor() == old(self).spec_cursor(),
            (*r).spec_start() == old(self).spec_start(),
            (*r).spec_geom() == old(self).spec_geom(),
            (*r).spec_block_view() == old(self).spec_block_view(),
            (*r).spec_highlight() == old(self).spec_highlight(),
            (*r).spec_rows() == old(self).spec_rows(),
            (*r).spec_focused() == old(self).spec_focused(),
            *final(self) == *final(r),
    {
        self.left.update_rows(rows);
        self
    }

    /// The width of the text block.
    pub fn block_width(&self) -> (w: usize)
        ensures
            w == self.spec_block_view().w,
    {
        self.block.get_view().w
    }

    /// Makes the text block highlight `h`.
    pub fn set_highlight(&mut self, h: String) -> (r: &mut Self)
        ensures
            (*r).spec_highlight() == h@,
            (*r).spec_buf() == old(self).spec_buf(),
            (*r).spec_cursor() == old(self).spec_cursor(),
            (*r).spec_start() == old(self).spec_start(),
            (*r).spec_geom() == old(self).spec_geom(),
            (*r).spec_block_view() == old(self).spec_block_view(),
            (*r).spec_rows() == old(self).spec_rows(),
            (*r).spec_focused() == old(self).spec_focused(),
            (*r).spec_block().spec_rows() == old(self).spec_block().spec_rows(),
            *final(self) == *final(r),
    {
        self.block.set_highlight(h);
        self
    }
}

/// The nearest match to position `c` in a search's direction: the first one that starts after
/// `c`, or, backward, the last one that starts before it.
pub open spec fn match_step(results: Seq<Substring>, c: usize, back: bool) -> Option<Substring> {
    if back {
        prev_match(results, c)
    } else {
        next_match(results, c)
    }
}

/// The match reached from `c` by stepping to the nearest match and then `k` more, in the
/// search's direction, stopping at the last one found (`found` when there is none).
pub open spec fn match_walk(results: Seq<Substring>, c: usize, back: bool, k: nat, found: Option<Substring>) -> Option<Substring>
    decreases k,
{
    match match_step(results, c, back) {
        None => found,
        Some(sub) => if k == 0 {
            Some(sub)
        } else {
            match_walk(results, sub.0, back, (k - 1) as nat, Some(sub))
        },
    }
}

/// Block `b2` is block `b` with the matches and direction of a search, all else kept.
pub open spec fn search_kept(b: BufferBlock, b2: BufferBlock) -> bool {
    &&& b2.spec_buf() == b.spec_buf()
    &&& b2.spec_start() == b.spec_start()
    &&& b2.spec_geom() == b.spec_geom()
    &&& b2.spec_block() == b.spec_block()
    &&& b2.spec_left() == b.spec_left()
    &&& b2.spec_block_view() == b.spec_block_view()
    &&& b2.spec_highlight() == b.spec_highlight()
    &&& b2.spec_rows() == b.spec_rows()
    &&& b2.spec_focused() == b.spec_focused()
    &&& b2.spec_rc_pos() == b.spec_rc_pos()
    &&& b2.spec_rc_pending() == b.spec_rc_pending()
}

/// Block `b2` is block `b` after a search for `s` (backward when `back`) and a step `reps`
/// matches on (see `search_next`).
pub open spec fn searched(b: BufferBlock, b2: BufferBlock, s: Seq<char>, back: bool, reps: int) -> bool {
    &&& ranges_view(b2.spec_search()) == search_spec(s, b.spec_text(), 0, b.spec_text().len())
    &&& b2.spec_search_back() == back
    &&& search_kept(b, b2)
    &&& moved_to_match(b, b2, b2.spec_search(), back, reps)
}

/// The cursor of `b2` is the cursor of `b` moved to the start of the match that `search_next`
/// reaches, with no column hint, or the same cursor when there is no match.
pub open spec fn moved_to_match(b: BufferBlock, b2: BufferBlock, results: Seq<Substring>, back: bool, reps: int) -> bool {
    let k = if reps > 0 { reps as nat } else { 0 };
    match match_walk(results, b.spec_cursor().c, back, k, None) {
        Some(sub) => cursor_at(
            b2.spec_cursor(),
            b.spec_text(),
            b.spec_geom().0 as int,
            b.spec_cursor().config,
            sub.0 as int,
            0,
        ),
        None => b2.spec_cursor() == b.spec_cursor(),
    }
}

/// The match that `match_walk` reaches from `c`, `n` matches past the nearest one.
fn walk_matches(sr: &SearchResults, c: usize, back: bool, n: u32) -> (r: Option<Substring>)
    ensures
        r == match_walk(sr@, c, back, n as nat, None),
{
    let mut k: u32 = n;
    let mut pos: usize = c;
    let mut found: Option<Substring> = None;
    loop
        invariant
            match_walk(sr@, pos, back, k as nat, found) == match_walk(sr@, c, back, n as nat, None),
        decreases k,
    {
        let step = if back {
            sr.prev_from_position(pos)
        } else {
            sr.next_from_position(pos)
        };
        match step {
            None => {
                return found;
            },
            Some(sub) => {
                if k == 0 {
                    return Some(sub);
                }
                k = k - 1;
                pos = sub.0;
                found = Some(sub);
            },
        }
    }
}

impl BufferBlock {
    /// Searches the whole text for `s` and keeps the matches, to be stepped through forward,
    /// or backward when `reverse`.
    pub fn search(&mut self, s: &str, reverse: bool) -> (r: &mut Self)
        requires
            s@.len() > 0,
        ensures
            ranges_view((*r).spec_search()) == search_spec(s@, old(self).spec_text(), 0, old(self).spec_text().len()),
            (*r).spec_search_back() == reverse,
            search_kept(*old(self), *r),
            (*r).spec_cursor() == old(self).spec_cursor(),
            *final(self) == *final(r),
    {
        let text = self.buf.get_text();
        self.search_results = SearchResults::new_search(&text, s);
        self.search_back = reverse;
        self
    }

    /// Moves the cursor to the start of the nearest match in the search's direction, then
    /// `reps` matches further on (stopping at the last match found); it stays when there is
    /// no match in that direction.
    pub fn search_next(&mut self, reps: i32) -> (r: &mut Self)
        requires
            old(self).spec_geom().0 > 0,
            tab_ok(old(self).spec_cursor().config),
        ensures
            moved_to_match(*old(self), *r, old(self).spec_search(), old(self).spec_search_back(), reps as int),
            search_kept(*old(self), *r),
            (*r).spec_search() == old(self).spec_search(),
            (*r).spec_search_back() == old(self).spec_search_back(),
            *final(self) == *final(r),
    {
        let n: u32 = if reps > 0 {
            reps as u32
        } else {
            0
        };
        let found = walk_matches(&self.search_results, self.cursor.c, self.search_back, n);
        match found {
            Some(sub) => {
                let text = self.buf.get_text();
                let config = self.cursor.config;
                self.cursor = cursor_from_char(&text, self.w, &config, sub.0, 0);
            },
            None => {},
        }
        self
    }
}

impl BufferBlock {
    /// Whether the cursors' settings can lay out tabs.
    pub(crate) fn cursors_tab_ok(&self) -> (r: bool)
        ensures
            r == (tab_ok(self.spec_cursor().config) && tab_ok(self.spec_start().config)),
    {
        crate::tui::viewchar::check_tab_ok(&self.cursor.config) && crate::tui::viewchar::check_tab_ok(
            &self.start.config,
        )
    }

    /// Whether the buffer's settings can lay out tabs.
    pub(crate) fn buf_tab_ok(&self) -> (r: bool)
        ensures
            r == tab_ok(self.spec_buf().config),
    {
        let config = self.buf.get_config();
        crate::tui::viewchar::check_tab_ok(&config)
    }

    /// The cursor's position.
    pub(crate) fn cursor_pos(&self) -> (c: usize)
        ensures
            c == self.spec_cursor().c,
    {
        self.cursor.c
    }

    /// Whether the text and the highlight are small enough to be laid out: four bytes per
    /// character of the text, and of the highlight, fit in an `i32`.
    pub(crate) fn sizes_ok(&self) -> (r: bool)
        ensures
            r ==> 4 * self.spec_text().len() <= i32::MAX && vstd::utf8::encode_utf8(self.spec_highlight()).len() <= i32::MAX,
            4 * self.spec_text().len() <= i32::MAX && 4 * self.spec_highlight().len() <= i32::MAX ==> r,
    {
        let text = self.buf.get_text();
        let n = crate::rope::rope_len_chars(&text);
        let h = self.block.get_highlight();
        let m = h.as_str().unicode_len();
        proof {
            crate::text::format::lemma_encode_utf8_len(h@);
        }
        n <= 536870911 && m <= 536870911
    }
}

/// The header row: the editor's name and version, the path, the cursor's short account, its
/// line (counted from one) out of the lines of the text, then `width` blanks.
pub open spec fn header_text(
    version: Seq<char>,
    path: Seq<char>,
    summary: Seq<char>,
    line: nat,
    lines: nat,
    width: usize,
) -> Seq<char> {
    "Rust-Editor-"@ + version + " "@ + path + " "@ + summary + " Line:"@ + decimal(line) + "/"@
        + decimal(lines) + spaces(width as nat)
}

impl BufferBlock {
    /// The header row for this block with `version`, as wide as the text block plus its
    /// account; nothing when the cursor's account cannot be counted.
    pub fn header_line(&self, version: &str) -> (s: Option<String>)
        ensures
            s matches Some(t) ==> t@ == header_text(
                version@,
                self.spec_buf().path,
                self.spec_cursor().summary(),
                (self.spec_cursor().line_inx + 1) as nat,
                line_count(self.spec_text()),
                self.spec_block_view().w,
            ),
            s is None <==> !self.spec_cursor().summary_ok(),
    {
        let cur = &self.cursor;
        if !(cur.lc0 <= cur.c && cur.line_inx < usize::MAX && cur.wrap0 < usize::MAX) {
            return None;
        }
        let mut s = String::new();
        s.append("Rust-Editor-");
        s.append(version);
        s.append(" ");
        let path = self.get_path();
        s.append(path.as_str());
        s.append(" ");
        let summary = cur.simple_format();
        s.append(summary.as_str());
        s.append(" Line:");
        push_decimal(&mut s, cur.line_inx + 1);
        s.append("/");
        let text = self.buf.get_text();
        let n = crate::rope::rope_len_lines(&text);
        push_decimal(&mut s, n);
        let pad = spaces_string(self.block.get_view().w);
        s.append(pad.as_str());
        Some(s)
    }
}

} // verus!
