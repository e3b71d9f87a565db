use vstd::prelude::*;

use crate::config::{spaces, BufferConfig};
use crate::strings::{decimal, push_decimal, spaces_string};
use crate::text::buffer::Buffer;
use crate::tui::bufferblock::{block_resized, laid_out, BufferBlock};
use crate::tui::bufferlist::RotatingList;
use crate::tui::cursor::Cursor;
use crate::tui::display::{block_updated, DrawCommand, RenderBlock, ViewPos};
use crate::tui::row::{formats_view, RowUpdate};
use crate::tui::viewchar::{tab_ok, LineFormat, LineFormatType};

verus! {

/// `s` moved to the right of a field `w` columns wide (spaces in front).
pub open spec fn pad_left(s: Seq<char>, w: int) -> Seq<char> {
    if s.len() < w {
        spaces((w - s.len()) as nat) + s
    } else {
        s
    }
}

/// `s` at the left of a field `w` columns wide (spaces behind).
pub open spec fn pad_right(s: Seq<char>, w: int) -> Seq<char> {
    if s.len() < w {
        s + spaces((w - s.len()) as nat)
    } else {
        s
    }
}

/// The line number the gutter shows beside row `inx`, counted from one; zero for a blank
/// gutter: only the first row of a line, and the first row on the screen, show it.
pub open spec fn gutter_number(row: Cursor, inx: int) -> int {
    if row.wrap0 == 0 || inx == 0 {
        if row.line_inx == usize::MAX {
            0
        } else {
            row.line_inx + 1
        }
    } else {
        0
    }
}

/// The gutter text beside row `inx`: its number right-aligned in `w` columns, or `w` blanks,
/// then a vertical bar.
pub open spec fn gutter_text(row: Cursor, inx: int, w: int) -> Seq<char> {
    let n = gutter_number(row, inx);
    if n > 0 {
        pad_left(decimal(n as nat), w) + seq!['\u{23A5}']
    } else {
        pad_right(seq![' '], w) + seq!['\u{23A5}']
    }
}

/// What the gutter block shows for the laid out rows `rows`, with `h` rows at least: for each
/// row its gutter text, dimmed, then empty rows.
pub open spec fn gutter_rows(rows: Seq<Cursor>, w: int, h: int) -> Seq<
    Seq<(LineFormatType, Seq<char>)>,
> {
    let n = if rows.len() < h {
        h
    } else {
        rows.len() as int
    };
    Seq::new(
        n as nat,
        |i: int|
            if i < rows.len() {
                seq![(LineFormatType::Dim, gutter_text(rows[i], i, w))]
            } else {
                Seq::empty()
            },
    )
}

/// The gutter text beside row `inx` of the screen, in a field of `w` columns.
pub fn gutter_line(row: &Cursor, inx: usize, w: usize) -> (s: String)
    ensures
        s@ == gutter_text(*row, inx as int, w as int),
{
    let show = (row.wrap0 == 0 || inx == 0) && row.line_inx < usize::MAX;
    let mut s = String::new();
    if show {
        let mut digits = String::new();
        push_decimal(&mut digits, row.line_inx + 1);
        let len = digits.as_str().unicode_len();
        if len < w {
            s = spaces_string(w - len);
        }
        s.append(digits.as_str());
    } else {
        s.append(" ");
        if 1 < w {
            let pad = spaces_string(w - 1);
            s.append(pad.as_str());
        }
    }
    crate::strings::string_push(&mut s, '\u{23A5}');
    proof {
        reveal_strlit(" ");
        let n = gutter_number(*row, inx as int);
        assert(show <==> n > 0);
    }
    s
}

/// A window can take `view`: room for the gutter and the status row, and settings the
/// cursors can be laid out with.
pub open spec fn window_fits(w: BufferWindow, view: ViewPos) -> bool {
    &&& view.w > 6
    &&& view.h >= 1
    &&& view.x0 + 6 <= usize::MAX
    &&& view.y0 + view.h <= usize::MAX
    &&& tab_ok(w.main.spec_cursor().config)
    &&& tab_ok(w.main.spec_start().config)
}

/// `after` is `before` at `view`: the status row at its bottom, the gutter on its left, the
/// text block resized beside the gutter, all of them empty.
pub open spec fn window_resized(before: BufferWindow, after: BufferWindow, view: ViewPos) -> bool {
    &&& after.view == view
    &&& after.config == before.config
    &&& after.status.spec_view() == (ViewPos {
        w: view.w,
        h: 1,
        x0: view.x0,
        y0: (view.y0 + view.h - 1) as usize,
    })
    &&& after.status.spec_rows().len() == 0
    &&& after.left.spec_view() == (ViewPos { w: 6, h: (view.h - 1) as usize, x0: view.x0, y0: view.y0 })
    &&& after.left.spec_rows().len() == 0
    &&& block_resized(
        before.main,
        after.main,
        (view.w - 6) as usize,
        (view.h - 1) as usize,
        (view.x0 + 6) as usize,
        view.y0,
        0,
    )
    &&& after.main.spec_block().spec_rows().len() == 0
}

/// `after` is `before` with every block empty, all else kept.
pub open spec fn window_cleared(before: BufferWindow, after: BufferWindow) -> bool {
    &&& after.status.spec_rows().len() == 0
    &&& after.left.spec_rows().len() == 0
    &&& after.status.spec_view() == before.status.spec_view()
    &&& after.left.spec_view() == before.left.spec_view()
    &&& after.main.spec_buf() == before.main.spec_buf()
    &&& after.main.spec_cursor() == before.main.spec_cursor()
    &&& after.main.spec_start() == before.main.spec_start()
    &&& after.main.spec_geom() == before.main.spec_geom()
    &&& after.main.spec_block_view() == before.main.spec_block_view()
    &&& after.main.spec_highlight() == before.main.spec_highlight()
    &&& after.main.spec_focused() == before.main.spec_focused()
    &&& after.main.spec_rows() == before.main.spec_rows()
    &&& after.main.spec_block().spec_rows().len() == 0
    &&& after.view == before.view
    &&& after.config == before.config
}

/// What the rows of a block show, as runs.
pub open spec fn row_views(rows: Seq<RowUpdate>) -> Seq<Seq<(LineFormatType, Seq<char>)>> {
    rows.map_values(|u: RowUpdate| formats_view(u.formats@))
}

/// What `update` needs of a window: what laying out its text block needs, a gutter at least
/// one column wide and not too tall, and room below the status row.
pub open spec fn window_update_ok(w: BufferWindow) -> bool {
    &&& (w.main.spec_geom().0 > 0)
    &&& (w.main.spec_geom().1 <= 65536)
    &&& (tab_ok(w.main.spec_cursor().config))
    &&& (tab_ok(w.main.spec_start().config))
    &&& (tab_ok(w.main.spec_buf().config))
    &&& (4 * w.main.spec_text().len() <= i32::MAX)
    &&& (vstd::utf8::encode_utf8(w.main.spec_highlight()).len() <= i32::MAX)
    &&& (w.main.spec_block_view().x0 + 65536 <= usize::MAX)
    &&& (w.main.spec_block_view().y0 + 65536 <= usize::MAX)
    &&& (w.left.spec_view().w >= 1)
    &&& (w.left.spec_view().h <= 65536)
    &&& (w.left.spec_view().y0 + 65536 <= usize::MAX)
    &&& (w.status.spec_view().y0 < usize::MAX)
}

/// `after` is `before` updated: its text block laid out, its gutter showing the line numbers
/// of the laid out rows (padded with empty rows), its status row showing the block's account
/// when the cursor's numbers can be counted (else left as it was).
#[verifier::opaque]
pub open spec fn window_updated(before: BufferWindow, after: BufferWindow) -> bool {
    &&& (laid_out(before.main, after.main))
    &&& (after.main.spec_buf() == before.main.spec_buf())
    &&& (after.main.spec_geom() == before.main.spec_geom())
    &&& (after.left.spec_view() == before.left.spec_view())
    &&& (after.status.spec_view() == before.status.spec_view())
    &&& (after.view == before.view)
    &&& (after.config == before.config)
    &&& (row_views(after.left.spec_rows()) == gutter_rows(
                after.main.spec_rows(),
                before.left.spec_view().w - 1,
                before.left.spec_view().h as int,
            ))
    &&& (after.main.spec_cursor().summary_ok() ==> row_views(after.status.spec_rows()) == seq![
                seq![
                    (
                        LineFormatType::Highlight,
                        crate::tui::bufferblock::status_text(
                            after.main.spec_rc_pos().0,
                            after.main.spec_rc_pos().1,
                            after.main.spec_cursor().x_hint,
                            after.main.spec_cursor().summary(),
                            after.main.spec_buf().path,
                            (
                                after.main.spec_geom().0,
                                after.main.spec_geom().1,
                                after.main.spec_geom().2,
                                after.main.spec_geom().3,
                            ),
                            before.status.spec_view().w,
                        ),
                    ),
                ],
            ])
    &&& (!after.main.spec_cursor().summary_ok() ==> after.status == before.status)
}

/// Hands the gutter rows for the laid out rows `rows` to the gutter block `left`.
fn fill_gutter(left: &mut RenderBlock, rows: &Vec<Cursor>)
    requires
        old(left).spec_view().w >= 1,
        old(left).spec_view().h <= 65536,
        old(left).spec_view().y0 + 65536 <= usize::MAX,
        rows@.len() <= 65536,
    ensures
        row_views(final(left).spec_rows()) == gutter_rows(
            rows@,
            old(left).spec_view().w - 1,
            old(left).spec_view().h as int,
        ),
        final(left).spec_view() == old(left).spec_view(),
{
        let lw = left.get_view().w - 1;
        let lh = left.get_view().h;
        let mut gutter: Vec<RowUpdate> = Vec::new();
        let mut i: usize = 0;
        while i < rows.len()
            invariant
                i <= rows@.len(),
                gutter@.len() == i,
                forall|j: int|
                    0 <= j < i ==> formats_view((#[trigger] gutter@[j]).formats@) == seq![
                        (LineFormatType::Dim, gutter_text(rows@[j], j, lw as int)),
                    ],
            decreases rows@.len() - i,
        {
            let t = gutter_line(&rows[i], i, lw);
            let u = RowUpdate::from(LineFormat::new(LineFormatType::Dim, t));
            assert(formats_view(u.formats@) =~= seq![(LineFormatType::Dim, t@)]);
            gutter.push(u);
            i = i + 1;
        }
        while gutter.len() < lh
            invariant
                rows@.len() <= gutter@.len(),
                gutter@.len() <= if rows@.len() < lh { lh as int } else { rows@.len() as int },
                forall|j: int|
                    0 <= j < gutter@.len() ==> formats_view((#[trigger] gutter@[j]).formats@) == if j
                        < rows@.len() {
                        seq![(LineFormatType::Dim, gutter_text(rows@[j], j, lw as int))]
                    } else {
                        Seq::empty()
                    },
            decreases lh - gutter@.len(),
        {
            let u = RowUpdate::default();
            assert(formats_view(u.formats@) =~= Seq::empty());
            gutter.push(u);
        }
        let ghost g = gutter@;
        left.update_rows(gutter);
        proof {
            let got = row_views(left.spec_rows());
            let want = gutter_rows(rows@, lw as int, lh as int);
            assert(got.len() == want.len());
            assert forall|j: int| 0 <= j < got.len() implies got[j] == want[j] by {
                assert(formats_view(left.spec_rows()[j].formats@) == formats_view(g[j].formats@));
            }
            assert(got =~= want);
        }
}

/// What `window_updated` says, clause by clause.
pub proof fn lemma_window_updated(before: BufferWindow, after: BufferWindow)
    requires
        (laid_out(before.main, after.main)),
        (after.main.spec_buf() == before.main.spec_buf()),
        (after.main.spec_geom() == before.main.spec_geom()),
        (after.left.spec_view() == before.left.spec_view()),
        (after.status.spec_view() == before.status.spec_view()),
        (after.view == before.view),
        (after.config == before.config),
        (row_views(after.left.spec_rows()) == gutter_rows(
                after.main.spec_rows(),
                before.left.spec_view().w - 1,
                before.left.spec_view().h as int,
            )),
        (after.main.spec_cursor().summary_ok() ==> row_views(after.status.spec_rows()) == seq![
                seq![
                    (
                        LineFormatType::Highlight,
                        crate::tui::bufferblock::status_text(
                            after.main.spec_rc_pos().0,
                            after.main.spec_rc_pos().1,
                            after.main.spec_cursor().x_hint,
                            after.main.spec_cursor().summary(),
                            after.main.spec_buf().path,
                            (
                                after.main.spec_geom().0,
                                after.main.spec_geom().1,
                                after.main.spec_geom().2,
                                after.main.spec_geom().3,
                            ),
                            before.status.spec_view().w,
                        ),
                    ),
                ],
            ]),
        (!after.main.spec_cursor().summary_ok() ==> after.status == before.status),
    ensures
        window_updated(before, after),
{
    reveal(window_updated);
}

/// A buffer on the screen: its text block, a gutter with line numbers on the left and a
/// status row.
#[derive(Debug)]
pub struct BufferWindow {
    pub status: RenderBlock,
    pub left: RenderBlock,
    pub main: BufferBlock,
    pub config: BufferConfig,
    pub view: ViewPos,
}

impl BufferWindow {
    /// A window on `buf` at `view`.
    pub fn new(buf: Buffer, view: ViewPos) -> (w: Self)
        requires
            tab_ok(buf@.config),
        ensures
            w.main.spec_buf() == buf@,
            w.config == buf@.config,
            w.view == view,
            w.status.spec_view() == view,
            w.left.spec_view() == view,
    {
        let config = buf.get_config();
        let main = BufferBlock::new(buf);
        BufferWindow {
            status: RenderBlock::new(view),
            left: RenderBlock::new(view),
            main,
            config,
            view,
        }
    }

    /// Forgets what every block shows, so that all of it is drawn again.
    pub fn clear(&mut self) -> (r: &mut Self)
        ensures
            (*r).status.spec_rows().len() == 0,
            (*r).left.spec_rows().len() == 0,
            (*r).status.spec_view() == old(self).status.spec_view(),
            (*r).left.spec_view() == old(self).left.spec_view(),
            (*r).main.spec_buf() == old(self).main.spec_buf(),
            (*r).main.spec_cursor() == old(self).main.spec_cursor(),
            (*r).main.spec_start() == old(self).main.spec_start(),
            (*r).main.spec_geom() == old(self).main.spec_geom(),
            (*r).main.spec_block_view() == old(self).main.spec_block_view(),
            (*r).main.spec_highlight() == old(self).main.spec_highlight(),
            (*r).main.spec_focused() == old(self).main.spec_focused(),
            (*r).main.spec_rows() == old(self).main.spec_rows(),
            (*r).main.spec_block().spec_rows().len() == 0,
            (*r).view == old(self).view,
            (*r).config == old(self).config,
            *final(self) == *final(r),
    {
        self.status.clear();
        self.left.clear();
        self.main.clear();
        self
    }


    /// Lays out the text block again, writes the status row, and fills the gutter: beside each
    /// laid out row its line number (on the first row of a line, and on the first row on the
    /// screen) or blanks, then empty rows down to the gutter's height.
    #[verifier::rlimit(80)]
    pub fn update(&mut self) -> (r: &mut Self)
        requires
            old(self).main.spec_geom().0 > 0,
            old(self).main.spec_geom().1 <= 65536,
            tab_ok(old(self).main.spec_cursor().config),
            tab_ok(old(self).main.spec_start().config),
            tab_ok(old(self).main.spec_buf().config),
            4 * old(self).main.spec_text().len() <= i32::MAX,
            vstd::utf8::encode_utf8(old(self).main.spec_highlight()).len() <= i32::MAX,
            old(self).main.spec_block_view().x0 + 65536 <= usize::MAX,
            old(self).main.spec_block_view().y0 + 65536 <= usize::MAX,
            old(self).left.spec_view().w >= 1,
            old(self).left.spec_view().h <= 65536,
            old(self).left.spec_view().y0 + 65536 <= usize::MAX,
            old(self).status.spec_view().y0 < usize::MAX,
        ensures
            laid_out(old(self).main, (*r).main),
            (*r).main.spec_buf() == old(self).main.spec_buf(),
            (*r).main.spec_geom() == old(self).main.spec_geom(),
            (*r).left.spec_view() == old(self).left.spec_view(),
            (*r).status.spec_view() == old(self).status.spec_view(),
            (*r).view == old(self).view,
            (*r).config == old(self).config,
            (row_views((*r).left.spec_rows()) == gutter_rows(
                (*r).main.spec_rows(),
                old(self).left.spec_view().w - 1,
                old(self).left.spec_view().h as int,
            )),
            ((*r).main.spec_cursor().summary_ok() ==> row_views((*r).status.spec_rows()) == seq![
                seq![
                    (
                        LineFormatType::Highlight,
                        crate::tui::bufferblock::status_text(
                            (*r).main.spec_rc_pos().0,
                            (*r).main.spec_rc_pos().1,
                            (*r).main.spec_cursor().x_hint,
                            (*r).main.spec_cursor().summary(),
                            (*r).main.spec_buf().path,
                            (
                                (*r).main.spec_geom().0,
                                (*r).main.spec_geom().1,
                                (*r).main.spec_geom().2,
                                (*r).main.spec_geom().3,
                            ),
                            old(self).status.spec_view().w,
                        ),
                    ),
                ],
            ]),
            !(*r).main.spec_cursor().summary_ok() ==> (*r).status == old(self).status,
            (*r).main.spec_highlight() == old(self).main.spec_highlight(),
            (*r).main.spec_cursor().config == old(self).main.spec_cursor().config,
            (*r).main.spec_start().config == old(self).main.spec_cursor().config,
            *final(self) == *final(r),
    {
        self.main.update();
        let width = self.status.get_view().w;
        match self.main.status_line(width) {
            Some(s) => {
                let mut rows: Vec<RowUpdate> = Vec::new();
                rows.push(RowUpdate::from(LineFormat::new(LineFormatType::Highlight, s)));
                self.status.update_rows(rows);
                proof {
                    let got = row_views(self.status.spec_rows());
                    assert(formats_view(self.status.spec_rows()[0].formats@) =~= got[0]);
                    assert(got[0] =~= seq![(LineFormatType::Highlight, s@)]);
                }
            },
            None => {},
        }
        let rows = self.main.rendered_rows();
        fill_gutter(&mut self.left, rows);
        proof {
            assert(laid_out(old(self).main, self.main));
            assert(self.main.spec_buf() == old(self).main.spec_buf());
            assert(self.left.spec_view() == old(self).left.spec_view());
            assert(self.status.spec_view() == old(self).status.spec_view());
        }
        self
    }

    /// The drawing steps of the status row, then of the gutter, then of the text block.
    pub fn generate_commands(&mut self) -> (v: Vec<DrawCommand>)
        ensures
            v@ == crate::tui::bufferblock::framed(old(self).status.pending())
                + crate::tui::bufferblock::framed(old(self).left.pending()) + (
            crate::tui::bufferblock::framed(old(self).main.spec_block_pending())
                + crate::tui::bufferblock::framed(old(self).main.spec_left_pending()) + if old(
                self,
            ).main.spec_focused() {
                old(self).main.spec_rc_pending()
            } else {
                Seq::empty()
            }),
            final(self).main.spec_buf() == old(self).main.spec_buf(),
            final(self).main.spec_cursor() == old(self).main.spec_cursor(),
            final(self).view == old(self).view,
    {
        let mut out: Vec<DrawCommand> = Vec::new();
        let mut a = self.status.generate_commands();
        proof {
            assert(a@ =~= crate::tui::bufferblock::framed(old(self).status.pending()));
        }
        out.append(&mut a);
        let mut b = self.left.generate_commands();
        proof {
            assert(b@ =~= crate::tui::bufferblock::framed(old(self).left.pending()));
        }
        out.append(&mut b);
        let mut c = self.main.generate_commands();
        out.append(&mut c);
        out
    }

    /// Takes a new place and size: the status row at the bottom, a gutter six columns wide on
    /// the left, the text block beside it; every block starts empty and the cursors are laid
    /// out again.
    pub fn resize(&mut self, view: ViewPos) -> (r: &mut Self)
        requires
            window_fits(*old(self), view),
        ensures
            window_resized(*old(self), *r, view),
            *final(self) == *final(r),
    {
        self.view = view;
        let prefix: usize = 6;
        self.status.resize(ViewPos { w: view.w, h: 1, x0: view.x0, y0: view.y0 + view.h - 1 });
        self.left.resize(ViewPos { w: prefix, h: view.h - 1, x0: view.x0, y0: view.y0 });
        self.main.resize(view.w - prefix, view.h - 1, view.x0 + prefix, view.y0, 0);
        self.clear();
        self
    }
}

/// The windows of an editor, the first one shown, all at the same place.
pub struct WindowLayout {
    pub view: ViewPos,
    pub buffers: RotatingList<BufferWindow>,
}

impl WindowLayout {
    /// A layout at `view` holding one window on an empty text.
    pub fn new(view: ViewPos) -> (l: Self)
        ensures
            l.view == view,
            l.buffers@.len() == 1,
            l.buffers@[0].view == view,
            l.buffers@[0].main.spec_buf().text.len() == 0,
    {
        let buf = Buffer::from_string(&String::new());
        WindowLayout { view, buffers: RotatingList::new(BufferWindow::new(buf, view)) }
    }

    /// The shown window, first put at the layout's place, to be read.
    pub fn get_buffer(&mut self) -> (r: &BufferWindow)
        requires
            old(self).buffers@.len() > 0,
            window_fits(old(self).buffers@[0], old(self).view),
        ensures
            window_resized(old(self).buffers@[0], *r, old(self).view),
            final(self).buffers@ == old(self).buffers@.update(0, *r),
            final(self).view == old(self).view,
    {
        let view = self.view;
        let b = self.buffers.get_mut();
        b.resize(view);
        &*b
    }

    /// The shown window, first put at the layout's place.
    pub fn get_buffer_mut(&mut self) -> (r: &mut BufferWindow)
        requires
            old(self).buffers@.len() > 0,
            window_fits(old(self).buffers@[0], old(self).view),
        ensures
            window_resized(old(self).buffers@[0], *r, old(self).view),
            final(self).buffers@ == old(self).buffers@.update(0, *final(r)),
            final(self).view == old(self).view,
    {
        let view = self.view;
        let b = self.buffers.get_mut();
        b.resize(view);
        b
    }

    /// Puts every window at `view` (each keeps things laid out for its size).
    pub fn resize(&mut self, view: ViewPos)
        requires
            forall|i: int| 0 <= i < old(self).buffers@.len() ==> window_fits(#[trigger] old(self).buffers@[i], view),
        ensures
            final(self).view == old(self).view,
            final(self).buffers@.len() == old(self).buffers@.len(),
            forall|i: int|
                0 <= i < old(self).buffers@.len() ==> window_resized(
                    old(self).buffers@[i],
                    #[trigger] final(self).buffers@[i],
                    view,
                ),
    {
        let n = self.buffers.elements.len();
        let ghost before = self.buffers@;
        let mut i: usize = 0;
        while i < n
            invariant
                n == before.len(),
                i <= n,
                self.view == old(self).view,
                self.buffers@.len() == n,
                forall|j: int| 0 <= j < n - i ==> #[trigger] self.buffers@[j] == before[i + j],
                forall|j: int|
                    0 <= j < i ==> window_resized(
                        before[j],
                        #[trigger] self.buffers@[n - i + j],
                        view,
                    ),
                forall|j: int| 0 <= j < n ==> window_fits(#[trigger] before[j], view),
            decreases n - i,
        {
            let ghost cur = self.buffers@;
            let mut w = self.buffers.elements.pop_front().unwrap();
            assert(w == before[i as int]) by {
                assert(cur[0] == before[i + 0]);
            }
            w.resize(view);
            self.buffers.elements.push_back(w);
            proof {
                assert forall|j: int| 0 <= j < n - (i + 1) implies #[trigger] self.buffers@[j] == before[(i + 1) + j] by {
                    assert(cur[j + 1] == before[i + (j + 1)]);
                }
                assert forall|j: int| 0 <= j < i + 1 implies window_resized(
                    before[j],
                    #[trigger] self.buffers@[n - (i + 1) + j],
                    view,
                ) by {
                    if j < i {
                        assert(self.buffers@[n - (i + 1) + j] == cur[n - i + j]);
                    }
                }
            }
            i = i + 1;
        }
        assert forall|j: int| 0 <= j < n implies window_resized(
            before[j],
            #[trigger] self.buffers@[j],
            view,
        ) by {
            assert(self.buffers@[n - i + j] == self.buffers@[j]);
        }
    }

    /// Forgets what the shown window's blocks show.
    pub fn clear(&mut self) -> (r: &mut Self)
        requires
            old(self).buffers@.len() > 0,
        ensures
            (*r).buffers@.len() == old(self).buffers@.len(),
            (*r).buffers@[0].main.spec_buf() == old(self).buffers@[0].main.spec_buf(),
            window_cleared(old(self).buffers@[0], (*r).buffers@[0]),
            forall|i: int| 1 <= i < (*r).buffers@.len() ==> (*r).buffers@[i] == old(self).buffers@[i],
            (*r).view == old(self).view,
            *final(self) == *final(r),
    {
        self.buffers.get_mut().clear();
        self
    }
}

} // verus!
