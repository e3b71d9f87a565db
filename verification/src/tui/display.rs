use vstd::prelude::*;

use crate::tui::row::{clone_formats, formats_eq, formats_view, RowUpdate};
use crate::tui::viewchar::LineFormat;

verus! {

/// Where a block sits on the screen and how large it is.
#[derive(Debug, Clone, Copy, PartialEq, Eq, Structural)]
pub struct ViewPos {
    pub w: usize,
    pub h: usize,
    pub x0: usize,
    pub y0: usize,
}

/// A drawing step for the terminal.
#[derive(Debug, Clone)]
pub enum DrawCommand {
    Clear(usize, usize),
    Line(u16, usize, String),
    Row(u16, u16, String),
    Status(u16, String),
    Cursor(u16, u16),
    Format(usize, usize, usize, Vec<LineFormat>),
    SavePosition,
    RestorePosition,
}

/// The drawn cursor: its position and the cursor moves that are still to be drawn.
#[derive(Debug, Clone)]
pub struct RenderCursor {
    pub cx: usize,
    pub cy: usize,
    commands: Vec<DrawCommand>,
}

impl RenderCursor {
    pub closed spec fn pending(&self) -> Seq<DrawCommand> {
        self.commands@
    }

    pub closed spec fn spec_pos(&self) -> (usize, usize) {
        (self.cx, self.cy)
    }

    /// Where the cursor is drawn: column and row.
    pub fn pos(&self) -> (p: (usize, usize))
        ensures
            p == self.spec_pos(),
    {
        (self.cx, self.cy)
    }
}

impl Default for RenderCursor {
    fn default() -> (c: Self)
        ensures
            c.spec_pos() == (0usize, 0usize),
            c.pending() == seq![DrawCommand::Cursor(0, 0)],
    {
        let mut commands = Vec::new();
        commands.push(DrawCommand::Cursor(0, 0));
        Self { cx: 0, cy: 0, commands }
    }
}

impl RenderCursor {
    /// Moves the cursor; each coordinate that changes adds a cursor move, the column first.
    pub fn update(&mut self, cx: usize, cy: usize)
        ensures
            final(self).spec_pos() == (cx, cy),
            final(self).pending() == old(self).pending() + (if old(self).spec_pos().0 != cx {
                seq![DrawCommand::Cursor(cx as u16, old(self).spec_pos().1 as u16)]
            } else {
                seq![]
            }) + (if old(self).spec_pos().1 != cy {
                seq![DrawCommand::Cursor(cx as u16, cy as u16)]
            } else {
                seq![]
            }),
    {
        let ghost c0 = self.commands@;
        if self.cx != cx {
            self.cx = cx;
            self.commands.push(DrawCommand::Cursor(self.cx as u16, self.cy as u16));
        }
        let ghost c1 = self.commands@;
        if self.cy != cy {
            self.cy = cy;
            self.commands.push(DrawCommand::Cursor(self.cx as u16, self.cy as u16));
        }
        assert(self.commands@ =~= c0 + (if old(self).cx != cx {
            seq![DrawCommand::Cursor(cx as u16, old(self).cy as u16)]
        } else {
            seq![]
        }) + (if old(self).cy != cy {
            seq![DrawCommand::Cursor(cx as u16, cy as u16)]
        } else {
            seq![]
        }));
    }

    /// Hands out the cursor moves that are still to be drawn.
    pub fn generate_commands(&mut self) -> (v: Vec<DrawCommand>)
        ensures
            v@ == old(self).pending(),
            final(self).pending().len() == 0,
            final(self).spec_pos() == old(self).spec_pos(),
    {
        let mut out = Vec::new();
        std::mem::swap(&mut out, &mut self.commands);
        out
    }

    /// Forgets the pending moves; the cursor is drawn where it is.
    pub fn clear(&mut self) -> (r: &mut Self)
        ensures
            (*r).spec_pos() == old(self).spec_pos(),
            (*r).pending() == seq![
                DrawCommand::Cursor(old(self).spec_pos().0 as u16, old(self).spec_pos().1 as u16),
            ],
            *final(self) == *final(r),
    {
        self.commands.truncate(0);
        self.commands.push(DrawCommand::Cursor(self.cx as u16, self.cy as u16));
        assert(self.commands@ =~= seq![DrawCommand::Cursor(self.cx as u16, self.cy as u16)]);
        self
    }
}

/// The rows of `old`, cut or padded with empty rows to `n` rows.
pub open spec fn resized_formats(old: Seq<RowUpdate>, n: int) -> Seq<
    Seq<(crate::tui::viewchar::LineFormatType, Seq<char>)>,
> {
    Seq::new(
        n as nat,
        |i: int|
            if i < old.len() {
                formats_view(old[i].formats@)
            } else {
                seq![]
            },
    )
}

/// The indices among the first `k` rows where the new rows differ from the old ones.
pub open spec fn changed_rows(
    old: Seq<Seq<(crate::tui::viewchar::LineFormatType, Seq<char>)>>,
    new: Seq<RowUpdate>,
    k: int,
) -> Seq<int>
    decreases k,
{
    if k <= 0 {
        seq![]
    } else if old[k - 1] != formats_view(new[k - 1].formats@) {
        changed_rows(old, new, k - 1).push(k - 1)
    } else {
        changed_rows(old, new, k - 1)
    }
}

/// Updating a block with rows that show the same as the rows it holds draws nothing: no row
/// counts as changed.
pub proof fn lemma_same_rows_draw_nothing(old: Seq<RowUpdate>, new: Seq<RowUpdate>, k: int)
    requires
        old.len() == new.len(),
        0 <= k <= new.len(),
        forall|i: int| 0 <= i < new.len() ==> formats_view((#[trigger] old[i]).formats@) == formats_view(new[i].formats@),
    ensures
        changed_rows(resized_formats(old, new.len() as int), new, k).len() == 0,
    decreases k,
{
    if k > 0 {
        lemma_same_rows_draw_nothing(old, new, k - 1);
        assert(resized_formats(old, new.len() as int)[k - 1] == formats_view(old[k - 1].formats@));
    }
}

/// A row counts as changed exactly when what it shows differs from the row it replaces.
pub proof fn lemma_changed_rows_exact(
    old: Seq<Seq<(crate::tui::viewchar::LineFormatType, Seq<char>)>>,
    new: Seq<RowUpdate>,
    k: int,
    i: int,
)
    requires
        0 <= i < k,
    ensures
        changed_rows(old, new, k).contains(i) <==> old[i] != formats_view(new[i].formats@),
    decreases k,
{
    let c = changed_rows(old, new, k - 1);
    lemma_changed_rows_below(old, new, k - 1);
    if i < k - 1 {
        lemma_changed_rows_exact(old, new, k - 1, i);
        if old[k - 1] != formats_view(new[k - 1].formats@) {
            let p = c.push(k - 1);
            assert(p.contains(i) <==> c.contains(i)) by {
                if p.contains(i) {
                    let j = choose|j: int| 0 <= j < p.len() && #[trigger] p[j] == i;
                    if j < c.len() {
                        assert(c[j] == i);
                    }
                }
                if c.contains(i) {
                    let j = choose|j: int| 0 <= j < c.len() && #[trigger] c[j] == i;
                    assert(p[j] == i);
                }
            }
        }
    } else {
        if old[k - 1] != formats_view(new[k - 1].formats@) {
            assert(c.push(k - 1)[c.len() as int] == k - 1);
        } else {
            assert(!c.contains(k - 1));
        }
    }
}

/// The rows counted as changed among the first `k` are below `k`.
proof fn lemma_changed_rows_below(
    old: Seq<Seq<(crate::tui::viewchar::LineFormatType, Seq<char>)>>,
    new: Seq<RowUpdate>,
    k: int,
)
    ensures
        forall|j: int| 0 <= j < changed_rows(old, new, k).len() ==> 0 <= #[trigger] changed_rows(old, new, k)[j] < k,
    decreases k,
{
    if k > 0 {
        lemma_changed_rows_below(old, new, k - 1);
        let c = changed_rows(old, new, k - 1);
        if old[k - 1] != formats_view(new[k - 1].formats@) {
            let p = c.push(k - 1);
            assert(changed_rows(old, new, k) == p);
            assert forall|j: int| 0 <= j < p.len() implies 0 <= #[trigger] p[j] < k by {
                if j < c.len() {
                    assert(p[j] == c[j]);
                }
            }
        } else {
            assert(changed_rows(old, new, k) == c);
        }
    }
}

/// `after` is `before` given the rows `rows`: it shows them, keeps its place and highlight,
/// and has one more step for each row that differs from the one it showed, drawing that row.
pub open spec fn block_updated(before: RenderBlock, after: RenderBlock, rows: Seq<RowUpdate>) -> bool {
    &&& after.spec_rows().len() == rows.len()
    &&& forall|i: int|
        0 <= i < rows.len() ==> formats_view((#[trigger] after.spec_rows()[i]).formats@)
            == formats_view(rows[i].formats@)
    &&& after.spec_view() == before.spec_view()
    &&& after.spec_highlight() == before.spec_highlight()
    &&& ({
        let changed = changed_rows(
            resized_formats(before.spec_rows(), rows.len() as int),
            rows,
            rows.len() as int,
        );
        let n = before.pending().len();
        let view = before.spec_view();
        &&& after.pending().len() == n + changed.len()
        &&& after.pending().subrange(0, n as int) == before.pending()
        &&& forall|j: int|
            0 <= j < changed.len() ==> (#[trigger] after.pending()[n + j] matches DrawCommand::Format(
                x,
                y,
                w,
                f,
            ) && x == view.x0 && y == view.y0 + changed[j] && w == view.w && formats_view(f@)
                == formats_view(rows[changed[j]].formats@))
    })
}

/// A block of rows on the screen, the text it highlights, and the drawing steps it has yet
/// to hand out.
#[derive(Debug, Clone)]
pub struct RenderBlock {
    pub view: ViewPos,
    rows: Vec<RowUpdate>,
    pub highlight: String,
    commands: Vec<DrawCommand>,
}

/// What `generate_commands` does to block `b` (giving `b2`) and hands out (`v`): the pending
/// moves framed by saving and restoring the cursor position, or nothing when none are
/// pending; none are pending afterwards, and the rows, the place and the highlight stay.
pub open spec fn commands_generated(b: RenderBlock, b2: RenderBlock, v: Seq<DrawCommand>) -> bool {
    &&& b.pending().len() > 0 ==> v == seq![DrawCommand::SavePosition] + b.pending() + seq![
        DrawCommand::RestorePosition,
    ]
    &&& b.pending().len() == 0 ==> v.len() == 0
    &&& b2.pending().len() == 0
    &&& b2.spec_rows() == b.spec_rows()
    &&& b2.spec_view() == b.spec_view()
    &&& b2.spec_highlight() == b.spec_highlight()
}

/// Generating the commands twice in a row hands out nothing the second time: the first call
/// empties the queue.
pub proof fn lemma_generate_twice(
    b0: RenderBlock,
    b1: RenderBlock,
    b2: RenderBlock,
    v1: Seq<DrawCommand>,
    v2: Seq<DrawCommand>,
)
    requires
        commands_generated(b0, b1, v1),
        commands_generated(b1, b2, v2),
    ensures
        v2.len() == 0,
        b2.spec_rows() == b0.spec_rows(),
{
}

impl RenderBlock {
    pub closed spec fn spec_rows(&self) -> Seq<RowUpdate> {
        self.rows@
    }

    pub closed spec fn pending(&self) -> Seq<DrawCommand> {
        self.commands@
    }

    pub closed spec fn spec_view(&self) -> ViewPos {
        self.view
    }

    pub closed spec fn spec_highlight(&self) -> Seq<char> {
        self.highlight@
    }

    pub fn new(view: ViewPos) -> (b: Self)
        ensures
            b.spec_view() == view,
            b.spec_rows().len() == 0,
            b.spec_highlight().len() == 0,
            b.pending().len() == 0,
    {
        Self { view, rows: Vec::new(), highlight: String::new(), commands: Vec::new() }
    }

    /// The text the block highlights.
    pub fn get_highlight(&self) -> (h: String)
        ensures
            h@ == self.spec_highlight(),
    {
        self.highlight.clone()
    }

    /// Where the block sits and how large it is.
    pub fn get_view(&self) -> (v: ViewPos)
        ensures
            v == self.spec_view(),
    {
        self.view
    }

    pub fn set_highlight(&mut self, h: String) -> (r: &mut Self)
        ensures
            (*r).spec_highlight() == h@,
            (*r).spec_view() == old(self).spec_view(),
            (*r).spec_rows() == old(self).spec_rows(),
            (*r).pending() == old(self).pending(),
            *final(self) == *final(r),
    {
        self.highlight = h;
        self
    }

    /// Forgets the rows, so that every row is drawn again.
    pub fn clear(&mut self) -> (r: &mut Self)
        ensures
            (*r).spec_rows().len() == 0,
            (*r).spec_view() == old(self).spec_view(),
            (*r).spec_highlight() == old(self).spec_highlight(),
            (*r).pending() == old(self).pending(),
            *final(self) == *final(r),
    {
        self.rows.truncate(0);
        self
    }

    /// Takes a new place and size; all rows start empty.
    pub fn resize(&mut self, view: ViewPos) -> (r: &mut Self)
        ensures
            (*r).spec_view() == view,
            (*r).spec_rows().len() == view.h,
            forall|i: int|
                0 <= i < view.h ==> (#[trigger] (*r).spec_rows()[i]).formats@.len() == 0
                    && (*r).spec_rows()[i].dirty,
            (*r).spec_highlight() == old(self).spec_highlight(),
            (*r).pending() == old(self).pending(),
            *final(self) == *final(r),
    {
        self.rows.truncate(0);
        let mut i: usize = 0;
        while i < view.h
            invariant
                i <= view.h,
                self.rows@.len() == i,
                self.commands@ == old(self).commands@,
                self.highlight == old(self).highlight,
                forall|j: int|
                    0 <= j < i ==> (#[trigger] self.rows@[j]).formats@.len() == 0
                        && self.rows@[j].dirty,
            decreases view.h - i,
        {
            self.rows.push(RowUpdate::default());
            i = i + 1;
        }
        self.view = view;
        self
    }

    /// Takes the new rows; each row that differs from the one shown adds a step that draws
    /// it.
    pub fn update_rows(&mut self, rows: Vec<RowUpdate>) -> (r: &mut Self)
        requires
            old(self).spec_view().y0 + rows@.len() <= usize::MAX,
        ensures
            block_updated(*old(self), *r, rows@),
            *final(self) == *final(r),
    {
        let ghost old_rows = self.rows@;
        let ghost n0 = self.commands@.len();
        let ghost target = resized_formats(old_rows, rows@.len() as int);
        // cut or pad the shown rows to the new number of rows
        if self.rows.len() > rows.len() {
            self.rows.truncate(rows.len());
        }
        while self.rows.len() < rows.len()
            invariant
                target == resized_formats(old_rows, rows@.len() as int),
                self.rows@.len() <= rows@.len(),
                self.rows@.len() >= old_rows.len() || self.rows@.len() == rows@.len(),
                forall|i: int|
                    0 <= i < self.rows@.len() ==> formats_view((#[trigger] self.rows@[i]).formats@)
                        == target[i],
                self.commands@.len() == n0,
                self.commands@ == old(self).commands@,
                self.view == old(self).view,
                self.highlight == old(self).highlight,
            decreases rows@.len() - self.rows@.len(),
        {
            let ghost k = self.rows@.len() as int;
            assert(k >= old_rows.len());
            self.rows.push(RowUpdate::default());
            assert(target[k] == Seq::<(crate::tui::viewchar::LineFormatType, Seq<char>)>::empty());
            assert(formats_view(self.rows@[k].formats@) =~= target[k]);
        }
        let mut i: usize = 0;
        while i < rows.len()
            invariant
                target == resized_formats(old_rows, rows@.len() as int),
                old_rows == old(self).rows@,
                n0 == old(self).commands@.len(),
                self.rows@.len() == rows@.len(),
                old(self).spec_view().y0 + rows@.len() <= usize::MAX,
                self.view == old(self).view,
                self.highlight == old(self).highlight,
                i <= rows@.len(),
                forall|j: int|
                    0 <= j < i ==> formats_view((#[trigger] self.rows@[j]).formats@)
                        == formats_view(rows@[j].formats@),
                forall|j: int|
                    i <= j < rows@.len() ==> formats_view((#[trigger] self.rows@[j]).formats@)
                        == target[j],
                self.commands@.len() == n0 + changed_rows(target, rows@, i as int).len(),
                self.commands@.subrange(0, n0 as int) == old(self).commands@,
                forall|j: int|
                    0 <= j < changed_rows(target, rows@, i as int).len() ==> (
                    #[trigger] self.commands@[n0 + j] matches DrawCommand::Format(x, y, w, f)
                        && x == self.view.x0 && y == self.view.y0 + changed_rows(
                        target,
                        rows@,
                        i as int,
                    )[j] && w == self.view.w && formats_view(f@) == formats_view(
                        rows@[changed_rows(target, rows@, i as int)[j]].formats@,
                    )),
            decreases rows@.len() - i,
        {
            let same = formats_eq(&self.rows[i].formats, &rows[i].formats);
            if !same {
                let f = clone_formats(&rows[i].formats);
                let f2 = clone_formats(&rows[i].formats);
                let mut row = self.rows[i].clone_row();
                row.formats = f;
                self.rows.set(i, row);
                let c = DrawCommand::Format(self.view.x0, self.view.y0 + i, self.view.w, f2);
                self.commands.push(c);
            }
            proof {
                let ch = changed_rows(target, rows@, i + 1);
                assert(self.commands@.subrange(0, n0 as int) =~= old(self).commands@);
            }
            i = i + 1;
        }
        self
    }

    /// Hands out the pending drawing steps, wrapped in saving and restoring the cursor
    /// position when there are any.
    pub fn generate_commands(&mut self) -> (v: Vec<DrawCommand>)
        ensures
            commands_generated(*old(self), *final(self), v@),
    {
        if self.commands.len() > 0 {
            self.commands.insert(0, DrawCommand::SavePosition);
            self.commands.push(DrawCommand::RestorePosition);
        }
        let mut out = Vec::new();
        std::mem::swap(&mut out, &mut self.commands);
        proof {
            if old(self).commands@.len() > 0 {
                assert(out@ =~= seq![DrawCommand::SavePosition] + old(self).commands@ + seq![
                    DrawCommand::RestorePosition,
                ]);
            }
        }
        out
    }
}

} // verus!
