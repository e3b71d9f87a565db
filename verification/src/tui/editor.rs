use vstd::prelude::*;

use crate::rope::{line_count, line_start, rope_chars};
use crate::text::command::{command_parse, parse_spec, Command, CommandError};
use crate::text::variables::Variables;
use crate::tui::bufferblock::{
    block_command, laid_out, laid_out_from_start, line_joined, moved_in_line, moved_to_line,
    path_set, scrolled, searched, xy_cursor, BufferBlock,
};
use crate::tui::cursor::{clamp_char, Cursor};
use crate::text::buffer::{cut, put, typed};
use crate::tui::display::ViewPos;
use crate::tui::layout::{
    window_cleared, window_fits, window_resized, window_update_ok, window_updated, BufferWindow,
    WindowLayout,
};
use crate::text::bufferlist::{rotate_next, rotate_prev};
use crate::tui::viewchar::{tab_ok, LineFormat, LineFormatType};
use crate::tui::display::{block_updated, DrawCommand, RenderBlock};
use crate::tui::row::RowUpdate;
use crate::tui::layout::{pad_right, row_views};
use crate::text::buffer::Buffer;
use crate::config::BufferConfig;
use crate::strings::spaces_string;

verus! {

/// Settings of the editor as a whole.
pub struct EditorConfig {
    pub version: String,
}

/// What running the command line asks for.
#[derive(Debug)]
pub enum LineAction {
    /// Nothing: the line is too short, or starts with no known character.
    Nothing,
    /// Search for this text, backwards when the flag is set, and highlight it.
    Search(String, bool),
    /// Run these commands.
    Run(Vec<Command>),
    /// The line did not parse: show an error.
    Error,
}

/// The line without its first character.
pub open spec fn rest_of(line: Seq<char>) -> Seq<char> {
    line.subrange(1, line.len() as int)
}

/// Decides what a command line asks for: with more than one byte, `/` searches forward and
/// `?` backward for the rest of the line, `:` runs the commands the rest parses into (or
/// reports an error), and any other first character asks for nothing.
pub fn line_action(line: &str) -> (a: LineAction)
    requires
        vstd::utf8::encode_utf8(line@).len() <= usize::MAX,
        vstd::utf8::encode_utf8(line@).len() > 1 ==> line@.len() > 0 && (line@[0] as u32) < 128,
    ensures
        vstd::utf8::encode_utf8(line@).len() <= 1 ==> a is Nothing,
        vstd::utf8::encode_utf8(line@).len() > 1 ==> match line@[0] {
            '/' => a matches LineAction::Search(t, back) && t@ == rest_of(line@) && !back,
            '?' => a matches LineAction::Search(t, back) && t@ == rest_of(line@) && back,
            ':' => match parse_spec(rest_of(line@)) {
                None => a is Error,
                Some((set, name, value)) => a matches LineAction::Run(v) && v@.len() == 1 && if set {
                    v@[0] matches Command::VarSet(n, x) && n@ == name && x@ == value
                } else {
                    v@[0] matches Command::VarGet(n) && n@ == name
                },
            },
            _ => a is Nothing,
        },
{
    if line.len() <= 1 {
        return LineAction::Nothing;
    }
    let first = line.get_char(0);
    let n = line.unicode_len();
    let rest = line.substring_char(1, n);
    if first == '/' {
        LineAction::Search(rest.to_string(), false)
    } else if first == '?' {
        LineAction::Search(rest.to_string(), true)
    } else if first == ':' {
        match command_parse(rest) {
            Ok(commands) => LineAction::Run(commands),
            Err(CommandError::Error) => LineAction::Error,
        }
    } else {
        LineAction::Nothing
    }
}

/// `w` with its text block replaced by `m`.
pub open spec fn with_main(w: BufferWindow, m: BufferBlock) -> BufferWindow {
    BufferWindow { main: m, ..w }
}

/// The number of bytes of the line that holds position `c` (cut to the text's end).
pub open spec fn line_bytes_at(s: Seq<char>, c: int) -> int {
    let l = crate::rope::breaks_before(s, clamp_char(s, c)) as int;
    (vstd::utf8::encode_utf8(s.subrange(line_start(s, l), line_start(s, l + 1))).len() as usize) as int
}

/// The editor: its settings, its variables, its windows, and whether it was asked to quit.
pub struct Editor {
    pub config: EditorConfig,
    pub variables: Variables,
    pub layout: EditorSimpleLayout,
    pub is_quit: bool,
}

/// The shown window `w` can be put at `v` and laid out there: room for the gutter, the status
/// row and the rows of the screen, settings its cursors and text can be laid out with, and a
/// text and highlight of countable size.
pub open spec fn shown_ready(w: BufferWindow, v: ViewPos) -> bool {
    let b = w.main;
    &&& window_fits(w, v)
    &&& v.h <= 65536
    &&& v.x0 + 6 + 65536 <= usize::MAX
    &&& v.y0 + 65536 <= usize::MAX
    &&& tab_ok(b.spec_buf().config)
    &&& 4 * b.spec_text().len() <= i32::MAX
    &&& vstd::utf8::encode_utf8(b.spec_highlight()).len() <= i32::MAX
}

/// What `command` needs: a shown window that can be laid out at the layout's place, and for
/// each command what its step needs (a range that can be counted, a line that exists, a line
/// that is not empty).
pub open spec fn editor_ready(e: Editor, c: Command) -> bool {
    let v = e.layout.layout.view;
    let b = e.layout.layout.buffers@[0].main;
    let s = b.spec_text();
    &&& e.layout.layout.buffers@.len() > 0
    &&& shown_ready(e.layout.layout.buffers@[0], v)
    &&& match c {
        Command::RemoveChar(dx) => clamp_char(s, b.spec_cursor().c as int) + dx <= i32::MAX,
        Command::Line(n) => {
            &&& n - 1 > i64::MIN
            &&& n - 1 < 0 ==> -(n - 1) <= line_count(s) - 1
            &&& n - 1 >= 0 ==> n - 1 <= line_count(s)
        },
        Command::LineNav(_) => 0 < line_bytes_at(s, b.spec_cursor().c as int) <= i32::MAX,
        _ => true,
    }
}

/// Putting a window in place keeps it ready, keeps its text, and lays its cursors out on the
/// text: the cursor at its place cut to the text's end, on its line.
proof fn lemma_prepared(w: BufferWindow, w2: BufferWindow, v: ViewPos)
    requires
        window_resized(w, w2, v),
        shown_ready(w, v),
    ensures
        shown_ready(w2, v),
        w2.main.spec_buf() == w.main.spec_buf(),
        w2.main.spec_cursor().c == clamp_char(w.main.spec_text(), w.main.spec_cursor().c as int),
        w2.main.spec_cursor().line_len == line_bytes_at(w.main.spec_text(), w.main.spec_cursor().c as int),
        w2.main.spec_cursor().lc0 <= w.main.spec_text().len(),
        w2.main.spec_start().line_inx < line_count(w.main.spec_text()),
        w2.main.spec_geom() == ((v.w - 6) as usize, (v.h - 1) as usize, (v.x0 + 6) as usize, v.y0, 0usize),
        w2.main.spec_block_view() == (ViewPos {
            w: (v.w - 6) as usize,
            h: (v.h - 1) as usize,
            x0: (v.x0 + 6) as usize,
            y0: v.y0,
        }),
{
    let s = w.main.spec_text();
    let c1 = clamp_char(s, w.main.spec_cursor().c as int);
    crate::rope::lemma_line_of(s, c1);
    let b = w.main;
    let b2 = w2.main;
    assert(crate::tui::cursor::cursor_at(
        b2.spec_cursor(),
        s,
        (v.w - 6) as int,
        b.spec_cursor().config,
        b.spec_cursor().c as int,
        b.spec_cursor().x_hint as int,
    ));
    assert(b2.spec_cursor().config == b.spec_cursor().config);
    assert(b2.spec_start().config == b.spec_start().config);
    assert(window_fits(w2, v));
    assert(b2.spec_highlight() == b.spec_highlight());
    assert(b2.spec_text() == s);
}

/// What the editor does with `c` after the shown window `w1` has been put at the layout's
/// place `v` and its text block has seen the command: `w` is the shown window afterwards and
/// `out` the commands handed back.
pub open spec fn editor_rest(w1: BufferWindow, c: Command, v: ViewPos, w: BufferWindow, out: Seq<Command>) -> bool {
    match c {
        Command::Join => out.len() == 0 && exists|w2: BufferWindow, m: BufferBlock|
            {
                &&& window_resized(w1, w2, v)
                &&& line_joined(w2.main, m)
                &&& laid_out(m, w.main)
                &&& w == with_main(w2, w.main)
            },
        Command::Scroll(dy) => out.len() == 0 && exists|w2: BufferWindow, m: BufferBlock|
            {
                &&& window_resized(w1, w2, v)
                &&& scrolled(w2.main, m, dy as i32)
                &&& laid_out_from_start(m, w.main)
                &&& w == with_main(w2, w.main)
            },
        Command::Line(n) => out.len() == 0 && exists|w2: BufferWindow, m: BufferBlock|
            {
                &&& window_resized(w1, w2, v)
                &&& moved_to_line(w2.main, m, (n - 1) as i64)
                &&& laid_out(m, w.main)
                &&& w == with_main(w2, w.main)
            },
        Command::LineNav(dx) => out.len() == 0 && exists|w2: BufferWindow, m: BufferBlock|
            {
                &&& window_resized(w1, w2, v)
                &&& moved_in_line(w2.main, m, dx)
                &&& laid_out(m, w.main)
                &&& w == with_main(w2, w.main)
            },
        Command::Mouse(x, y) => out.len() == 0 && exists|w2: BufferWindow, p: Option<Cursor>|
            #![trigger window_resized(w1, w2, v), xy_cursor(w2.main, x as usize, y as usize, p)]
            {
                &&& window_resized(w1, w2, v)
                &&& xy_cursor(w2.main, x as usize, y as usize, p)
                &&& match p {
                    Some(cur) => {
                        &&& w == with_main(w2, w.main)
                        &&& w.main.spec_cursor() == cur
                        &&& w.main.spec_buf() == w2.main.spec_buf()
                        &&& w.main.spec_start() == w2.main.spec_start()
                        &&& w.main.spec_geom() == w2.main.spec_geom()
                        &&& w.main.spec_block_view() == w2.main.spec_block_view()
                        &&& w.main.spec_rows() == w2.main.spec_rows()
                    },
                    None => w == w2,
                }
            },
        Command::SaveAs(p) => out =~= seq![Command::Save] && exists|w2: BufferWindow, m: BufferBlock|
            {
                &&& window_resized(w1, w2, v)
                &&& path_set(w2.main, m, p@)
                &&& w == with_main(w2, m)
            },
        Command::Save => exists|w2: BufferWindow|
            {
                &&& window_resized(w1, w2, v)
                &&& w == w2
                &&& out.len() == 1
                &&& out[0] matches Command::SaveBuffer(p, t) && p@ == w2.main.spec_buf().path
                    && rope_chars(t) == w2.main.spec_text()
            },
        _ => w == w1 && out.len() == 0,
    }
}

/// What `command` does: the shown window is put at the layout's place and its text block
/// sees the command; then `Join`, `Scroll`, `Line`, `LineNav` and `Mouse` act on the block
/// (after putting the window in place again) and lay it out, `Save` hands out the text and
/// its path, `Quit` marks the editor as quit, and every other command does nothing more.
/// The other windows stay as they were.
pub open spec fn editor_step(before: Editor, c: Command, after: Editor, out: Seq<Command>) -> bool {
    let v = before.layout.layout.view;
    let ws = before.layout.layout.buffers@;
    &&& after.layout.layout.view == v
    &&& after.layout.layout.buffers@.len() == ws.len()
    &&& forall|i: int| 1 <= i < ws.len() ==> after.layout.layout.buffers@[i] == ws[i]
    &&& after.is_quit == (before.is_quit || c is Quit)
    &&& after.config == before.config
    &&& after.variables == before.variables
    &&& exists|w1: BufferWindow, m1: BufferBlock|
        {
            &&& window_resized(ws[0], w1, v)
            &&& block_command(w1.main, m1, c)
            &&& editor_rest(with_main(w1, m1), c, v, after.layout.layout.buffers@[0], out)
        }
}

/// Only `Quit` marks the editor as quit, and nothing clears the mark: after any command the
/// editor is quit exactly when it was before or the command is `Quit`; `Quit` hands back no
/// command.
pub proof fn lemma_quit_only_by_quit(before: Editor, c: Command, after: Editor, out: Seq<Command>)
    requires
        editor_step(before, c, after, out),
    ensures
        after.is_quit == (before.is_quit || c is Quit),
        c is Quit ==> after.is_quit && out.len() == 0,
{
}

impl Editor {
    /// An editor with `config`, showing the windows of `layout`, with no variables set.
    pub fn new(config: EditorConfig, layout: EditorSimpleLayout) -> (e: Self)
        ensures
            e.layout == layout,
            !e.is_quit,
    {
        Editor { config, variables: Variables::default(), layout, is_quit: false }
    }

    /// Forgets what the shown window's blocks show.
    pub fn clear(&mut self) -> (r: &mut Self)
        requires
            old(self).layout.layout.buffers@.len() > 0,
        ensures
            (*r).layout.layout.buffers@.len() == old(self).layout.layout.buffers@.len(),
            window_cleared(old(self).layout.layout.buffers@[0], (*r).layout.layout.buffers@[0]),
            forall|i: int|
                1 <= i < old(self).layout.layout.buffers@.len() ==> #[trigger] (*r).layout.layout.buffers@[i]
                    == old(self).layout.layout.buffers@[i],
            (*r).layout.layout.view == old(self).layout.layout.view,
            (*r).is_quit == old(self).is_quit,
            *final(self) == *final(r),
    {
        self.layout.clear();
        self
    }

    /// Puts the shown window in place and updates it.
    pub fn update(&mut self) -> (r: &mut Self)
        requires
            old(self).layout.layout.buffers@.len() > 0,
            shown_ready(old(self).layout.layout.buffers@[0], old(self).layout.layout.view),
        ensures
            shown_changed(old(self).layout.layout, (*r).layout.layout),
            exists|c: BufferWindow|
                {
                    &&& window_resized(old(self).layout.layout.buffers@[0], c, old(self).layout.layout.view)
                    &&& window_updated(c, (*r).layout.layout.buffers@[0])
                },
            (*r).is_quit == old(self).is_quit,
            *final(self) == *final(r),
    {
        self.layout.update();
        self
    }

    /// Puts the shown window in place and hands out its drawing steps.
    pub fn generate_commands(&mut self) -> (v: Vec<DrawCommand>)
        requires
            old(self).layout.layout.buffers@.len() > 0,
            window_fits(old(self).layout.layout.buffers@[0], old(self).layout.layout.view),
        ensures
            exists|w2: BufferWindow|
                {
                    &&& window_resized(old(self).layout.layout.buffers@[0], w2, old(self).layout.layout.view)
                    &&& v@ == crate::tui::bufferblock::framed(w2.status.pending())
                        + crate::tui::bufferblock::framed(w2.left.pending()) + (
                    crate::tui::bufferblock::framed(w2.main.spec_block_pending())
                        + crate::tui::bufferblock::framed(w2.main.spec_left_pending()) + if w2.main.spec_focused() {
                        w2.main.spec_rc_pending()
                    } else {
                        Seq::empty()
                    })
                },
            shown_changed(old(self).layout.layout, final(self).layout.layout),
    {
        self.layout.generate_commands()
    }

    /// Puts every window at `view`.
    pub fn resize(&mut self, view: ViewPos)
        requires
            forall|i: int|
                0 <= i < old(self).layout.layout.buffers@.len() ==> window_fits(#[trigger] old(self).layout.layout.buffers@[i], view),
        ensures
            final(self).layout.layout.view == old(self).layout.layout.view,
            final(self).layout.layout.buffers@.len() == old(self).layout.layout.buffers@.len(),
            forall|i: int|
                0 <= i < old(self).layout.layout.buffers@.len() ==> window_resized(
                    old(self).layout.layout.buffers@[i],
                    #[trigger] final(self).layout.layout.buffers@[i],
                    view,
                ),
            final(self).is_quit == old(self).is_quit,
    {
        self.layout.resize(view);
    }

    /// Carries out a command on the shown window and says which commands it hands back.
    pub fn command(&mut self, c: &Command) -> (out: Vec<Command>)
        requires
            editor_ready(*old(self), *c),
        ensures
            editor_step(*old(self), *c, *final(self), out@),
    {
        let ghost v = self.layout.layout.view;
        let ghost w0 = self.layout.layout.buffers@[0];
        let ghost w1: BufferWindow;
        let ghost m1: BufferBlock;
        {
            let w = self.layout.layout.get_buffer_mut();
            proof {
                w1 = *w;
                lemma_prepared(w0, w1, v);
            }
            w.main.command(c);
            proof {
                m1 = w.main;
            }
        }
        let ghost w1c = with_main(w1, m1);
        assert(self.layout.layout.buffers@[0] == w1c);
        let out: Vec<Command> = match c {
            Command::Join => {
                shown_join(&mut self.layout.layout);
                Vec::new()
            },
            Command::Scroll(dy) => {
                shown_scroll(&mut self.layout.layout, *dy as i32);
                Vec::new()
            },
            Command::Line(n) => {
                shown_line(&mut self.layout.layout, *n - 1);
                Vec::new()
            },
            Command::LineNav(dx) => {
                shown_line_nav(&mut self.layout.layout, *dx);
                Vec::new()
            },
            Command::Mouse(x, y) => {
                shown_mouse(&mut self.layout.layout, *x as usize, *y as usize);
                Vec::new()
            },
            Command::Save => shown_save(&mut self.layout.layout),
            Command::SaveAs(p) => {
                shown_set_path(&mut self.layout.layout, p.as_str());
                let out = vec![Command::Save];
                proof {
                    let w = self.layout.layout.buffers@[0];
                    assert(out@ =~= seq![Command::Save]);
                    let w2 = choose|w2: BufferWindow|
                        #[trigger] window_resized(w1c, w2, v) && path_set(w2.main, w.main, p@) && w
                            == with_main(w2, w.main);
                    assert(editor_rest(w1c, *c, v, w, out@));
                }
                out
            },
            _ => Vec::new(),
        };
        if let Command::Quit = c {
            self.is_quit = true;
        }
        proof {
            assert(window_resized(w0, w1, v) && block_command(w1.main, m1, *c));
            assert(editor_rest(w1c, *c, v, self.layout.layout.buffers@[0], out@));
        }
        out
    }
}

/// The layout with only its shown window changed.
pub open spec fn shown_changed(before: WindowLayout, after: WindowLayout) -> bool {
    &&& after.view == before.view
    &&& after.buffers@.len() == before.buffers@.len()
    &&& forall|i: int| 1 <= i < before.buffers@.len() ==> after.buffers@[i] == before.buffers@[i]
}

/// Joins the cursor's line with the next one in the shown window, and lays it out.
fn shown_join(l: &mut WindowLayout)
    requires
        old(l).buffers@.len() > 0,
        shown_ready(old(l).buffers@[0], old(l).view),
    ensures
        shown_changed(*old(l), *final(l)),
        editor_rest(old(l).buffers@[0], Command::Join, old(l).view, final(l).buffers@[0], Seq::empty()),
{
    let ghost v = l.view;
    let ghost w1 = l.buffers@[0];
    let w = l.get_buffer_mut();
    let ghost w2 = *w;
    proof {
        lemma_prepared(w1, w2, v);
    }
    w.main.join_line();
    let ghost m = w.main;
    w.main.update();
    proof {
        assert(laid_out(m, w.main));
    }
}

/// Moves the shown window's first row `dy` rows, and lays it out from there.
fn shown_scroll(l: &mut WindowLayout, dy: i32)
    requires
        old(l).buffers@.len() > 0,
        shown_ready(old(l).buffers@[0], old(l).view),
    ensures
        shown_changed(*old(l), *final(l)),
        exists|w2: BufferWindow, m: BufferBlock|
            {
                &&& window_resized(old(l).buffers@[0], w2, old(l).view)
                &&& scrolled(w2.main, m, dy)
                &&& laid_out_from_start(m, final(l).buffers@[0].main)
                &&& final(l).buffers@[0] == with_main(w2, final(l).buffers@[0].main)
            },
{
    let ghost v = l.view;
    let ghost w1 = l.buffers@[0];
    let w = l.get_buffer_mut();
    let ghost w2 = *w;
    proof {
        lemma_prepared(w1, w2, v);
    }
    w.main.scroll(dy);
    let ghost m = w.main;
    w.main.update_from_start();
}

/// Moves the shown window's cursor to the start of line `line_inx`, and lays it out.
fn shown_line(l: &mut WindowLayout, line_inx: i64)
    requires
        old(l).buffers@.len() > 0,
        shown_ready(old(l).buffers@[0], old(l).view),
        line_inx > i64::MIN,
        line_inx < 0 ==> -line_inx <= line_count(old(l).buffers@[0].main.spec_text()) - 1,
        line_inx >= 0 ==> line_inx <= line_count(old(l).buffers@[0].main.spec_text()),
    ensures
        shown_changed(*old(l), *final(l)),
        exists|w2: BufferWindow, m: BufferBlock|
            {
                &&& window_resized(old(l).buffers@[0], w2, old(l).view)
                &&& moved_to_line(w2.main, m, line_inx)
                &&& laid_out(m, final(l).buffers@[0].main)
                &&& final(l).buffers@[0] == with_main(w2, final(l).buffers@[0].main)
            },
{
    let ghost v = l.view;
    let ghost w1 = l.buffers@[0];
    let w = l.get_buffer_mut();
    let ghost w2 = *w;
    proof {
        lemma_prepared(w1, w2, v);
    }
    w.main.cursor_move_line(line_inx);
    let ghost m = w.main;
    w.main.update();
    proof {
        assert(laid_out(m, w.main));
    }
}

/// Moves the shown window's cursor to character `dx` of its line, and lays it out.
fn shown_line_nav(l: &mut WindowLayout, dx: i32)
    requires
        old(l).buffers@.len() > 0,
        shown_ready(old(l).buffers@[0], old(l).view),
        0 < line_bytes_at(
            old(l).buffers@[0].main.spec_text(),
            old(l).buffers@[0].main.spec_cursor().c as int,
        ) <= i32::MAX,
    ensures
        shown_changed(*old(l), *final(l)),
        exists|w2: BufferWindow, m: BufferBlock|
            {
                &&& window_resized(old(l).buffers@[0], w2, old(l).view)
                &&& moved_in_line(w2.main, m, dx)
                &&& laid_out(m, final(l).buffers@[0].main)
                &&& final(l).buffers@[0] == with_main(w2, final(l).buffers@[0].main)
            },
{
    let ghost v = l.view;
    let ghost w1 = l.buffers@[0];
    let w = l.get_buffer_mut();
    let ghost w2 = *w;
    proof {
        lemma_prepared(w1, w2, v);
    }
    w.main.cursor_move_lc(dx);
    let ghost m = w.main;
    w.main.update();
    proof {
        assert(laid_out(m, w.main));
    }
}

/// Moves the shown window's cursor to the character under screen cell `(x, y)`, if there is
/// one.
fn shown_mouse(l: &mut WindowLayout, x: usize, y: usize)
    requires
        old(l).buffers@.len() > 0,
        shown_ready(old(l).buffers@[0], old(l).view),
    ensures
        shown_changed(*old(l), *final(l)),
        exists|w2: BufferWindow, p: Option<Cursor>|
            #![trigger window_resized(old(l).buffers@[0], w2, old(l).view), xy_cursor(w2.main, x, y, p)]
            {
                &&& window_resized(old(l).buffers@[0], w2, old(l).view)
                &&& xy_cursor(w2.main, x, y, p)
                &&& match p {
                    Some(cur) => {
                        &&& final(l).buffers@[0] == with_main(w2, final(l).buffers@[0].main)
                        &&& final(l).buffers@[0].main.spec_cursor() == cur
                        &&& final(l).buffers@[0].main.spec_buf() == w2.main.spec_buf()
                        &&& final(l).buffers@[0].main.spec_start() == w2.main.spec_start()
                        &&& final(l).buffers@[0].main.spec_geom() == w2.main.spec_geom()
                        &&& final(l).buffers@[0].main.spec_block_view() == w2.main.spec_block_view()
                        &&& final(l).buffers@[0].main.spec_rows() == w2.main.spec_rows()
                    },
                    None => final(l).buffers@[0] == w2,
                }
            },
{
    let ghost v = l.view;
    let ghost w1 = l.buffers@[0];
    let w = l.get_buffer_mut();
    let ghost w2 = *w;
    proof {
        lemma_prepared(w1, w2, v);
    }
    let p = w.main.cursor_from_xy(x, y);
    let ghost gp = p;
    match p {
        Some(cur) => {
            w.main.cursor_move(cur);
        },
        None => {},
    }
    proof {
        assert(xy_cursor(w2.main, x, y, gp));
    }
}

/// Hands out the shown window's text and path to be saved.
fn shown_save(l: &mut WindowLayout) -> (out: Vec<Command>)
    requires
        old(l).buffers@.len() > 0,
        shown_ready(old(l).buffers@[0], old(l).view),
    ensures
        shown_changed(*old(l), *final(l)),
        window_resized(old(l).buffers@[0], final(l).buffers@[0], old(l).view),
        out@.len() == 1,
        out@[0] matches Command::SaveBuffer(p, t) && p@ == final(l).buffers@[0].main.spec_buf().path
            && rope_chars(t) == final(l).buffers@[0].main.spec_text(),
{
    let w = l.get_buffer_mut();
    let text = w.main.get_text();
    let path = w.main.get_path();
    let mut out: Vec<Command> = Vec::new();
    out.push(Command::SaveBuffer(path, text));
    out
}

/// Gives the shown window's buffer the path `p`.
fn shown_set_path(l: &mut WindowLayout, p: &str)
    requires
        old(l).buffers@.len() > 0,
        shown_ready(old(l).buffers@[0], old(l).view),
    ensures
        shown_changed(*old(l), *final(l)),
        exists|w2: BufferWindow|
            #[trigger] window_resized(old(l).buffers@[0], w2, old(l).view) && path_set(
                w2.main,
                final(l).buffers@[0].main,
                p@,
            ) && final(l).buffers@[0] == with_main(w2, final(l).buffers@[0].main),
{
    let w = l.get_buffer_mut();
    let ghost w2 = *w;
    w.main.set_path(p);
    assert(window_resized(old(l).buffers@[0], w2, old(l).view));
}

/// `after` is `before` with the focus, all else kept.
pub open spec fn focused(before: BufferBlock, after: BufferBlock) -> bool {
    &&& after.spec_focused()
    &&& after.spec_buf() == before.spec_buf()
    &&& after.spec_cursor() == before.spec_cursor()
    &&& after.spec_start() == before.spec_start()
    &&& after.spec_geom() == before.spec_geom()
    &&& after.spec_block_view() == before.spec_block_view()
    &&& after.spec_highlight() == before.spec_highlight()
    &&& after.spec_rows() == before.spec_rows()
}

/// The place a terminal of `sx` columns and `sy` rows offers.
pub open spec fn screen_view(sx: u16, sy: u16) -> ViewPos {
    ViewPos { w: sx as usize, h: sy as usize, x0: 0, y0: 0 }
}

/// What `refresh` needs: windows that fit the terminal, and a shown window that can be laid
/// out at the layout's place.
pub open spec fn refresh_ready(e: Editor, sx: u16, sy: u16) -> bool {
    &&& e.layout.layout.buffers@.len() > 0
    &&& forall|i: int|
        0 <= i < e.layout.layout.buffers@.len() ==> window_fits(
            #[trigger] e.layout.layout.buffers@[i],
            screen_view(sx, sy),
        )
    &&& shown_ready(e.layout.layout.buffers@[0], e.layout.layout.view)
}

/// What `refresh` does: every window is put at the terminal's size; the shown one is then
/// cleared, put back at the layout's place, updated, put in place once more and given the
/// focus.
pub open spec fn editor_refreshed(before: Editor, sx: u16, sy: u16, after: Editor) -> bool {
    let nv = screen_view(sx, sy);
    let v = before.layout.layout.view;
    let ws = before.layout.layout.buffers@;
    let ws2 = after.layout.layout.buffers@;
    &&& after.layout.layout.view == v
    &&& ws2.len() == ws.len()
    &&& after.is_quit == before.is_quit
    &&& after.config == before.config
    &&& after.variables == before.variables
    &&& forall|i: int| 1 <= i < ws.len() ==> window_resized(ws[i], #[trigger] ws2[i], nv)
    &&& exists|a: BufferWindow, b: BufferWindow, c: BufferWindow, d: BufferWindow, e: BufferWindow|
        {
            &&& window_resized(ws[0], a, nv)
            &&& window_cleared(a, b)
            &&& window_resized(b, c, v)
            &&& window_updated(c, d)
            &&& window_resized(d, e, v)
            &&& focused(e.main, ws2[0].main)
            &&& ws2[0] == with_main(e, ws2[0].main)
        }
}

impl Editor {
    /// Takes the terminal's size: every window is put at that size, and the shown one is
    /// cleared, laid out again and given the focus.
    pub fn refresh(&mut self, sx: u16, sy: u16)
        requires
            refresh_ready(*old(self), sx, sy),
        ensures
            editor_refreshed(*old(self), sx, sy, *final(self)),
    {
        let view = ViewPos { w: sx as usize, h: sy as usize, x0: 0, y0: 0 };
        let ghost v = self.layout.layout.view;
        let ghost w0 = self.layout.layout.buffers@[0];
        self.layout.layout.resize(view);
        let ghost a = self.layout.layout.buffers@[0];
        self.layout.layout.clear();
        let ghost b = self.layout.layout.buffers@[0];
        proof {
            assert(window_fits(w0, view));
            lemma_cleared_ready(w0, a, b, view, v);
        }
        shown_update_focus(&mut self.layout.layout);
    }
}

/// A window put at another place and cleared can still be laid out where it was ready.
proof fn lemma_cleared_ready(w0: BufferWindow, a: BufferWindow, b: BufferWindow, nv: ViewPos, v: ViewPos)
    requires
        window_resized(w0, a, nv),
        window_cleared(a, b),
        shown_ready(w0, v),
        window_fits(w0, nv),
    ensures
        shown_ready(b, v),
{
    let s = w0.main.spec_text();
    assert(crate::tui::cursor::cursor_at(
        a.main.spec_cursor(),
        s,
        (nv.w - 6) as int,
        w0.main.spec_cursor().config,
        w0.main.spec_cursor().c as int,
        w0.main.spec_cursor().x_hint as int,
    ));
    assert(b.main.spec_cursor().config == w0.main.spec_cursor().config);
    assert(b.main.spec_start().config == w0.main.spec_start().config);
}

/// Puts the shown window in place and updates it.
#[verifier::rlimit(100)]
fn shown_update(l: &mut WindowLayout)
    requires
        old(l).buffers@.len() > 0,
        shown_ready(old(l).buffers@[0], old(l).view),
    ensures
        shown_changed(*old(l), *final(l)),
        exists|c: BufferWindow|
            {
                &&& window_resized(old(l).buffers@[0], c, old(l).view)
                &&& window_updated(c, final(l).buffers@[0])
            },
        tab_ok(final(l).buffers@[0].main.spec_cursor().config),
        tab_ok(final(l).buffers@[0].main.spec_start().config),
        shown_ready(final(l).buffers@[0], old(l).view),
{
    let ghost v = l.view;
    let ghost b = l.buffers@[0];
    let w = l.get_buffer_mut();
    let ghost c = *w;
    proof {
        lemma_prepared(b, c, v);
    }
    w.update();
    proof {
        crate::tui::layout::lemma_window_updated(c, *w);
    }
}

/// Puts the shown window in place and gives its text block the focus.
fn shown_focus(l: &mut WindowLayout)
    requires
        old(l).buffers@.len() > 0,
        window_fits(old(l).buffers@[0], old(l).view),
    ensures
        shown_changed(*old(l), *final(l)),
        exists|e: BufferWindow|
            {
                &&& window_resized(old(l).buffers@[0], e, old(l).view)
                &&& focused(e.main, final(l).buffers@[0].main)
                &&& final(l).buffers@[0] == with_main(e, final(l).buffers@[0].main)
            },
{
    let ghost b = l.buffers@[0];
    let w = l.get_buffer_mut();
    let ghost e = *w;
    w.main.set_focus(true);
    proof {
        assert(window_resized(b, e, l.view));
        assert(focused(e.main, l.buffers@[0].main));
        assert(l.buffers@[0] == with_main(e, l.buffers@[0].main));
    }
}

/// `after` is `before` with the focus set to `f`, all else kept.
pub open spec fn focus_is(before: BufferBlock, after: BufferBlock, f: bool) -> bool {
    &&& after.spec_focused() == f
    &&& after.spec_buf() == before.spec_buf()
    &&& after.spec_cursor() == before.spec_cursor()
    &&& after.spec_start() == before.spec_start()
    &&& after.spec_geom() == before.spec_geom()
    &&& after.spec_block_view() == before.spec_block_view()
    &&& after.spec_highlight() == before.spec_highlight()
    &&& after.spec_rows() == before.spec_rows()
}

/// Puts the shown window in place and sets its text block's focus to `f`.
fn shown_set_focus(l: &mut WindowLayout, f: bool)
    requires
        old(l).buffers@.len() > 0,
        window_fits(old(l).buffers@[0], old(l).view),
    ensures
        shown_changed(*old(l), *final(l)),
        exists|e: BufferWindow|
            {
                &&& window_resized(old(l).buffers@[0], e, old(l).view)
                &&& focus_is(e.main, final(l).buffers@[0].main, f)
                &&& final(l).buffers@[0] == with_main(e, final(l).buffers@[0].main)
            },
{
    let ghost b = l.buffers@[0];
    let w = l.get_buffer_mut();
    let ghost e = *w;
    w.main.set_focus(f);
    proof {
        assert(window_resized(b, e, l.view));
        assert(focus_is(e.main, l.buffers@[0].main, f));
        assert(l.buffers@[0] == with_main(e, l.buffers@[0].main));
    }
}

/// Clears the shown window and updates it, where it stands.
#[verifier::rlimit(100)]
fn front_refresh(l: &mut WindowLayout)
    requires
        old(l).buffers@.len() > 0,
        window_update_ok(old(l).buffers@[0]),
    ensures
        shown_changed(*old(l), *final(l)),
        exists|c: BufferWindow|
            {
                &&& window_cleared(old(l).buffers@[0], c)
                &&& window_updated(c, final(l).buffers@[0])
            },
        tab_ok(final(l).buffers@[0].main.spec_cursor().config),
        tab_ok(final(l).buffers@[0].main.spec_start().config),
{
    let w = l.buffers.get_mut();
    w.clear();
    let ghost c = *w;
    w.update();
    proof {
        crate::tui::layout::lemma_window_updated(c, *w);
    }
}

/// Puts the shown window in place and updates it, then puts it in place again and gives its
/// text block the focus.
fn shown_update_focus(l: &mut WindowLayout)
    requires
        old(l).buffers@.len() > 0,
        shown_ready(old(l).buffers@[0], old(l).view),
    ensures
        shown_changed(*old(l), *final(l)),
        exists|c: BufferWindow, d: BufferWindow, e: BufferWindow|
            {
                &&& window_resized(old(l).buffers@[0], c, old(l).view)
                &&& window_updated(c, d)
                &&& window_resized(d, e, old(l).view)
                &&& focused(e.main, final(l).buffers@[0].main)
                &&& final(l).buffers@[0] == with_main(e, final(l).buffers@[0].main)
            },
{
    let ghost v = l.view;
    shown_update(l);
    shown_focus(l);
}

/// Where the header row of a layout at `v` goes: its first row.
pub open spec fn header_view(v: ViewPos) -> ViewPos {
    ViewPos { w: v.w, h: 1, x0: v.x0, y0: v.y0 }
}

/// Where the windows of a layout at `v` go: between the header row and the command row.
pub open spec fn windows_view(v: ViewPos) -> ViewPos {
    ViewPos { w: v.w, h: (v.h - 2) as usize, x0: v.x0, y0: (v.y0 + 1) as usize }
}

/// Where the command row of a layout at `v` goes: its last row.
pub open spec fn cmd_view(v: ViewPos) -> ViewPos {
    ViewPos { w: v.w, h: 1, x0: v.x0, y0: (v.y0 + v.h - 1) as usize }
}

/// The command block can be laid out: a row of width at least one, settings its cursors and
/// text can be laid out with, a text and highlight of countable size, room below its blocks.
pub open spec fn cmd_ready(b: BufferBlock) -> bool {
    &&& b.spec_geom().0 > 0
    &&& b.spec_geom().1 <= 65536
    &&& tab_ok(b.spec_cursor().config)
    &&& tab_ok(b.spec_start().config)
    &&& tab_ok(b.spec_buf().config)
    &&& 4 * b.spec_text().len() <= i32::MAX
    &&& vstd::utf8::encode_utf8(b.spec_highlight()).len() <= i32::MAX
    &&& b.spec_block_view().x0 + 65536 <= usize::MAX
    &&& b.spec_block_view().y0 + 65536 <= usize::MAX
    &&& b.spec_left().spec_view().y0 + 1 <= usize::MAX
}

/// The first line of `s`, its line end included.
pub open spec fn first_line(s: Seq<char>) -> Seq<char> {
    s.subrange(line_start(s, 0), line_start(s, 1))
}

/// `after` is the command block `before` laid out and showing the prompt `prompt` in its margin
/// and `text`, in format `f` and padded to the block's width, in its row.
pub open spec fn cmd_shown(before: BufferBlock, after: BufferBlock, prompt: Seq<char>, f: LineFormatType, text: Seq<char>) -> bool {
    &&& after.spec_buf() == before.spec_buf()
    &&& after.spec_geom() == before.spec_geom()
    &&& after.spec_block_view() == before.spec_block_view()
    &&& after.spec_highlight() == before.spec_highlight()
    &&& after.spec_focused() == before.spec_focused()
    &&& row_views(after.spec_left().spec_rows()) == seq![seq![(LineFormatType::Normal, prompt)]]
    &&& row_views(after.spec_block().spec_rows()) == seq![
        seq![(f, pad_right(text, before.spec_block_view().w as int))],
    ]
}

/// `after` is `before` laid out again (see `laid_out`); kept folded where a proof only passes it
/// on.
#[verifier::opaque]
pub open spec fn block_laid_out(before: BufferBlock, after: BufferBlock) -> bool {
    laid_out(before, after)
}

/// The editor's screen: a header row, the windows, and a command row for typing commands.
pub struct EditorComplexLayout {
    pub header: RenderBlock,
    pub cmd_block: BufferBlock,
    pub layout: WindowLayout,
    pub highlight: String,
    pub view: ViewPos,
    pub version: String,
}

impl EditorComplexLayout {
    /// The command line: the first line of the command block's text.
    pub fn get_command_line(&self) -> (s: String)
        ensures
            s@ == first_line(self.cmd_block.spec_text()),
    {
        let text = self.cmd_block.get_text();
        proof {
            crate::rope::lemma_line_start(rope_chars(text), 0);
        }
        crate::rope::rope_line_string(&text, 0)
    }

    /// Puts `prompt` in the command block's margin and `text`, padded to the block's width, in
    /// its row.
    fn show_in_cmd(&mut self, prompt: &str, f: LineFormatType, text: &str)
        requires
            old(self).cmd_block.spec_left().spec_view().y0 + 1 <= usize::MAX,
            old(self).cmd_block.spec_block_view().y0 + 1 <= usize::MAX,
        ensures
            cmd_shown(old(self).cmd_block, final(self).cmd_block, prompt@, f, text@),
            final(self).cmd_block.spec_cursor() == old(self).cmd_block.spec_cursor(),
            final(self).cmd_block.spec_start() == old(self).cmd_block.spec_start(),
            final(self).cmd_block.spec_rows() == old(self).cmd_block.spec_rows(),
            final(self).cmd_block.spec_left().spec_view() == old(self).cmd_block.spec_left().spec_view(),
            final(self).header == old(self).header,
            final(self).layout == old(self).layout,
            final(self).highlight == old(self).highlight,
            final(self).view == old(self).view,
            final(self).version == old(self).version,
    {
        let mut left: Vec<RowUpdate> = Vec::new();
        let p = LineFormat::new(LineFormatType::Normal, prompt.to_string());
        left.push(RowUpdate::from(p));
        let ghost lv = left@;
        self.cmd_block.update_left_rows(left);
        let w = self.cmd_block.block_width();
        let mut t = text.to_string();
        let n = text.unicode_len();
        if n < w {
            let pad = spaces_string(w - n);
            t.append(pad.as_str());
        }
        let mut rows: Vec<RowUpdate> = Vec::new();
        let ghost tv = t@;
        rows.push(RowUpdate::from(LineFormat::new(f, t)));
        let ghost rv = rows@;
        self.cmd_block.update_rows(rows);
        proof {
            let gl = row_views(self.cmd_block.spec_left().spec_rows());
            assert(formats_view_one(lv[0]) == seq![(LineFormatType::Normal, prompt@)]);
            assert(gl[0] == crate::tui::row::formats_view(lv[0].formats@));
            assert(gl =~= seq![seq![(LineFormatType::Normal, prompt@)]]);
            let gb = row_views(self.cmd_block.spec_block().spec_rows());
            assert(gb[0] == crate::tui::row::formats_view(rv[0].formats@));
            assert(crate::tui::row::formats_view(rv[0].formats@) =~= seq![(f, tv)]);
            assert(gb =~= seq![seq![(f, pad_right(text@, old(self).cmd_block.spec_block_view().w as int))]]);
        }
    }
}

impl EditorComplexLayout {
    /// Lays out the command block and shows its text after the `>> ` prompt.
    #[verifier::rlimit(100)]
    pub fn update_cmd_normal(&mut self)
        requires
            cmd_ready(old(self).cmd_block),
        ensures
            exists|m: BufferBlock|
                {
                    &&& block_laid_out(old(self).cmd_block, m)
                    &&& cmd_shown(m, final(self).cmd_block, ">> "@, LineFormatType::Normal, old(self).cmd_block.spec_text())
                    &&& final(self).cmd_block.spec_cursor() == m.spec_cursor()
                    &&& final(self).cmd_block.spec_start() == m.spec_start()
                },
            final(self).cmd_block.spec_buf() == old(self).cmd_block.spec_buf(),
            final(self).cmd_block.spec_geom() == old(self).cmd_block.spec_geom(),
            final(self).cmd_block.spec_block_view() == old(self).cmd_block.spec_block_view(),
            final(self).cmd_block.spec_highlight() == old(self).cmd_block.spec_highlight(),
            final(self).cmd_block.spec_focused() == old(self).cmd_block.spec_focused(),
            final(self).cmd_block.spec_left().spec_view() == old(self).cmd_block.spec_left().spec_view(),
            final(self).cmd_block.spec_cursor().config == old(self).cmd_block.spec_cursor().config,
            final(self).cmd_block.spec_start().config == old(self).cmd_block.spec_cursor().config,
            final(self).header == old(self).header,
            final(self).layout == old(self).layout,
            final(self).highlight == old(self).highlight,
            final(self).view == old(self).view,
            final(self).version == old(self).version,
    {
        self.cmd_block.update();
        let ghost m = self.cmd_block;
        proof {
            assert(block_laid_out(old(self).cmd_block, m)) by {
                reveal(block_laid_out);
            }
        }
        let text = self.cmd_block.get_text();
        let n = crate::rope::rope_len_chars(&text);
        let line = crate::rope::rope_slice_string(&text, 0, n);
        assert(line@ =~= old(self).cmd_block.spec_text());
        self.show_in_cmd(">> ", LineFormatType::Normal, line.as_str());
        proof {
            assert(cmd_shown(m, self.cmd_block, ">> "@, LineFormatType::Normal, old(self).cmd_block.spec_text()));
        }
    }

    /// Shows `s`, in bold, in the command row, after an `OUT` prompt.
    pub fn command_output(&mut self, s: &String)
        requires
            old(self).cmd_block.spec_left().spec_view().y0 + 1 <= usize::MAX,
            old(self).cmd_block.spec_block_view().y0 + 1 <= usize::MAX,
        ensures
            cmd_shown(old(self).cmd_block, final(self).cmd_block, "OUT"@, LineFormatType::Bold, s@),
            final(self).cmd_block.spec_cursor() == old(self).cmd_block.spec_cursor(),
            final(self).cmd_block.spec_start() == old(self).cmd_block.spec_start(),
            final(self).header == old(self).header,
            final(self).layout == old(self).layout,
            final(self).highlight == old(self).highlight,
            final(self).view == old(self).view,
            final(self).version == old(self).version,
    {
        self.show_in_cmd("OUT", LineFormatType::Bold, s.as_str());
    }

    /// Empties the command line and gives the focus back to the shown window.
    pub fn command_reset(&mut self)
        requires
            reset_ready(*old(self)),
        ensures
            command_was_reset(*old(self), *final(self)),
    {
        reset_cmd(&mut self.cmd_block);
        let ghost b1 = self.cmd_block;
        shown_focus(&mut self.layout);
        self.update_cmd_normal();
        proof {
            let b = self.cmd_block;
            assert(b.spec_text().len() == 0);
            assert(!b.spec_focused());
            assert(b.spec_geom() == old(self).cmd_block.spec_geom());
            assert(b.spec_block_view() == old(self).cmd_block.spec_block_view());
            assert(b.spec_left().spec_view() == old(self).cmd_block.spec_left().spec_view());
            assert(tab_ok(b.spec_cursor().config));
            assert(tab_ok(b.spec_start().config));
            assert(tab_ok(b.spec_buf().config));
            assert(row_views(b.spec_left().spec_rows()) == seq![seq![(LineFormatType::Normal, ">> "@)]]);
            assert(b1.spec_text() =~= Seq::<char>::empty());
            assert(row_views(b.spec_block().spec_rows()) == seq![
                seq![(LineFormatType::Normal, pad_right(Seq::empty(), old(self).cmd_block.spec_block_view().w as int))],
            ]);
        }
    }

    /// Gives up the command line: the same as `command_reset`.
    pub fn command_cancel(&mut self)
        requires
            reset_ready(*old(self)),
        ensures
            command_was_reset(*old(self), *final(self)),
    {
        self.command_reset();
    }

    /// Takes the command line as it stands: a line starting with `/` or `?` highlights the rest
    /// of it in the shown window; a line of at most one byte clears the highlight; then the
    /// command row is shown again.
    pub fn command_update(&mut self)
        requires
            update_ready(*old(self)),
        ensures
            command_updated(*old(self), *final(self)),
    {
        let line = self.get_command_line();
        let ghost l = line@;
        if line.as_str().len() > 1 {
            let first = line.as_str().get_char(0);
            let n = line.as_str().unicode_len();
            let last = line.as_str().substring_char(1, n);
            if first == '/' || first == '?' {
                self.highlight = last.to_string();
                let ghost v = self.layout.view;
                let ghost w0 = self.layout.buffers@[0];
                let w = self.layout.get_buffer_mut();
                let ghost w2 = *w;
                w.main.clear();
                w.main.set_highlight(last.to_string());
                proof {
                    let a = self.layout.buffers@[0];
                    assert(window_resized(w0, w2, v));
                    assert(a.main.spec_highlight() == l.subrange(1, l.len() as int));
                    assert(a.main.spec_start() == w2.main.spec_start());
                    assert(a == with_main(w2, a.main));
                }
            }
        } else {
            self.highlight = String::new();
        }
        let ghost before_show = *self;
        self.update_cmd_normal();
        proof {
            assert(self.layout == before_show.layout);
            assert(self.highlight == before_show.highlight);
        }
    }
}

/// Empties the command block, lays it out, and takes its focus away.
#[verifier::rlimit(100)]
fn reset_cmd(b: &mut BufferBlock)
    requires
        old(b).spec_geom().0 > 0,
        old(b).spec_geom().1 <= 65536,
        vstd::utf8::encode_utf8(old(b).spec_highlight()).len() <= i32::MAX,
        old(b).spec_block_view().x0 + 65536 <= usize::MAX,
        old(b).spec_block_view().y0 + 65536 <= usize::MAX,
    ensures
        final(b).spec_text().len() == 0,
        final(b).spec_buf().path.len() == 0,
        final(b).spec_buf().config == BufferConfig::spec_default(),
        !final(b).spec_focused(),
        old(b).spec_left().spec_view().y0 + 1 <= usize::MAX ==> cmd_ready(*final(b)),
        final(b).spec_geom() == old(b).spec_geom(),
        final(b).spec_block_view() == old(b).spec_block_view(),
        final(b).spec_highlight() == old(b).spec_highlight(),
        final(b).spec_left().spec_view() == old(b).spec_left().spec_view(),
        tab_ok(final(b).spec_cursor().config),
        tab_ok(final(b).spec_start().config),
{
    b.reset_buffer();
    b.update();
    b.set_focus(false);
}

/// What `command_reset` needs: a command block that can be laid out once empty, and a shown
/// window that fits the layout.
pub open spec fn reset_ready(l: EditorComplexLayout) -> bool {
    let b = l.cmd_block;
    &&& b.spec_geom().0 > 0
    &&& b.spec_geom().1 <= 65536
    &&& vstd::utf8::encode_utf8(b.spec_highlight()).len() <= i32::MAX
    &&& b.spec_block_view().x0 + 65536 <= usize::MAX
    &&& b.spec_block_view().y0 + 65536 <= usize::MAX
    &&& b.spec_left().spec_view().y0 + 1 <= usize::MAX
    &&& l.layout.buffers@.len() > 0
    &&& window_fits(l.layout.buffers@[0], l.layout.view)
}

/// `after` is `before` with the command line emptied and unfocused, shown again after its
/// prompt, and the shown window put in place and focused.
pub open spec fn command_was_reset(before: EditorComplexLayout, after: EditorComplexLayout) -> bool {
    &&& after.cmd_block.spec_text().len() == 0
    &&& after.cmd_block.spec_buf().path.len() == 0
    &&& !after.cmd_block.spec_focused()
    &&& row_views(after.cmd_block.spec_left().spec_rows()) == seq![seq![(LineFormatType::Normal, ">> "@)]]
    &&& row_views(after.cmd_block.spec_block().spec_rows()) == seq![
        seq![(LineFormatType::Normal, pad_right(Seq::empty(), before.cmd_block.spec_block_view().w as int))],
    ]
    &&& after.cmd_block.spec_geom() == before.cmd_block.spec_geom()
    &&& after.cmd_block.spec_block_view() == before.cmd_block.spec_block_view()
    &&& after.cmd_block.spec_highlight() == before.cmd_block.spec_highlight()
    &&& after.cmd_block.spec_left().spec_view() == before.cmd_block.spec_left().spec_view()
    &&& tab_ok(after.cmd_block.spec_cursor().config)
    &&& tab_ok(after.cmd_block.spec_start().config)
    &&& tab_ok(after.cmd_block.spec_buf().config)
    &&& shown_changed(before.layout, after.layout)
    &&& exists|e: BufferWindow|
        {
            &&& window_resized(before.layout.buffers@[0], e, before.layout.view)
            &&& focused(e.main, after.layout.buffers@[0].main)
            &&& after.layout.buffers@[0] == with_main(e, after.layout.buffers@[0].main)
        }
    &&& after.header == before.header
    &&& after.highlight == before.highlight
    &&& after.view == before.view
    &&& after.version == before.version
}

/// What `command_update` needs: a command line whose first character is one byte when it has
/// more than one, a command block that can be laid out, and a shown window that fits.
pub open spec fn update_ready(l: EditorComplexLayout) -> bool {
    let line = first_line(l.cmd_block.spec_text());
    &&& vstd::utf8::encode_utf8(line).len() <= usize::MAX
    &&& vstd::utf8::encode_utf8(line).len() > 1 ==> line.len() > 0 && (line[0] as u32) < 128
    &&& cmd_ready(l.cmd_block)
    &&& l.layout.buffers@.len() > 0
    &&& window_fits(l.layout.buffers@[0], l.layout.view)
}

/// `after` is `before` with the command line taken as it stands: after `/` or `?` the rest
/// of the line is the highlight, also of the shown window (put in place and cleared); a line
/// of at most one byte clears the highlight; the command row is shown again.
pub open spec fn command_updated(before: EditorComplexLayout, after: EditorComplexLayout) -> bool {
    let line = first_line(before.cmd_block.spec_text());
    let searching = vstd::utf8::encode_utf8(line).len() > 1 && (line[0] == '/' || line[0] == '?');
    &&& exists|m: BufferBlock|
        {
            &&& block_laid_out(before.cmd_block, m)
            &&& cmd_shown(m, after.cmd_block, ">> "@, LineFormatType::Normal, before.cmd_block.spec_text())
        }
    &&& after.cmd_block.spec_buf() == before.cmd_block.spec_buf()
    &&& after.cmd_block.spec_focused() == before.cmd_block.spec_focused()
    &&& after.cmd_block.spec_geom() == before.cmd_block.spec_geom()
    &&& after.cmd_block.spec_block_view() == before.cmd_block.spec_block_view()
    &&& after.cmd_block.spec_highlight() == before.cmd_block.spec_highlight()
    &&& after.cmd_block.spec_left().spec_view() == before.cmd_block.spec_left().spec_view()
    &&& after.cmd_block.spec_cursor().config == before.cmd_block.spec_cursor().config
    &&& after.cmd_block.spec_start().config == before.cmd_block.spec_cursor().config
    &&& after.highlight@ == if searching {
        line.subrange(1, line.len() as int)
    } else if vstd::utf8::encode_utf8(line).len() <= 1 {
        Seq::empty()
    } else {
        before.highlight@
    }
    &&& shown_changed(before.layout, after.layout)
    &&& if searching {
        exists|w2: BufferWindow|
            {
                &&& window_resized(before.layout.buffers@[0], w2, before.layout.view)
                &&& after.layout.buffers@[0].main.spec_highlight() == line.subrange(1, line.len() as int)
                &&& after.layout.buffers@[0].main.spec_buf() == w2.main.spec_buf()
                &&& after.layout.buffers@[0].main.spec_cursor() == w2.main.spec_cursor()
                &&& after.layout.buffers@[0].main.spec_start() == w2.main.spec_start()
                &&& after.layout.buffers@[0].main.spec_block().spec_rows().len() == 0
                &&& after.layout.buffers@[0] == with_main(w2, after.layout.buffers@[0].main)
            }
    } else {
        after.layout == before.layout
    }
    &&& after.header == before.header
    &&& after.view == before.view
    &&& after.version == before.version
}

/// Puts the shown window in place and gives the header row's text for it.
fn shown_header(l: &mut WindowLayout, version: &str) -> (h: Option<String>)
    requires
        old(l).buffers@.len() > 0,
        window_fits(old(l).buffers@[0], old(l).view),
    ensures
        shown_changed(*old(l), *final(l)),
        window_resized(old(l).buffers@[0], final(l).buffers@[0], old(l).view),
        h matches Some(t) ==> t@ == crate::tui::bufferblock::header_text(
            version@,
            final(l).buffers@[0].main.spec_buf().path,
            final(l).buffers@[0].main.spec_cursor().summary(),
            (final(l).buffers@[0].main.spec_cursor().line_inx + 1) as nat,
            line_count(final(l).buffers@[0].main.spec_text()),
            final(l).buffers@[0].main.spec_block_view().w,
        ),
        h is None <==> !final(l).buffers@[0].main.spec_cursor().summary_ok(),
{
    let w = l.get_buffer_mut();
    w.main.header_line(version)
}

/// What the layout's `update` needs: a shown window that can be laid out at the layout's
/// place, and room below the header row.
pub open spec fn complex_update_ready(l: EditorComplexLayout) -> bool {
    &&& l.layout.buffers@.len() > 0
    &&& shown_ready(l.layout.buffers@[0], l.layout.view)
    &&& l.header.spec_view().y0 + 1 <= usize::MAX
}

/// `after` is `before` updated: the shown window put in place, the header row showing its
/// account (left as it was when the cursor's numbers cannot be counted), and the shown window
/// put in place again and updated.
pub open spec fn complex_updated(before: EditorComplexLayout, after: EditorComplexLayout) -> bool {
    let v = before.layout.view;
    &&& shown_changed(before.layout, after.layout)
    &&& exists|w2: BufferWindow, c: BufferWindow|
        {
            &&& window_resized(before.layout.buffers@[0], w2, v)
            &&& (if w2.main.spec_cursor().summary_ok() {
                row_views(after.header.spec_rows()) == seq![
                    seq![
                        (
                            LineFormatType::Highlight,
                            crate::tui::bufferblock::header_text(
                                before.version@,
                                w2.main.spec_buf().path,
                                w2.main.spec_cursor().summary(),
                                (w2.main.spec_cursor().line_inx + 1) as nat,
                                line_count(w2.main.spec_text()),
                                w2.main.spec_block_view().w,
                            ),
                        ),
                    ],
                ]
            } else {
                after.header == before.header
            })
            &&& window_resized(w2, c, v)
            &&& window_updated(c, after.layout.buffers@[0])
        }
    &&& after.header.spec_view() == before.header.spec_view()
    &&& after.cmd_block == before.cmd_block
    &&& after.highlight == before.highlight
    &&& after.view == before.view
    &&& after.version == before.version
}

impl EditorComplexLayout {
    /// Writes the header row for the shown window, and updates the shown window.
    pub fn update(&mut self)
        requires
            complex_update_ready(*old(self)),
        ensures
            complex_updated(*old(self), *final(self)),
            complex_update_ready(*final(self)),
    {
        let ghost v = self.layout.view;
        let ghost w0 = self.layout.buffers@[0];
        let h = shown_header(&mut self.layout, self.version.as_str());
        let ghost w2 = self.layout.buffers@[0];
        proof {
            lemma_prepared(w0, w2, v);
        }
        match h {
            Some(t) => {
                let ghost tv = t@;
                let mut rows: Vec<RowUpdate> = Vec::new();
                rows.push(RowUpdate::from(LineFormat::new(LineFormatType::Highlight, t)));
                let ghost rv = rows@;
                self.header.update_rows(rows);
                proof {
                    let g = row_views(self.header.spec_rows());
                    assert(g[0] == crate::tui::row::formats_view(rv[0].formats@));
                    assert(crate::tui::row::formats_view(rv[0].formats@) =~= seq![(LineFormatType::Highlight, tv)]);
                    assert(g =~= seq![seq![(LineFormatType::Highlight, tv)]]);
                }
            },
            None => {},
        }
        let ghost hd = self.header;
        shown_update(&mut self.layout);
        proof {
            let c = choose|c: BufferWindow| window_resized(w2, c, v) && window_updated(c, self.layout.buffers@[0]);
            assert(window_resized(w2, c, v) && window_updated(c, self.layout.buffers@[0]));
        }
    }
}

/// Puts the shown window in place and makes its text block highlight `h` (clearing the block
/// first when asked).
fn shown_set_highlight(l: &mut WindowLayout, h: String, clear: bool)
    requires
        old(l).buffers@.len() > 0,
        window_fits(old(l).buffers@[0], old(l).view),
    ensures
        shown_changed(*old(l), *final(l)),
        exists|w2: BufferWindow|
            {
                &&& window_resized(old(l).buffers@[0], w2, old(l).view)
                &&& final(l).buffers@[0] == with_main(w2, final(l).buffers@[0].main)
                &&& final(l).buffers@[0].main.spec_highlight() == h@
                &&& final(l).buffers@[0].main.spec_buf() == w2.main.spec_buf()
                &&& final(l).buffers@[0].main.spec_cursor() == w2.main.spec_cursor()
                &&& final(l).buffers@[0].main.spec_start() == w2.main.spec_start()
                &&& final(l).buffers@[0].main.spec_geom() == w2.main.spec_geom()
                &&& final(l).buffers@[0].main.spec_block_view() == w2.main.spec_block_view()
            },
        shown_highlighted(*old(l), *final(l), h@, clear),
{
    let ghost v = l.view;
    let ghost w0 = l.buffers@[0];
    let ghost hv = h@;
    let w = l.get_buffer_mut();
    let ghost w2 = *w;
    if clear {
        w.main.clear();
    }
    w.main.set_highlight(h);
    proof {
        let a = l.buffers@[0];
        assert(highlight_put(w2, a, hv, clear));
        assert(window_resized(w0, w2, v));
        assert(a == with_main(w2, a.main));
        assert(a.main.spec_highlight() == hv);
        assert(a.main.spec_buf() == w2.main.spec_buf());
        assert(a.main.spec_cursor() == w2.main.spec_cursor());
        assert(a.main.spec_start() == w2.main.spec_start());
        assert(a.main.spec_geom() == w2.main.spec_geom());
        assert(a.main.spec_block_view() == w2.main.spec_block_view());
    }
}

/// Puts the shown window in place and lays its text block out.
#[verifier::rlimit(100)]
fn shown_lay_out(l: &mut WindowLayout)
    requires
        old(l).buffers@.len() > 0,
        shown_ready(old(l).buffers@[0], old(l).view),
    ensures
        shown_changed(*old(l), *final(l)),
        exists|w2: BufferWindow|
            {
                &&& window_resized(old(l).buffers@[0], w2, old(l).view)
                &&& block_laid_out(w2.main, final(l).buffers@[0].main)
                &&& final(l).buffers@[0] == with_main(w2, final(l).buffers@[0].main)
            },
        final(l).buffers@[0].main.spec_highlight() == old(l).buffers@[0].main.spec_highlight(),
        final(l).buffers@[0].main.spec_buf() == old(l).buffers@[0].main.spec_buf(),
        tab_ok(final(l).buffers@[0].main.spec_cursor().config),
        tab_ok(final(l).buffers@[0].main.spec_start().config),
{
    let ghost v = l.view;
    let ghost w0 = l.buffers@[0];
    let w = l.get_buffer_mut();
    let ghost w2 = *w;
    proof {
        lemma_prepared(w0, w2, v);
    }
    w.main.update();
    proof {
        assert(block_laid_out(w2.main, w.main)) by {
            reveal(block_laid_out);
        }
    }
    proof {
        let a = l.buffers@[0];
        assert(window_resized(w0, w2, v));
        assert(block_laid_out(w2.main, a.main));
        assert(a == with_main(w2, a.main));
    }
}

/// Window `a` is window `w2` with its text block made to highlight `h` (its drawn rows
/// emptied first when `clear`), all else kept.
pub open spec fn highlight_put(w2: BufferWindow, a: BufferWindow, h: Seq<char>, clear: bool) -> bool {
    &&& a == with_main(w2, a.main)
    &&& a.main.spec_highlight() == h
    &&& a.main.spec_buf() == w2.main.spec_buf()
    &&& a.main.spec_cursor() == w2.main.spec_cursor()
    &&& a.main.spec_start() == w2.main.spec_start()
    &&& a.main.spec_geom() == w2.main.spec_geom()
    &&& a.main.spec_block_view() == w2.main.spec_block_view()
    &&& a.main.spec_rows() == w2.main.spec_rows()
    &&& a.main.spec_focused() == w2.main.spec_focused()
    &&& if clear {
        a.main.spec_block().spec_rows().len() == 0
    } else {
        a.main.spec_block().spec_rows() == w2.main.spec_block().spec_rows()
    }
}

/// Layout `l2` is layout `l` with its shown window put in place and made to highlight `h`
/// (see `highlight_put`); the other windows stay.
pub open spec fn shown_highlighted(l: WindowLayout, l2: WindowLayout, h: Seq<char>, clear: bool) -> bool {
    &&& shown_changed(l, l2)
    &&& exists|w2: BufferWindow|
        #[trigger] window_resized(l.buffers@[0], w2, l.view) && highlight_put(w2, l2.buffers@[0], h, clear)
}

/// Layout `l2` is layout `l` with its shown window put in place, searched for `s` (backward
/// when `back`) with its cursor moved to the nearest match, and laid out; the other windows
/// stay, and the text and highlight are kept.
pub open spec fn shown_searched(l: WindowLayout, l2: WindowLayout, s: Seq<char>, back: bool) -> bool {
    &&& shown_changed(l, l2)
    &&& exists|w2: BufferWindow, b: BufferBlock|
        #![trigger window_resized(l.buffers@[0], w2, l.view), searched(w2.main, b, s, back, 0)]
        {
            &&& window_resized(l.buffers@[0], w2, l.view)
            &&& searched(w2.main, b, s, back, 0)
            &&& block_laid_out(b, l2.buffers@[0].main)
            &&& l2.buffers@[0] == with_main(w2, l2.buffers@[0].main)
        }
    &&& l2.buffers@[0].main.spec_buf() == l.buffers@[0].main.spec_buf()
    &&& l2.buffers@[0].main.spec_highlight() == l.buffers@[0].main.spec_highlight()
}

/// Layouts `a` and `b` differ in their windows at most.
pub open spec fn windows_only(a: EditorComplexLayout, b: EditorComplexLayout) -> bool {
    &&& b.header == a.header
    &&& b.cmd_block == a.cmd_block
    &&& b.highlight == a.highlight
    &&& b.view == a.view
    &&& b.version == a.version
}

/// Layout `b` is layout `a` with `text` shown in bold after an `OUT` prompt in the command
/// row, all else kept.
pub open spec fn output_shown(a: EditorComplexLayout, b: EditorComplexLayout, text: Seq<char>) -> bool {
    &&& cmd_shown(a.cmd_block, b.cmd_block, "OUT"@, LineFormatType::Bold, text)
    &&& b.cmd_block.spec_cursor() == a.cmd_block.spec_cursor()
    &&& b.cmd_block.spec_start() == a.cmd_block.spec_start()
    &&& b.header == a.header
    &&& b.layout == a.layout
    &&& b.highlight == a.highlight
    &&& b.view == a.view
    &&& b.version == a.version
}

/// A command line of more than one byte whose first character takes one byte has something
/// after that character.
proof fn lemma_rest_nonempty(line: Seq<char>)
    requires
        vstd::utf8::encode_utf8(line).len() > 1,
        line.len() > 0,
        (line[0] as u32) < 128,
    ensures
        rest_of(line).len() > 0,
{
    if line.len() == 1 {
        assert(line.drop_first() =~= Seq::<char>::empty());
        assert(vstd::utf8::encode_utf8(line.drop_first()).len() == 0);
        assert(vstd::utf8::encode_scalar(line[0] as u32).len() == 1);
    }
}

/// Puts the shown window in place, searches it for `s` (backward when `back`), moves its
/// cursor to the nearest match and lays it out.
#[verifier::rlimit(100)]
fn shown_search(l: &mut WindowLayout, s: &str, back: bool)
    requires
        old(l).buffers@.len() > 0,
        shown_ready(old(l).buffers@[0], old(l).view),
        s@.len() > 0,
    ensures
        shown_searched(*old(l), *final(l), s@, back),
        tab_ok(final(l).buffers@[0].main.spec_cursor().config),
        tab_ok(final(l).buffers@[0].main.spec_start().config),
{
    let ghost v = l.view;
    let ghost w0 = l.buffers@[0];
    let w = l.get_buffer_mut();
    let ghost w2 = *w;
    proof {
        lemma_prepared(w0, w2, v);
    }
    w.main.search(s, back);
    w.main.search_next(0);
    let ghost b = w.main;
    proof {
        assert(b.spec_cursor().config == w2.main.spec_cursor().config);
    }
    w.main.update();
    proof {
        assert(block_laid_out(b, w.main)) by {
            reveal(block_laid_out);
        }
    }
    proof {
        let a = l.buffers@[0];
        assert(window_resized(w0, w2, v));
        assert(searched(w2.main, b, s@, back, 0));
        assert(block_laid_out(b, a.main));
        assert(a == with_main(w2, a.main));
    }
}

/// What `command_exec` needs: a command line whose first character is one byte when it has
/// more than one and whose rest can be highlighted, a command block that can be emptied and
/// laid out, a shown window that can be laid out, and room below the header row.
pub open spec fn exec_ready(l: EditorComplexLayout) -> bool {
    let line = first_line(l.cmd_block.spec_text());
    &&& vstd::utf8::encode_utf8(line).len() <= usize::MAX
    &&& vstd::utf8::encode_utf8(line).len() > 1 ==> line.len() > 0 && (line[0] as u32) < 128
    &&& vstd::utf8::encode_utf8(line).len() > 1 ==> vstd::utf8::encode_utf8(rest_of(line)).len() <= i32::MAX
    &&& reset_ready(l)
    &&& complex_update_ready(l)
}

/// What a search from the command line did to layout `before` (giving `after`): the shown
/// window highlights `s`, is searched for it (backward when `back`) with its cursor moved to
/// the nearest match, laid out, and made to highlight `s` again with its drawn rows emptied;
/// the other windows stay; then the command line is emptied.
pub open spec fn search_ran(before: EditorComplexLayout, after: EditorComplexLayout, s: Seq<char>, back: bool) -> bool {
    &&& after.layout.buffers@[0].main.spec_highlight() == s
    &&& exists|m1: EditorComplexLayout, m2: EditorComplexLayout, m3: EditorComplexLayout|
        #![trigger shown_highlighted(before.layout, m1.layout, s, false), shown_searched(m1.layout, m2.layout, s, back), shown_highlighted(m2.layout, m3.layout, s, true)]
        {
            &&& windows_only(before, m1)
            &&& shown_highlighted(before.layout, m1.layout, s, false)
            &&& windows_only(m1, m2)
            &&& shown_searched(m1.layout, m2.layout, s, back)
            &&& windows_only(m2, m3)
            &&& shown_highlighted(m2.layout, m3.layout, s, true)
            &&& command_was_reset(m3, after)
        }
}

/// What running parsed commands did to layout `before` (giving `after`): the command line is
/// emptied, then the layout is updated.
pub open spec fn run_done(before: EditorComplexLayout, after: EditorComplexLayout) -> bool {
    exists|m: EditorComplexLayout| #[trigger] command_was_reset(before, m) && complex_updated(m, after)
}

/// What a command line that does not parse did to layout `before` (giving `after`): the command
/// line is emptied, `ERROR` is shown in the command row, then the layout is updated.
pub open spec fn error_done(before: EditorComplexLayout, after: EditorComplexLayout) -> bool {
    exists|m1: EditorComplexLayout, m2: EditorComplexLayout|
        #![trigger command_was_reset(before, m1), output_shown(m1, m2, "ERROR"@)]
        {
            &&& command_was_reset(before, m1)
            &&& output_shown(m1, m2, "ERROR"@)
            &&& complex_updated(m2, after)
        }
}

/// What running the command line did: a line of at most one byte, or one that starts with
/// none of `/`, `?` and `:`, changes nothing. After `/` or `?` the shown window highlights the
/// rest of the line, is searched for it (backward after `?`) with its cursor moved to the
/// nearest match, laid out, and made to highlight it again with its drawn rows emptied; the
/// other windows stay. After `:` the rest is parsed: its commands are handed back and the
/// layout is updated, or `ERROR` is shown in the command row before the update. In every case
/// the command line is emptied (and, for `:`, emptied before anything else).
pub open spec fn exec_done(before: EditorComplexLayout, after: EditorComplexLayout, out: Seq<Command>) -> bool {
    let line = first_line(before.cmd_block.spec_text());
    let rest = rest_of(line);
    if vstd::utf8::encode_utf8(line).len() <= 1 || !(line[0] == '/' || line[0] == '?' || line[0]
        == ':') {
        out.len() == 0 && after == before
    } else {
        &&& after.cmd_block.spec_text().len() == 0
        &&& after.view == before.view
        &&& after.version == before.version
        &&& after.layout.view == before.layout.view
        &&& if line[0] == ':' {
            match parse_spec(rest) {
                None => {
                    &&& out.len() == 0
                    &&& row_views(after.cmd_block.spec_left().spec_rows()) == seq![seq![(LineFormatType::Normal, "OUT"@)]]
                    &&& row_views(after.cmd_block.spec_block().spec_rows()) == seq![
                        seq![(LineFormatType::Bold, pad_right("ERROR"@, before.cmd_block.spec_block_view().w as int))],
                    ]
                    &&& error_done(before, after)
                },
                Some((set, name, value)) => {
                    &&& out.len() == 1
                    &&& if set {
                        out[0] matches Command::VarSet(n, x) && n@ == name && x@ == value
                    } else {
                        out[0] matches Command::VarGet(n) && n@ == name
                    }
                    &&& run_done(before, after)
                },
            }
        } else {
            &&& out.len() == 0
            &&& search_ran(before, after, rest, line[0] == '?')
        }
    }
}

impl EditorComplexLayout {
    /// Puts the shown window in place and makes its text block highlight `s`.
    pub fn search_update(&mut self, s: String)
        requires
            old(self).layout.buffers@.len() > 0,
            window_fits(old(self).layout.buffers@[0], old(self).layout.view),
        ensures
            shown_changed(old(self).layout, final(self).layout),
            exists|w2: BufferWindow|
                {
                    &&& window_resized(old(self).layout.buffers@[0], w2, old(self).layout.view)
                    &&& final(self).layout.buffers@[0] == with_main(w2, final(self).layout.buffers@[0].main)
                    &&& final(self).layout.buffers@[0].main.spec_highlight() == s@
                    &&& final(self).layout.buffers@[0].main.spec_buf() == w2.main.spec_buf()
                    &&& final(self).layout.buffers@[0].main.spec_cursor() == w2.main.spec_cursor()
                    &&& final(self).layout.buffers@[0].main.spec_start() == w2.main.spec_start()
                    &&& final(self).layout.buffers@[0].main.spec_geom() == w2.main.spec_geom()
                    &&& final(self).layout.buffers@[0].main.spec_block_view() == w2.main.spec_block_view()
                },
            shown_highlighted(old(self).layout, final(self).layout, s@, false),
            final(self).header == old(self).header,
            final(self).cmd_block == old(self).cmd_block,
            final(self).highlight == old(self).highlight,
            final(self).view == old(self).view,
            final(self).version == old(self).version,
    {
        shown_set_highlight(&mut self.layout, s, false);
    }

    /// Runs the command line: a search after `/` (forward) or `?` (backward) highlights the
    /// rest of the line in the shown window; commands after `:` are parsed and handed back, or
    /// `ERROR` is shown; the command line is emptied afterwards. Any other line is left alone.
    pub fn command_exec(&mut self) -> (out: Vec<Command>)
        requires
            exec_ready(*old(self)),
        ensures
            exec_done(*old(self), *final(self), out@),
            complex_update_ready(*final(self)),
    {
        let line = self.get_command_line();
        let ghost l = line@;
        let ghost v = self.layout.view;
        let ghost w = self.cmd_block.spec_block_view().w;
        match line_action(line.as_str()) {
            LineAction::Search(last, back) => {
                proof {
                    lemma_rest_nonempty(l);
                }
                self.exec_search(last, back);
                Vec::new()
            },
            LineAction::Run(commands) => {
                self.command_reset();
                let ghost m = *self;
                proof {
                    lemma_reset_ready_update(*old(self), *self);
                }
                self.update();
                proof {
                    assert(command_was_reset(*old(self), m));
                }
                commands
            },
            LineAction::Error => {
                self.command_reset();
                let ghost m1 = *self;
                let msg = String::from_str("ERROR");
                self.command_output(&msg);
                let ghost m2 = *self;
                proof {
                    lemma_reset_ready_update(*old(self), *self);
                    reveal_strlit("ERROR");
                    assert(output_shown(m1, m2, "ERROR"@));
                }
                self.update();
                proof {
                    assert(command_was_reset(*old(self), m1));
                }
                Vec::new()
            },
            LineAction::Nothing => Vec::new(),
        }
    }
}

impl EditorComplexLayout {
    /// Searches the shown window for `last` (backward when `back`), as the command line asked.
    fn exec_search(&mut self, last: String, back: bool)
        requires
            last@.len() > 0,
            vstd::utf8::encode_utf8(last@).len() <= i32::MAX,
            reset_ready(*old(self)),
            complex_update_ready(*old(self)),
        ensures
            search_ran(*old(self), *final(self), last@, back),
            complex_update_ready(*final(self)),
    {
        let ghost v = self.layout.view;
        let ghost m0 = *self;
        self.search_update(last.clone());
        let ghost m1 = *self;
        proof {
            let w0 = old(self).layout.buffers@[0];
            let w2 = choose|w2: BufferWindow|
                {
                    &&& window_resized(w0, w2, v)
                    &&& self.layout.buffers@[0] == with_main(w2, self.layout.buffers@[0].main)
                    &&& self.layout.buffers@[0].main.spec_highlight() == last@
                    &&& self.layout.buffers@[0].main.spec_buf() == w2.main.spec_buf()
                    &&& self.layout.buffers@[0].main.spec_cursor() == w2.main.spec_cursor()
                    &&& self.layout.buffers@[0].main.spec_start() == w2.main.spec_start()
                    &&& self.layout.buffers@[0].main.spec_geom() == w2.main.spec_geom()
                    &&& self.layout.buffers@[0].main.spec_block_view() == w2.main.spec_block_view()
                };
            lemma_prepared(w0, w2, v);
            lemma_highlight_ready(w2, self.layout.buffers@[0], v);
        }
        shown_search(&mut self.layout, last.as_str(), back);
        let ghost m2 = *self;
        proof {
            let a2 = self.layout.buffers@[0];
            assert(shown_ready(a2, v));
        }
        let ghost a2 = self.layout.buffers@[0];
        shown_set_highlight(&mut self.layout, last, true);
        let ghost m3 = *self;
        proof {
            let w3 = choose|w3: BufferWindow|
                {
                    &&& window_resized(a2, w3, v)
                    &&& self.layout.buffers@[0] == with_main(w3, self.layout.buffers@[0].main)
                    &&& self.layout.buffers@[0].main.spec_highlight() == last@
                    &&& self.layout.buffers@[0].main.spec_buf() == w3.main.spec_buf()
                    &&& self.layout.buffers@[0].main.spec_cursor() == w3.main.spec_cursor()
                    &&& self.layout.buffers@[0].main.spec_start() == w3.main.spec_start()
                    &&& self.layout.buffers@[0].main.spec_geom() == w3.main.spec_geom()
                    &&& self.layout.buffers@[0].main.spec_block_view() == w3.main.spec_block_view()
                };
            lemma_prepared(a2, w3, v);
            lemma_highlight_ready(w3, self.layout.buffers@[0], v);
        }
        let ghost before_reset = *self;
        self.command_reset();
        proof {
            let w3 = self.layout.buffers@[0];
            assert(w3.main.spec_highlight() == last@);
            lemma_reset_ready_update(before_reset, *self);
            assert(windows_only(m0, m1));
            assert(windows_only(m1, m2));
            assert(windows_only(m2, m3));
            assert(shown_highlighted(m0.layout, m1.layout, last@, false));
            assert(shown_searched(m1.layout, m2.layout, last@, back));
            assert(shown_highlighted(m2.layout, m3.layout, last@, true));
            assert(command_was_reset(m3, *self));
        }
    }
}

/// A window put in place that only got a new highlight, of countable size, is still ready.
proof fn lemma_highlight_ready(w2: BufferWindow, a: BufferWindow, v: ViewPos)
    requires
        shown_ready(w2, v),
        a == with_main(w2, a.main),
        vstd::utf8::encode_utf8(a.main.spec_highlight()).len() <= i32::MAX,
        a.main.spec_buf() == w2.main.spec_buf(),
        a.main.spec_cursor() == w2.main.spec_cursor(),
        a.main.spec_start() == w2.main.spec_start(),
    ensures
        shown_ready(a, v),
{
}

/// `after` is `mid` with its windows in the order `r`: the new shown window cleared, updated,
/// put in place and made to highlight the layout's highlight; the other windows as in `r`.
pub open spec fn shown_rotated(mid: EditorComplexLayout, r: Seq<BufferWindow>, after: EditorComplexLayout) -> bool {
    let v = mid.layout.view;
    &&& after.layout.view == v
    &&& after.layout.buffers@.len() == r.len()
    &&& forall|i: int| 1 <= i < r.len() ==> after.layout.buffers@[i] == r[i]
    &&& exists|c: BufferWindow, d: BufferWindow, e: BufferWindow|
        {
            &&& window_cleared(r[0], c)
            &&& window_updated(c, d)
            &&& window_resized(d, e, v)
            &&& after.layout.buffers@[0] == with_main(e, after.layout.buffers@[0].main)
            &&& after.layout.buffers@[0].main.spec_highlight() == mid.highlight@
            &&& after.layout.buffers@[0].main.spec_buf() == e.main.spec_buf()
            &&& after.layout.buffers@[0].main.spec_cursor() == e.main.spec_cursor()
        }
    &&& after.header == mid.header
    &&& after.cmd_block == mid.cmd_block
    &&& after.highlight == mid.highlight
    &&& after.view == mid.view
    &&& after.version == mid.version
}

/// The window that rotating brings to the front can be updated.
proof fn lemma_rotated_ready(w0: BufferWindow, mid: EditorComplexLayout, r: Seq<BufferWindow>, next: bool)
    requires
        window_resized(w0, mid.layout.buffers@[0], mid.layout.view),
        mid.layout.buffers@.len() > 0,
        shown_ready(mid.layout.buffers@[0], mid.layout.view),
        mid.layout.buffers@.len() > 1 ==> window_update_ok(
            if next { mid.layout.buffers@[1] } else { mid.layout.buffers@[mid.layout.buffers@.len() - 1] },
        ),
        r == if next { rotate_next(mid.layout.buffers@) } else { rotate_prev(mid.layout.buffers@) },
    ensures
        r.len() == mid.layout.buffers@.len(),
        window_update_ok(r[0]),
{
    let v = mid.layout.view;
    let w = mid.layout.buffers@[0];
    if mid.layout.buffers@.len() == 1 {
        assert(r[0] == w);
    }
}

impl EditorComplexLayout {
    /// Clears and updates the window now shown, puts it in place and makes it highlight the
    /// layout's highlight.
    fn rotated_refresh(&mut self)
        requires
            old(self).layout.buffers@.len() > 0,
            window_update_ok(old(self).layout.buffers@[0]),
            shown_ready_view(old(self).layout.view),
        ensures
            shown_rotated(*old(self), old(self).layout.buffers@, *final(self)),
    {
        let ghost v = self.layout.view;
        front_refresh(&mut self.layout);
        let ghost d = self.layout.buffers@[0];
        let h = self.highlight.clone();
        shown_set_highlight(&mut self.layout, h, false);
    }
}

/// A place where windows can be put and laid out.
pub open spec fn shown_ready_view(v: ViewPos) -> bool {
    &&& v.w > 6
    &&& v.h >= 1
    &&& v.h <= 65536
    &&& v.x0 + 6 + 65536 <= usize::MAX
    &&& v.y0 + 65536 <= usize::MAX
}

/// Before the command line is taken, the layout is ready for it: the shown window was only
/// put in place.
proof fn lemma_mid_ready(before: EditorComplexLayout, mid: EditorComplexLayout, w1: BufferWindow, m1: BufferBlock, c: Command)
    requires
        complex_ready(before, c),
        c is CliExec,
        shown_ready(w1, before.layout.view),
        block_command(w1.main, m1, c),
        mid.layout.view == before.layout.view,
        mid.layout.buffers@ == before.layout.buffers@.update(0, with_main(w1, m1)),
        mid.header == before.header,
        mid.cmd_block == before.cmd_block,
    ensures
        update_ready(mid),
        complex_update_ready(mid),
{
    assert(m1 == w1.main);
    assert(with_main(w1, m1) == w1);
    assert(mid.layout.buffers@[0] == w1);
}

/// After typing into the command block, the command line can be taken.
proof fn lemma_edit_ready(mid: EditorComplexLayout, m2: EditorComplexLayout, cmds: Seq<Command>)
    requires
        cmd_ready(mid.cmd_block),
        typing_ok(mid.cmd_block, cmds),
        shown_ready(mid.layout.buffers@[0], mid.layout.view),
        mid.layout.buffers@.len() > 0,
        mid.header.spec_view().y0 + 1 <= usize::MAX,
        m2.header == mid.header,
        m2.layout.view == mid.layout.view,
        shown_changed(mid.layout, m2.layout),
        exists|e: BufferWindow|
            {
                &&& window_resized(mid.layout.buffers@[0], e, mid.layout.view)
                &&& focus_is(e.main, m2.layout.buffers@[0].main, false)
                &&& m2.layout.buffers@[0] == with_main(e, m2.layout.buffers@[0].main)
            },
        ({
            let ed = edits_of(
                mid.cmd_block.spec_text(),
                mid.cmd_block.spec_cursor().c as int,
                mid.cmd_block.spec_buf().config,
                cmds,
            );
            &&& m2.cmd_block.spec_text() == ed.0
        }),
        m2.cmd_block.spec_buf().config == mid.cmd_block.spec_buf().config,
        m2.cmd_block.spec_start() == mid.cmd_block.spec_start(),
        m2.cmd_block.spec_highlight() == mid.cmd_block.spec_highlight(),
        m2.cmd_block.spec_left() == mid.cmd_block.spec_left(),
        m2.cmd_block.spec_geom() == mid.cmd_block.spec_geom(),
        m2.cmd_block.spec_block_view() == mid.cmd_block.spec_block_view(),
        tab_ok(m2.cmd_block.spec_cursor().config),
    ensures
        update_ready(m2),
        complex_update_ready(m2),
{
    let v = mid.layout.view;
    let e = choose|e: BufferWindow|
        {
            &&& window_resized(mid.layout.buffers@[0], e, v)
            &&& focus_is(e.main, m2.layout.buffers@[0].main, false)
            &&& m2.layout.buffers@[0] == with_main(e, m2.layout.buffers@[0].main)
        };
    lemma_prepared(mid.layout.buffers@[0], e, v);
    lemma_highlight_ready(e, m2.layout.buffers@[0], v);
    assert(cmds.take(cmds.len() as int) =~= cmds);
    let s = mid.cmd_block.spec_text();
    let c = mid.cmd_block.spec_cursor().c as int;
    let cfg = mid.cmd_block.spec_buf().config;
    assert(4 * edits_of(s, c, cfg, cmds.take(cmds.len() as int)).0.len() + 1024 <= i32::MAX);
}

/// Once the command line was taken, it can be run.
proof fn lemma_exec_ready(before: EditorComplexLayout, after: EditorComplexLayout)
    requires
        update_ready(before),
        complex_update_ready(before),
        vstd::utf8::encode_utf8(first_line(before.cmd_block.spec_text())).len() > 1
            ==> vstd::utf8::encode_utf8(rest_of(first_line(before.cmd_block.spec_text()))).len() <= i32::MAX,
        command_updated(before, after),
    ensures
        exec_ready(after),
{
    let v = before.layout.view;
    let line = first_line(before.cmd_block.spec_text());
    let searching = vstd::utf8::encode_utf8(line).len() > 1 && (line[0] == '/' || line[0] == '?');
    if searching {
        let w2 = choose|w2: BufferWindow|
            {
                &&& window_resized(before.layout.buffers@[0], w2, v)
                &&& after.layout.buffers@[0].main.spec_highlight() == line.subrange(1, line.len() as int)
                &&& after.layout.buffers@[0].main.spec_buf() == w2.main.spec_buf()
                &&& after.layout.buffers@[0].main.spec_cursor() == w2.main.spec_cursor()
                &&& after.layout.buffers@[0].main.spec_start() == w2.main.spec_start()
                &&& after.layout.buffers@[0].main.spec_block().spec_rows().len() == 0
                &&& after.layout.buffers@[0] == with_main(w2, after.layout.buffers@[0].main)
            };
        lemma_prepared(before.layout.buffers@[0], w2, v);
        lemma_highlight_ready(w2, after.layout.buffers@[0], v);
    }
}

/// After the command line was reset, the layout can be updated.
proof fn lemma_reset_ready_update(before: EditorComplexLayout, after: EditorComplexLayout)
    requires
        complex_update_ready(before),
        after.layout.view == before.layout.view,
        after.header == before.header,
        shown_changed(before.layout, after.layout),
        exists|e: BufferWindow|
            {
                &&& window_resized(before.layout.buffers@[0], e, before.layout.view)
                &&& focused(e.main, after.layout.buffers@[0].main)
                &&& after.layout.buffers@[0] == with_main(e, after.layout.buffers@[0].main)
            },
    ensures
        complex_update_ready(after),
{
    let v = before.layout.view;
    let e = choose|e: BufferWindow|
        {
            &&& window_resized(before.layout.buffers@[0], e, v)
            &&& focused(e.main, after.layout.buffers@[0].main)
            &&& after.layout.buffers@[0] == with_main(e, after.layout.buffers@[0].main)
        };
    lemma_prepared(before.layout.buffers@[0], e, v);
}

/// What one command does to a command line's text `s` with the cursor at `c`: `Insert` types
/// its character (the cursor moves on by the bytes typed), `RemoveChar` takes out its range
/// (the cursor goes to its start); other commands change nothing.
pub open spec fn edit_step(s: Seq<char>, c: int, cfg: BufferConfig, cmd: Command) -> (Seq<char>, int) {
    match cmd {
        Command::Insert(ch) => {
            let t = typed(cfg, ch);
            let s2 = put(s, c, t);
            (s2, clamp_char(s2, c + vstd::utf8::encode_utf8(t).len()))
        },
        Command::RemoveChar(dx) => {
            let start = if dx < 0 {
                if c + dx < 0 {
                    0
                } else {
                    c + dx
                }
            } else {
                c
            };
            let end = if dx > 0 {
                c + dx
            } else {
                c
            };
            let end0 = if end > s.len() {
                s.len() as int
            } else {
                end
            };
            let s2 = if start < end && start < end0 {
                cut(s, start, end0)
            } else {
                s
            };
            (s2, clamp_char(s2, start))
        },
        _ => (s, c),
    }
}

/// The text and cursor after the commands `cmds`, one after the other.
pub open spec fn edits_of(s: Seq<char>, c: int, cfg: BufferConfig, cmds: Seq<Command>) -> (Seq<char>, int)
    decreases cmds.len(),
{
    if cmds.len() == 0 {
        (s, c)
    } else {
        let p = edits_of(s, c, cfg, cmds.drop_last());
        edit_step(p.0, p.1, cfg, cmds.last())
    }
}

/// The command line of `s` can be split after its first character.
pub open spec fn line_splits(s: Seq<char>) -> bool {
    let line = first_line(s);
    &&& vstd::utf8::encode_utf8(line).len() <= usize::MAX
    &&& vstd::utf8::encode_utf8(line).len() > 1 ==> line.len() > 0 && (line[0] as u32) < 128
}

/// What typing `cmds` into the command block `b` needs: a text that stays of countable size
/// and ranges that can be counted along the way, and a command line that can be split at the
/// end.
pub open spec fn typing_ok(b: BufferBlock, cmds: Seq<Command>) -> bool {
    let s = b.spec_text();
    let c = b.spec_cursor().c as int;
    let cfg = b.spec_buf().config;
    &&& c <= s.len()
    &&& forall|i: int| 0 <= i <= cmds.len() ==> 4 * (#[trigger] edits_of(s, c, cfg, cmds.take(i))).0.len() + 1024 <= i32::MAX
    &&& forall|i: int| 0 <= i < cmds.len() ==> (#[trigger] cmds[i] matches Command::RemoveChar(dx) ==> edits_of(s, c, cfg, cmds.take(i)).1 + dx <= i32::MAX)
    &&& line_splits(edits_of(s, c, cfg, cmds).0)
}

/// Hands each of `cmds` to the command block, in order.
fn type_into(b: &mut BufferBlock, cmds: &Vec<Command>)
    requires
        typing_ok(*old(b), cmds@),
        old(b).spec_block_view().w > 0,
        tab_ok(old(b).spec_cursor().config),
        tab_ok(old(b).spec_buf().config),
    ensures
        ({
            let e = edits_of(old(b).spec_text(), old(b).spec_cursor().c as int, old(b).spec_buf().config, cmds@);
            &&& final(b).spec_text() == e.0
            &&& final(b).spec_cursor().c == e.1
        }),
        final(b).spec_buf().config == old(b).spec_buf().config,
        final(b).spec_buf().path == old(b).spec_buf().path,
        final(b).spec_start() == old(b).spec_start(),
        final(b).spec_highlight() == old(b).spec_highlight(),
        final(b).spec_focused() == old(b).spec_focused(),
        final(b).spec_left() == old(b).spec_left(),
        final(b).spec_geom() == old(b).spec_geom(),
        final(b).spec_block_view() == old(b).spec_block_view(),
        tab_ok(final(b).spec_cursor().config),
{
    let ghost s0 = b.spec_text();
    let ghost c0 = b.spec_cursor().c as int;
    let ghost cfg = b.spec_buf().config;
    let mut i: usize = 0;
    while i < cmds.len()
        invariant
            i <= cmds@.len(),
            typing_ok(*old(b), cmds@),
            s0 == old(b).spec_text(),
            c0 == old(b).spec_cursor().c as int,
            cfg == old(b).spec_buf().config,
            b.spec_text() == edits_of(s0, c0, cfg, cmds@.take(i as int)).0,
            b.spec_cursor().c == edits_of(s0, c0, cfg, cmds@.take(i as int)).1,
            b.spec_cursor().c <= b.spec_text().len(),
            b.spec_buf().config == cfg,
            b.spec_buf().path == old(b).spec_buf().path,
            b.spec_start() == old(b).spec_start(),
            b.spec_highlight() == old(b).spec_highlight(),
            b.spec_focused() == old(b).spec_focused(),
            b.spec_left() == old(b).spec_left(),
            b.spec_geom() == old(b).spec_geom(),
            b.spec_block_view() == old(b).spec_block_view(),
            b.spec_block_view().w > 0,
            tab_ok(b.spec_cursor().config),
            tab_ok(cfg),
        decreases cmds@.len() - i,
    {
        proof {
            assert(cmds@.take(i + 1).drop_last() =~= cmds@.take(i as int));
            assert(cmds@.take(i + 1).last() == cmds@[i as int]);
            let k = edits_of(s0, c0, cfg, cmds@.take(i as int));
            assert(4 * k.0.len() + 1024 <= i32::MAX);
            if let Command::RemoveChar(dx) = cmds@[i as int] {
                assert(k.1 + dx <= i32::MAX);
            }
        }
        b.command(&cmds[i]);
        i = i + 1;
    }
    proof {
        assert(cmds@.take(cmds@.len() as int) =~= cmds@);
    }
}

impl EditorComplexLayout {
    /// A layout at `view` for an editor with `config`: an empty header, one window on an empty
    /// text, and an empty command row, with no highlight.
    pub fn new(config: &EditorConfig, view: ViewPos) -> (l: Self)
        requires
            view.h >= 2,
            view.w > 0,
            view.y0 + view.h <= usize::MAX,
        ensures
            l.view == view,
            l.version@ == config.version@,
            l.highlight@.len() == 0,
            l.header.spec_view() == header_view(view),
            l.layout.view == windows_view(view),
            l.layout.buffers@.len() == 1,
            l.cmd_block.spec_text().len() == 0,
            l.cmd_block.spec_geom() == (view.w, 1usize, view.x0, (view.y0 + view.h - 1) as usize, 0usize),
    {
        let layout = WindowLayout::new(ViewPos { w: view.w, h: view.h - 2, x0: view.x0, y0: view.y0 + 1 });
        let mut cmd_block = BufferBlock::new(Buffer::from_string(&String::new()));
        cmd_block.resize(view.w, 1, view.x0, view.y0 + view.h - 1, 0);
        EditorComplexLayout {
            header: RenderBlock::new(ViewPos { w: view.w, h: 1, x0: view.x0, y0: view.y0 }),
            cmd_block,
            layout,
            highlight: String::new(),
            view,
            version: config.version.clone(),
        }
    }

    /// Adds a window on `buf` in front, at the windows' place, with the focus.
    pub fn add_window(&mut self, buf: Buffer)
        requires
            tab_ok(buf@.config),
            old(self).view.h >= 2,
            old(self).view.y0 + 1 <= usize::MAX,
        ensures
            final(self).layout.buffers@.len() == old(self).layout.buffers@.len() + 1,
            final(self).layout.buffers@[0].main.spec_buf() == buf@,
            final(self).layout.buffers@[0].main.spec_focused(),
            final(self).layout.buffers@[0].view == windows_view(old(self).view),
            final(self).layout.buffers@.subrange(1, final(self).layout.buffers@.len() as int)
                == old(self).layout.buffers@,
            final(self).layout.view == old(self).layout.view,
            final(self).cmd_block == old(self).cmd_block,
            final(self).header == old(self).header,
            final(self).view == old(self).view,
    {
        let v = self.view;
        let mut w = BufferWindow::new(buf, ViewPos { w: v.w, h: v.h - 2, x0: v.x0, y0: v.y0 + 1 });
        w.main.set_focus(true);
        self.layout.buffers.add(w);
        assert(self.layout.buffers@.subrange(1, self.layout.buffers@.len() as int) =~= old(self).layout.buffers@);
    }
}

/// The editor's screen with the windows alone.
pub struct EditorSimpleLayout {
    pub layout: WindowLayout,
    pub view: ViewPos,
}

impl EditorSimpleLayout {
    /// A layout at `view` holding one window on an empty text.
    pub fn new(view: ViewPos) -> (l: Self)
        ensures
            l.view == view,
            l.layout.view == view,
            l.layout.buffers@.len() == 1,
    {
        EditorSimpleLayout { layout: WindowLayout::new(view), view }
    }

    /// Puts every window at `view` (the windows' own place is kept for later updates).
    pub fn resize(&mut self, view: ViewPos)
        requires
            forall|i: int|
                0 <= i < old(self).layout.buffers@.len() ==> window_fits(#[trigger] old(self).layout.buffers@[i], view),
        ensures
            final(self).view == old(self).view,
            final(self).layout.view == old(self).layout.view,
            final(self).layout.buffers@.len() == old(self).layout.buffers@.len(),
            forall|i: int|
                0 <= i < old(self).layout.buffers@.len() ==> window_resized(
                    old(self).layout.buffers@[i],
                    #[trigger] final(self).layout.buffers@[i],
                    view,
                ),
    {
        self.layout.resize(view);
    }

    /// Forgets what the shown window's blocks show.
    pub fn clear(&mut self)
        requires
            old(self).layout.buffers@.len() > 0,
        ensures
            final(self).layout.buffers@.len() == old(self).layout.buffers@.len(),
            window_cleared(old(self).layout.buffers@[0], final(self).layout.buffers@[0]),
            forall|i: int|
                1 <= i < old(self).layout.buffers@.len() ==> #[trigger] final(self).layout.buffers@[i]
                    == old(self).layout.buffers@[i],
            final(self).layout.view == old(self).layout.view,
            final(self).view == old(self).view,
    {
        self.layout.clear();
    }

    /// Puts the shown window in place and hands out its drawing steps.
    pub fn generate_commands(&mut self) -> (v: Vec<DrawCommand>)
        requires
            old(self).layout.buffers@.len() > 0,
            window_fits(old(self).layout.buffers@[0], old(self).layout.view),
        ensures
            exists|w2: BufferWindow|
                {
                    &&& window_resized(old(self).layout.buffers@[0], w2, old(self).layout.view)
                    &&& v@ == crate::tui::bufferblock::framed(w2.status.pending())
                        + crate::tui::bufferblock::framed(w2.left.pending()) + (
                    crate::tui::bufferblock::framed(w2.main.spec_block_pending())
                        + crate::tui::bufferblock::framed(w2.main.spec_left_pending()) + if w2.main.spec_focused() {
                        w2.main.spec_rc_pending()
                    } else {
                        Seq::empty()
                    })
                },
            shown_changed(old(self).layout, final(self).layout),
            final(self).view == old(self).view,
    {
        let ghost v = self.layout.view;
        let ghost w0 = self.layout.buffers@[0];
        let w = self.layout.get_buffer_mut();
        let ghost w2 = *w;
        let out = w.generate_commands();
        proof {
            assert(window_resized(w0, w2, v));
        }
        out
    }

    /// Puts the shown window in place and updates it.
    pub fn update(&mut self)
        requires
            old(self).layout.buffers@.len() > 0,
            shown_ready(old(self).layout.buffers@[0], old(self).layout.view),
        ensures
            shown_changed(old(self).layout, final(self).layout),
            exists|c: BufferWindow|
                {
                    &&& window_resized(old(self).layout.buffers@[0], c, old(self).layout.view)
                    &&& window_updated(c, final(self).layout.buffers@[0])
                },
            final(self).view == old(self).view,
    {
        shown_update(&mut self.layout);
    }

    /// Carries out a command: the shown window's text block sees it, and `Resize` puts every
    /// window at the new size (at the layout's origin); no command is handed back.
    pub fn command(&mut self, c: &Command) -> (out: Vec<Command>)
        requires
            old(self).layout.buffers@.len() > 0,
            shown_ready(old(self).layout.buffers@[0], old(self).layout.view),
            match *c {
                Command::RemoveChar(dx) => clamp_char(
                    old(self).layout.buffers@[0].main.spec_text(),
                    old(self).layout.buffers@[0].main.spec_cursor().c as int,
                ) + dx <= i32::MAX,
                Command::Resize(x, y) => forall|i: int|
                    1 <= i < old(self).layout.buffers@.len() ==> window_fits(
                        #[trigger] old(self).layout.buffers@[i],
                        ViewPos { w: x as usize, h: y as usize, x0: old(self).view.x0, y0: old(self).view.y0 },
                    ),
                _ => true,
            },
            *c matches Command::Resize(x, y) ==> x > 6 && y >= 1 && old(self).view.x0 + 6 <= usize::MAX
                && old(self).view.y0 + y <= usize::MAX,
        ensures
            out@.len() == 0,
            final(self).view == old(self).view,
            final(self).layout.view == old(self).layout.view,
            final(self).layout.buffers@.len() == old(self).layout.buffers@.len(),
            exists|w1: BufferWindow, m1: BufferBlock|
                {
                    &&& window_resized(old(self).layout.buffers@[0], w1, old(self).layout.view)
                    &&& block_command(w1.main, m1, *c)
                    &&& match *c {
                        Command::Resize(x, y) => {
                            let nv = ViewPos { w: x as usize, h: y as usize, x0: old(self).view.x0, y0: old(self).view.y0 };
                            &&& window_resized(with_main(w1, m1), final(self).layout.buffers@[0], nv)
                            &&& forall|i: int|
                                1 <= i < old(self).layout.buffers@.len() ==> window_resized(
                                    old(self).layout.buffers@[i],
                                    #[trigger] final(self).layout.buffers@[i],
                                    nv,
                                )
                        },
                        _ => {
                            &&& final(self).layout.buffers@[0] == with_main(w1, m1)
                            &&& forall|i: int|
                                1 <= i < old(self).layout.buffers@.len() ==> #[trigger] final(self).layout.buffers@[i]
                                    == old(self).layout.buffers@[i]
                        },
                    }
                },
    {
        let ghost v = self.layout.view;
        let ghost w0 = self.layout.buffers@[0];
        let ghost w1: BufferWindow;
        let ghost m1: BufferBlock;
        {
            let w = self.layout.get_buffer_mut();
            proof {
                w1 = *w;
                lemma_prepared(w0, w1, v);
            }
            w.main.command(c);
            proof {
                m1 = w.main;
            }
        }
        let ghost mid = self.layout.buffers@;
        match c {
            Command::Resize(x, y) => {
                let view = ViewPos { w: *x as usize, h: *y as usize, x0: self.view.x0, y0: self.view.y0 };
                proof {
                    assert(m1 == w1.main);
                    assert(with_main(w1, m1) == w1);
                    assert forall|i: int| 0 <= i < mid.len() implies window_fits(#[trigger] mid[i], view) by {
                        if i > 0 {
                            assert(mid[i] == old(self).layout.buffers@[i]);
                        }
                    }
                }
                self.resize(view);
            },
            _ => {},
        }
        Vec::new()
    }
}

/// What the layout's `resize` needs: room for the header and command rows, windows that fit
/// between them, and a command block whose cursors can be laid out.
pub open spec fn complex_fits(l: EditorComplexLayout, view: ViewPos) -> bool {
    &&& view.h >= 2
    &&& view.w > 0
    &&& view.x0 + 3 <= usize::MAX
    &&& view.y0 + view.h <= usize::MAX
    &&& forall|i: int|
        0 <= i < l.layout.buffers@.len() ==> window_fits(#[trigger] l.layout.buffers@[i], windows_view(view))
    &&& tab_ok(l.cmd_block.spec_cursor().config)
    &&& tab_ok(l.cmd_block.spec_start().config)
}

/// `after` is `before` at `view`: the header at its first row, every window between the header
/// and the command row (the layout keeps its own place), and the command block on its last row
/// with a margin of three columns.
pub open spec fn complex_resized(before: EditorComplexLayout, after: EditorComplexLayout, view: ViewPos) -> bool {
    &&& after.view == view
    &&& after.header.spec_view() == header_view(view)
    &&& after.header.spec_rows().len() == 1
    &&& after.layout.view == before.layout.view
    &&& after.layout.buffers@.len() == before.layout.buffers@.len()
    &&& forall|i: int|
        0 <= i < before.layout.buffers@.len() ==> window_resized(
            before.layout.buffers@[i],
            #[trigger] after.layout.buffers@[i],
            windows_view(view),
        )
    &&& crate::tui::bufferblock::block_resized(
        before.cmd_block,
        after.cmd_block,
        view.w,
        1,
        view.x0,
        (view.y0 + view.h - 1) as usize,
        3,
    )
    &&& after.highlight == before.highlight
    &&& after.version == before.version
}

impl EditorComplexLayout {
    /// Takes a new place and size for the header row, the windows and the command row.
    pub fn resize(&mut self, view: ViewPos)
        requires
            complex_fits(*old(self), view),
        ensures
            complex_resized(*old(self), *final(self), view),
    {
        self.header.resize(ViewPos { w: view.w, h: 1, x0: view.x0, y0: view.y0 });
        self.layout.resize(ViewPos { w: view.w, h: view.h - 2, x0: view.x0, y0: view.y0 + 1 });
        self.cmd_block.resize(view.w, 1, view.x0, view.y0 + view.h - 1, 3);
        self.view = view;
    }
}

/// What the layout's `command` needs: a shown window that can be put in place and can take
/// the command, a command block and header that can be laid out, and for each command what its
/// steps need.
pub open spec fn complex_ready(l: EditorComplexLayout, c: Command) -> bool {
    let b = l.layout.buffers@[0].main;
    let s = b.spec_text();
    let line = first_line(l.cmd_block.spec_text());
    &&& l.layout.buffers@.len() > 0
    &&& shown_ready(l.layout.buffers@[0], l.layout.view)
    &&& l.header.spec_view().y0 + 1 <= usize::MAX
    &&& match c {
        Command::RemoveChar(dx) => clamp_char(s, b.spec_cursor().c as int) + dx <= i32::MAX,
        Command::CliExec => {
            &&& cmd_ready(l.cmd_block)
            &&& line_splits(l.cmd_block.spec_text())
            &&& vstd::utf8::encode_utf8(line).len() > 1 ==> vstd::utf8::encode_utf8(rest_of(line)).len() <= i32::MAX
        },
        Command::CliCancel => reset_ready(l),
        Command::BufferNext => l.layout.buffers@.len() > 1 ==> window_update_ok(l.layout.buffers@[1]),
        Command::BufferPrev => l.layout.buffers@.len() > 1 ==> window_update_ok(
            l.layout.buffers@[l.layout.buffers@.len() - 1],
        ),
        Command::CliEdit(cmds) => {
            let e = edits_of(
                l.cmd_block.spec_text(),
                l.cmd_block.spec_cursor().c as int,
                l.cmd_block.spec_buf().config,
                cmds@,
            ).0;
            &&& cmd_ready(l.cmd_block)
            &&& l.cmd_block.spec_block_view().w > 0
            &&& typing_ok(l.cmd_block, cmds@)
            &&& vstd::utf8::encode_utf8(first_line(e)).len() > 1 ==> vstd::utf8::encode_utf8(
                rest_of(first_line(e)),
            ).len() <= i32::MAX
        },
        Command::Resize(x, y) => complex_fits(l, ViewPos { w: x as usize, h: y as usize, x0: l.view.x0, y0: l.view.y0 }),
        _ => true,
    }
}

/// What the layout's `command` does: the shown window is put in place and its text block sees
/// the command; then `CliExec` takes and runs the command line and updates the layout,
/// `CliCancel` empties the command line and updates the layout, `Resize` puts everything at the
/// new size; other commands do nothing more. The commands handed back are those the command line
/// ran. `Open` names a file to show in a new window: reading it is left to the caller, which
/// hands the buffer to `add_window`.
pub open spec fn complex_step(before: EditorComplexLayout, c: Command, after: EditorComplexLayout, out: Seq<Command>) -> bool {
    let v = before.layout.view;
    exists|w1: BufferWindow, m1: BufferBlock, mid: EditorComplexLayout|
        {
            &&& window_resized(before.layout.buffers@[0], w1, v)
            &&& block_command(w1.main, m1, c)
            &&& mid.layout.view == v
            &&& mid.layout.buffers@ == before.layout.buffers@.update(0, with_main(w1, m1))
            &&& mid.header == before.header
            &&& mid.cmd_block == before.cmd_block
            &&& mid.highlight == before.highlight
            &&& mid.view == before.view
            &&& mid.version == before.version
            &&& match c {
                Command::CliExec => exists|m2: EditorComplexLayout, m3: EditorComplexLayout|
                    {
                        &&& command_updated(mid, m2)
                        &&& exec_done(m2, m3, out)
                        &&& complex_updated(m3, after)
                    },
                Command::CliEdit(cmds) => out.len() == 0 && exists|m2: EditorComplexLayout, m3: EditorComplexLayout, e: BufferWindow|
                    {
                        &&& m2.cmd_block.spec_text() == edits_of(
                            mid.cmd_block.spec_text(),
                            mid.cmd_block.spec_cursor().c as int,
                            mid.cmd_block.spec_buf().config,
                            cmds@,
                        ).0
                        &&& m2.cmd_block.spec_focused()
                        &&& window_resized(mid.layout.buffers@[0], e, v)
                        &&& focus_is(e.main, m2.layout.buffers@[0].main, false)
                        &&& m2.layout.buffers@[0] == with_main(e, m2.layout.buffers@[0].main)
                        &&& command_updated(m2, m3)
                        &&& complex_updated(m3, after)
                    },
                Command::BufferNext => out.len() == 0 && shown_rotated(mid, rotate_next(mid.layout.buffers@), after),
                Command::BufferPrev => out.len() == 0 && shown_rotated(mid, rotate_prev(mid.layout.buffers@), after),
                Command::CliCancel => out.len() == 0 && exists|m2: EditorComplexLayout|
                    {
                        &&& command_was_reset(mid, m2)
                        &&& complex_updated(m2, after)
                    },
                Command::Resize(x, y) => out.len() == 0 && complex_resized(
                    mid,
                    after,
                    ViewPos { w: x as usize, h: y as usize, x0: before.view.x0, y0: before.view.y0 },
                ),
                _ => out.len() == 0 && after == mid,
            }
        }
}

impl EditorComplexLayout {
    /// Carries out a command: the shown window's text block sees it first, then the command
    /// row and the layout handle their own commands.
    pub fn command(&mut self, c: &Command) -> (out: Vec<Command>)
        requires
            complex_ready(*old(self), *c),
        ensures
            complex_step(*old(self), *c, *final(self), out@),
    {
        let ghost v = self.layout.view;
        let ghost w0 = self.layout.buffers@[0];
        let ghost w1: BufferWindow;
        let ghost m1: BufferBlock;
        {
            let w = self.layout.get_buffer_mut();
            proof {
                w1 = *w;
                lemma_prepared(w0, w1, v);
            }
            w.main.command(c);
            proof {
                m1 = w.main;
            }
        }
        let ghost mid = *self;
        proof {
            assert(mid.layout.buffers@ =~= old(self).layout.buffers@.update(0, with_main(w1, m1)));
        }
        match c {
            Command::CliExec => {
                proof {
                    lemma_mid_ready(*old(self), mid, w1, m1, *c);
                }
                self.command_update();
                let ghost m2 = *self;
                proof {
                    lemma_exec_ready(mid, m2);
                }
                let out = self.command_exec();
                self.update();
                out
            },
            Command::CliEdit(cmds) => {
                self.cmd_block.set_focus(true);
                shown_set_focus(&mut self.layout, false);
                type_into(&mut self.cmd_block, cmds);
                let ghost m2 = *self;
                proof {
                    lemma_edit_ready(mid, m2, cmds@);
                }
                self.command_update();
                proof {
                    lemma_exec_ready(m2, *self);
                }
                self.update();
                Vec::new()
            },
            Command::BufferNext => {
                self.layout.buffers.next();
                proof {
                    assert(with_main(w1, m1) == w1);
                    lemma_rotated_ready(w0, mid, self.layout.buffers@, true);
                }
                self.rotated_refresh();
                Vec::new()
            },
            Command::BufferPrev => {
                self.layout.buffers.prev();
                proof {
                    assert(with_main(w1, m1) == w1);
                    lemma_rotated_ready(w0, mid, self.layout.buffers@, false);
                }
                self.rotated_refresh();
                Vec::new()
            },
            Command::CliCancel => {
                self.command_cancel();
                proof {
                    lemma_reset_ready_update(mid, *self);
                }
                self.update();
                Vec::new()
            },
            Command::Resize(x, y) => {
                let view = ViewPos { w: *x as usize, h: *y as usize, x0: self.view.x0, y0: self.view.y0 };
                self.resize(view);
                Vec::new()
            },
            _ => Vec::new(),
        }
    }
}

/// The runs of one row.
pub open spec fn formats_view_one(u: RowUpdate) -> Seq<(LineFormatType, Seq<char>)> {
    crate::tui::row::formats_view(u.formats@)
}

} // verus!
