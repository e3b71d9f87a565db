use ropey::Rope;
use vstd::prelude::*;

use crate::rope::{rope_chars, rope_from_str, rope_insert, rope_remove};
use crate::text::wrap::WrapValue;
use crate::text::Mode;

verus! {

/// A text being edited in a terminal window: the text, where it came from, whether it
/// changed, the editing mode, the characters the window shows and the window itself.
#[derive(Debug)]
pub struct TextBuffer {
    pub text: Rope,
    pub path: String,
    pub dirty: bool,
    pub line_offset: usize,
    pub line_current: usize,
    pub mode: Mode,
    pub char_start: usize,
    pub char_current: usize,
    pub char_end: usize,
    pub view: EditorView,
}

/// The window of a text buffer: its size, the cursor and the column it tries to keep, the
/// size of the text area, the rows of the info and command lines, and the rows shown.
#[derive(Debug)]
pub struct EditorView {
    pub size: (u16, u16),
    pub cursor: (u16, u16),
    pub cursor_x_hint: u16,
    pub vsy: u16,
    pub vsx: u16,
    pub r_info: u16,
    pub r_command: u16,
    pub debug: String,
    pub wraps: Vec<WrapValue>,
    pub wrap_current: u16,
}

impl EditorView {
    fn new() -> (v: Self)
        ensures
            v.size == (0u16, 0u16),
            v.cursor == (0u16, 0u16),
            v.cursor_x_hint == 0,
            v.vsy == 0 && v.vsx == 0 && v.r_info == 0 && v.r_command == 0,
            v.debug@.len() == 0,
            v.wraps@.len() == 0,
            v.wrap_current == 0,
    {
        Self {
            size: (0, 0),
            cursor: (0, 0),
            cursor_x_hint: 0,
            vsy: 0,
            vsx: 0,
            r_info: 0,
            r_command: 0,
            debug: String::new(),
            wraps: Vec::new(),
            wrap_current: 0,
        }
    }
}

impl TextBuffer {
    /// A buffer of `text` from `path`, unchanged, in normal mode, at the start, with an empty
    /// window.
    pub fn new(text: Rope, path: &str) -> (b: Self)
        ensures
            rope_chars(b.text) == rope_chars(text),
            b.path@ == path@,
            !b.dirty,
            b.mode == Mode::Normal,
            b.line_offset == 0 && b.line_current == 0,
            b.char_start == 0 && b.char_current == 0 && b.char_end == 0,
            b.view.size == (0u16, 0u16) && b.view.cursor == (0u16, 0u16),
            b.view.vsx == 0 && b.view.vsy == 0,
            b.view.wraps@.len() == 0,
    {
        Self {
            text: text,
            path: path.to_owned(),
            dirty: false,
            mode: Mode::default(),
            line_offset: 0,
            line_current: 0,
            char_start: 0,
            char_current: 0,
            char_end: 0,
            view: EditorView::new(),
        }
    }

    /// A buffer holding the characters of `s`, with no path.
    pub fn from_str(s: &str) -> (b: Self)
        ensures
            rope_chars(b.text) == s@,
            b.path@.len() == 0,
            !b.dirty,
            b.char_start == 0 && b.char_current == 0 && b.char_end == 0,
            b.view.vsx == 0 && b.view.vsy == 0,
    {
        let text = rope_from_str(s);
        proof {
            reveal_strlit("");
        }
        Self::new(text, "")
    }

    pub fn set_cursor(&mut self, x: u16, y: u16)
        ensures
            final(self).view.cursor == (x, y),
            rope_chars(final(self).text) == rope_chars(old(self).text),
            final(self).view.vsx == old(self).view.vsx,
            final(self).char_start == old(self).char_start,
    {
        self.view.cursor = (x, y);
    }

    pub fn pos(&self) -> (p: (u16, u16))
        ensures
            p == self.view.cursor,
    {
        self.view.cursor
    }

    pub fn cursor(&self) -> (p: (u16, u16))
        ensures
            p == self.view.cursor,
    {
        self.view.cursor
    }

    pub fn size(&self) -> (p: (u16, u16))
        ensures
            p == self.view.size,
    {
        self.view.size
    }

    /// Replaces the characters from `start` up to `end` with `text`.
    fn edit(&mut self, start: usize, end: usize, text: &str)
        requires
            start <= end <= rope_chars(old(self).text).len(),
        ensures
            rope_chars(final(self).text) == rope_chars(old(self).text).subrange(0, start as int)
                + text@ + rope_chars(old(self).text).subrange(end as int, rope_chars(old(self).text).len() as int),
            final(self).dirty,
    {
        let ghost s = rope_chars(self.text);
        if start != end {
            rope_remove(&mut self.text, start, end);
        }
        if !text.is_empty() {
            rope_insert(&mut self.text, start, text);
        }
        self.dirty = true;
        proof {
            let s2 = rope_chars(self.text);
            if text@.len() == 0 {
                assert(s2 =~= s.subrange(0, start as int) + text@ + s.subrange(end as int, s.len() as int));
            } else {
                assert(s2 =~= s.subrange(0, start as int) + text@ + s.subrange(end as int, s.len() as int));
            }
        }
    }
}

} // verus!
