use ropey::Rope;
use std::collections::VecDeque;
use vstd::prelude::*;

use crate::config::BufferConfig;
use crate::rope::{
    line_count, line_start, rope_append, rope_char, rope_chars, rope_clone, rope_from_str,
    rope_insert, rope_len_chars, rope_len_lines, rope_line_to_char, rope_remove, lemma_line_start,
    lemma_line_start_monotone, lemma_line_start_bounded,
};

verus! {

/// The texts that undo and redo go back to, the most recent first.
#[derive(Debug)]
pub struct UndoList {
    ahead: VecDeque<Rope>,
    behind: VecDeque<Rope>,
}

/// The characters of each rope.
pub open spec fn texts(q: Seq<Rope>) -> Seq<Seq<char>> {
    q.map_values(|r: Rope| rope_chars(r))
}

impl UndoList {
    /// The texts that redo goes forward to.
    pub closed spec fn spec_ahead(&self) -> Seq<Seq<char>> {
        texts(self.ahead@)
    }

    /// The texts that undo goes back to.
    pub closed spec fn spec_behind(&self) -> Seq<Seq<char>> {
        texts(self.behind@)
    }

    /// Steps forward: hands back the most recent undone text and remembers `text` as the
    /// one to undo to; nothing when there is nothing to redo.
    fn redo(&mut self, text: Rope) -> (r: Option<Rope>)
        ensures
            match r {
                Some(v) => {
                    &&& old(self).spec_ahead().len() > 0
                    &&& rope_chars(v) == old(self).spec_ahead()[0]
                    &&& final(self).spec_ahead() == old(self).spec_ahead().drop_first()
                    &&& final(self).spec_behind() == seq![rope_chars(text)] + old(
                        self,
                    ).spec_behind()
                },
                None => {
                    &&& old(self).spec_ahead().len() == 0
                    &&& final(self).spec_ahead() == old(self).spec_ahead()
                    &&& final(self).spec_behind() == old(self).spec_behind()
                },
            },
    {
        let maybe_v = self.ahead.pop_front();
        match maybe_v {
            Some(v) => {
                self.behind.push_front(text);
                proof {
                    assert(texts(self.ahead@) =~= texts(old(self).ahead@).drop_first());
                    assert(texts(self.behind@) =~= seq![rope_chars(text)] + texts(
                        old(self).behind@,
                    ));
                }
                Some(v)
            },
            None => None,
        }
    }

    /// Steps back: hands back the most recent text before a change and remembers `text` as
    /// the one to redo to; nothing when there is nothing to undo.
    fn undo(&mut self, text: Rope) -> (r: Option<Rope>)
        ensures
            match r {
                Some(v) => {
                    &&& old(self).spec_behind().len() > 0
                    &&& rope_chars(v) == old(self).spec_behind()[0]
                    &&& final(self).spec_behind() == old(self).spec_behind().drop_first()
                    &&& final(self).spec_ahead() == seq![rope_chars(text)] + old(
                        self,
                    ).spec_ahead()
                },
                None => {
                    &&& old(self).spec_behind().len() == 0
                    &&& final(self).spec_ahead() == old(self).spec_ahead()
                    &&& final(self).spec_behind() == old(self).spec_behind()
                },
            },
    {
        let maybe_v = self.behind.pop_front();
        match maybe_v {
            Some(v) => {
                self.ahead.push_front(text);
                proof {
                    assert(texts(self.behind@) =~= texts(old(self).behind@).drop_first());
                    assert(texts(self.ahead@) =~= seq![rope_chars(text)] + texts(
                        old(self).ahead@,
                    ));
                }
                Some(v)
            },
            None => None,
        }
    }

    /// Remembers `text`, the state before a change, and forgets what could be redone.
    fn push(&mut self, text: Rope) -> (r: &mut Self)
        ensures
            (*r).spec_ahead() == Seq::<Seq<char>>::empty(),
            (*r).spec_behind() == seq![rope_chars(text)] + old(self).spec_behind(),
            *final(self) == *final(r),
    {
        self.ahead.truncate(0);
        self.behind.push_front(text);
        proof {
            assert(texts(self.ahead@) =~= Seq::<Seq<char>>::empty());
            assert(texts(self.behind@) =~= seq![rope_chars(text)] + texts(old(self).behind@));
        }
        self
    }
}

impl Default for UndoList {
    fn default() -> (u: Self)
        ensures
            u.spec_ahead().len() == 0,
            u.spec_behind().len() == 0,
    {
        let u = Self { ahead: VecDeque::new(), behind: VecDeque::new() };
        proof {
            assert(texts(u.ahead@) =~= Seq::<Seq<char>>::empty());
            assert(texts(u.behind@) =~= Seq::<Seq<char>>::empty());
        }
        u
    }
}

/// What a buffer holds, as values: its text, its path, its settings, the texts that undo
/// goes back to and those that redo goes forward to, the most recent first.
pub struct BufferState {
    pub text: Seq<char>,
    pub path: Seq<char>,
    pub config: BufferConfig,
    pub undo: Seq<Seq<char>>,
    pub redo: Seq<Seq<char>>,
}

/// The state after a change that leaves `text`: the old text can be undone to, and nothing
/// can be redone.
pub open spec fn edited(b: BufferState, text: Seq<char>) -> BufferState {
    BufferState { text: text, undo: seq![b.text] + b.undo, redo: Seq::empty(), ..b }
}

/// The state after an undo: back to the most recent remembered text, which the current one
/// can be redone from; no change when there is nothing to undo.
pub open spec fn undone(b: BufferState) -> BufferState {
    if b.undo.len() > 0 {
        BufferState { text: b.undo[0], undo: b.undo.drop_first(), redo: seq![b.text] + b.redo, ..b }
    } else {
        b
    }
}

/// The state after a redo: forward to the most recent undone text; no change when there is
/// nothing to redo.
pub open spec fn redone(b: BufferState) -> BufferState {
    if b.redo.len() > 0 {
        BufferState { text: b.redo[0], redo: b.redo.drop_first(), undo: seq![b.text] + b.undo, ..b }
    } else {
        b
    }
}

/// `s` without the characters from `a` up to `b`.
pub open spec fn cut(s: Seq<char>, a: int, b: int) -> Seq<char> {
    s.subrange(0, a) + s.subrange(b, s.len() as int)
}

/// `s` with `t` put at position `c`.
pub open spec fn put(s: Seq<char>, c: int, t: Seq<char>) -> Seq<char> {
    s.subrange(0, c) + t + s.subrange(c, s.len() as int)
}

/// What typing `ch` puts in the text: the indentation for a tab, the line separator for a
/// line end, the character itself otherwise.
pub open spec fn typed(config: BufferConfig, ch: char) -> Seq<char> {
    if ch == '\t' {
        config.spec_indent()
    } else if ch == '\n' {
        config.spec_line_sep()
    } else {
        seq![ch]
    }
}

/// How many line-end characters close line `l`: two for `\r\n`, one for `\n`, none otherwise.
pub open spec fn line_end_len(s: Seq<char>, l: int) -> int {
    let a = line_start(s, l);
    let b = line_start(s, l + 1);
    if b - a >= 2 && s[b - 2] == '\r' && s[b - 1] == '\n' {
        2
    } else if b - a >= 1 && s[b - 1] == '\n' {
        1
    } else {
        0
    }
}

/// The state after joining line `l` with the next: its line end (`\r\n` or `\n`) taken
/// out; no change when it has none.
pub open spec fn joined(b: BufferState, l: int) -> BufferState {
    let s = b.text;
    let k = line_end_len(s, l);
    let end = line_start(s, l + 1);
    if k > 0 {
        edited(b, cut(s, end - k, end))
    } else {
        b
    }
}

/// A file's text, where it came from, its settings and its history of changes.
#[derive(Debug)]
pub struct FileBuffer {
    pub text: Rope,
    pub path: String,
    pub config: BufferConfig,
    version: u64,
    history: UndoList,
}

/// A text being edited, with undo and redo.
#[derive(Debug)]
pub struct Buffer {
    buf: FileBuffer,
}

impl View for Buffer {
    type V = BufferState;

    closed spec fn view(&self) -> BufferState {
        BufferState {
            text: rope_chars(self.buf.text),
            path: self.buf.path@,
            config: self.buf.config,
            undo: self.buf.history.spec_behind(),
            redo: self.buf.history.spec_ahead(),
        }
    }
}

impl Buffer {
    fn from_parts(path: String, text: Rope, config: BufferConfig) -> (b: Self)
        ensures
            b@.text == rope_chars(text),
            b@.path == path@,
            b@.config == config,
            b@.undo.len() == 0,
            b@.redo.len() == 0,
    {
        Self {
            buf: FileBuffer { path: path, text: text, config: config, version: 0, history: UndoList::default() },
        }
    }

    /// A buffer for the file at `path` holding `text`, what was read from it, with the
    /// settings for that path.
    pub fn from_path_text(path: &String, text: Rope) -> (b: Self)
        ensures
            b@.text == rope_chars(text),
            b@.path == path@,
            b@.config == BufferConfig::spec_default(),
            b@.undo.len() == 0,
            b@.redo.len() == 0,
    {
        let config = BufferConfig::config_for(Some(path));
        Self::from_parts(path.clone(), text, config)
    }

    /// A buffer with no path holding the characters of `s`.
    pub fn from_string(s: &String) -> (b: Self)
        ensures
            b@.text == s@,
            b@.path.len() == 0,
            b@.config == BufferConfig::spec_default(),
            b@.undo.len() == 0,
            b@.redo.len() == 0,
    {
        let text = rope_from_str(s.as_str());
        let config = BufferConfig::config_for(None);
        Self::from_parts(String::new(), text, config)
    }

    pub fn get_config(&self) -> (c: BufferConfig)
        ensures
            c == self@.config,
    {
        self.buf.config
    }

    /// A copy of the text.
    pub fn get_text(&self) -> (t: Rope)
        ensures
            rope_chars(t) == self@.text,
    {
        rope_clone(&self.buf.text)
    }

    pub fn get_path(&self) -> (p: String)
        ensures
            p@ == self@.path,
    {
        self.buf.path.clone()
    }

    /// Replaces the whole text with the characters of `s`.
    pub fn replace_text(&mut self, s: &str) -> (r: &mut Self)
        ensures
            (*r)@ == edited(old(self)@, s@),
            *final(self) == *final(r),
    {
        let u = rope_clone(&self.buf.text);
        let end = rope_len_chars(&self.buf.text);
        rope_remove(&mut self.buf.text, 0, end);
        rope_append(&mut self.buf.text, rope_from_str(s));
        self.buf.history.push(u);
        proof {
            assert(rope_chars(self.buf.text) =~= s@);
        }
        self
    }

    pub fn set_path(&mut self, s: &str) -> (r: &mut Self)
        ensures
            (*r)@ == (BufferState { path: s@, ..old(self)@ }),
            *final(self) == *final(r),
    {
        self.buf.path = s.to_owned();
        self
    }

    /// Takes out the characters from `start` up to `end` (cut to the text's end); no change
    /// when that range is empty.
    pub fn remove_range(&mut self, start: usize, end: usize) -> (r: &mut Self)
        ensures
            (*r)@ == ({
                let s = old(self)@.text;
                let end0 = if end > s.len() {
                    s.len() as int
                } else {
                    end as int
                };
                if start < end0 {
                    edited(old(self)@, cut(s, start as int, end0))
                } else {
                    old(self)@
                }
            }),
            *final(self) == *final(r),
    {
        let u = rope_clone(&self.buf.text);
        let length = rope_len_chars(&self.buf.text);
        let mut end0 = end;
        if end0 > length {
            end0 = length;
        }
        if start < end0 {
            rope_remove(&mut self.buf.text, start, end0);
            self.buf.history.push(u);
        }
        self
    }

    /// Types `ch` at position `c` and returns how many bytes went in: a tab puts in the
    /// indentation and a line end the line separator.
    pub fn insert_char(&mut self, c: usize, ch: char) -> (n: usize)
        requires
            c <= old(self)@.text.len(),
        ensures
            final(self)@ == edited(old(self)@, put(old(self)@.text, c as int, typed(old(self)@.config, ch))),
            n == vstd::utf8::encode_utf8(typed(old(self)@.config, ch)).len(),
    {
        let u = rope_clone(&self.buf.text);
        let s = if ch == '\t' {
            self.buf.config.indent()
        } else if ch == '\n' {
            self.buf.config.line_sep()
        } else {
            let mut t = String::new();
            crate::strings::string_push(&mut t, ch);
            assert(t@ =~= seq![ch]);
            t
        };
        rope_insert(&mut self.buf.text, c, s.as_str());
        self.buf.history.push(u);
        proof {
            lemma_typed_len(self.buf.config, ch);
            crate::text::format::lemma_encode_utf8_len(s@);
        }
        s.as_str().len()
    }

    /// Puts `s` at position `c` and returns its length in bytes.
    pub fn insert_string(&mut self, c: usize, s: &str) -> (n: usize)
        requires
            c <= old(self)@.text.len(),
        ensures
            final(self)@ == edited(old(self)@, put(old(self)@.text, c as int, s@)),
            n == vstd::utf8::encode_utf8(s@).len() as usize,
    {
        let u = rope_clone(&self.buf.text);
        rope_insert(&mut self.buf.text, c, s);
        self.buf.history.push(u);
        s.len()
    }

    /// Takes out the character before position `c`; no change at the start.
    pub fn remove_char(&mut self, c: usize) -> (r: &mut Self)
        requires
            c <= old(self)@.text.len(),
        ensures
            (*r)@ == if c > 0 {
                edited(old(self)@, cut(old(self)@.text, c - 1, c as int))
            } else {
                old(self)@
            },
            *final(self) == *final(r),
    {
        if c > 0 {
            let u = rope_clone(&self.buf.text);
            rope_remove(&mut self.buf.text, c - 1, c);
            self.buf.history.push(u);
        }
        self
    }

    /// Takes out the line end (`\r\n` or `\n`) that closes line `line_inx`, so that it joins
    /// the next line; no change when the line has none.
    pub fn join_line(&mut self, line_inx: usize) -> (r: &mut Self)
        requires
            line_inx < line_count(old(self)@.text),
        ensures
            (*r)@ == joined(old(self)@, line_inx as int),
            *final(self) == *final(r),
    {
        let ghost s = rope_chars(self.buf.text);
        let u = rope_clone(&self.buf.text);
        proof {
            lemma_line_start(s, line_inx as int);
            lemma_line_start_monotone(s, line_inx as int, line_inx + 1);
        }
        let n = rope_len_lines(&self.buf.text);
        proof {
            lemma_line_start_bounded(s, line_inx + 1);
        }
        let lc0 = rope_line_to_char(&self.buf.text, line_inx);
        let end = rope_line_to_char(&self.buf.text, line_inx + 1);
        let remove: usize = if end - lc0 >= 2 && rope_char(&self.buf.text, end - 2) == '\r'
            && rope_char(&self.buf.text, end - 1) == '\n' {
            2
        } else if end - lc0 >= 1 && rope_char(&self.buf.text, end - 1) == '\n' {
            1
        } else {
            0
        };
        if remove > 0 {
            let start = end - remove;
            rope_remove(&mut self.buf.text, start, end);
            self.buf.history.push(u);
        }
        self
    }

    /// Takes out lines `start_inx` up to `end_inx`; no change when that range is empty.
    pub fn delete_line_range(&mut self, start_inx: usize, end_inx: usize) -> (r: &mut Self)
        requires
            start_inx <= line_count(old(self)@.text),
            end_inx <= line_count(old(self)@.text),
        ensures
            (*r)@ == ({
                let s = old(self)@.text;
                let c0 = line_start(s, start_inx as int);
                let c1 = line_start(s, end_inx as int);
                if c1 > c0 {
                    edited(old(self)@, cut(s, c0, c1))
                } else {
                    old(self)@
                }
            }),
            *final(self) == *final(r),
    {
        let ghost s = rope_chars(self.buf.text);
        let u = rope_clone(&self.buf.text);
        let c0 = rope_line_to_char(&self.buf.text, start_inx);
        let c1 = rope_line_to_char(&self.buf.text, end_inx);
        if c1 > c0 {
            proof {
                lemma_line_start_bounded(s, end_inx as int);
            }
            rope_remove(&mut self.buf.text, c0, c1);
            self.buf.history.push(u);
        }
        self
    }

    /// Goes back to the text before the most recent change.
    pub fn undo(&mut self) -> (r: &mut Self)
        ensures
            (*r)@ == undone(old(self)@),
            *final(self) == *final(r),
    {
        let save = rope_clone(&self.buf.text);
        if let Some(text) = self.buf.history.undo(save) {
            self.buf.text = text;
        }
        self
    }

    /// Goes forward to the text before the most recent undo.
    pub fn redo(&mut self) -> (r: &mut Self)
        ensures
            (*r)@ == redone(old(self)@),
            *final(self) == *final(r),
    {
        let save = rope_clone(&self.buf.text);
        if let Some(text) = self.buf.history.redo(save) {
            self.buf.text = text;
        }
        self
    }
}

/// What typing one character puts in is at most a few hundred characters long.
proof fn lemma_typed_len(config: BufferConfig, ch: char)
    ensures
        typed(config, ch).len() <= 255,
{
}

/// Undoing a change gives back the text from before it, with the same history to undo, and
/// the changed text as the one thing to redo.
/// Taking out what was just put in gives back the text: after `t` is put at `c`, cutting
/// from `c` up to `c + t.len()` leaves `s` (so `remove_range` undoes `insert_string`, and
/// `remove_char` just after the typed character undoes `insert_char` of a plain character).
pub proof fn lemma_cut_after_put(s: Seq<char>, c: int, t: Seq<char>)
    requires
        0 <= c <= s.len(),
    ensures
        cut(put(s, c, t), c, c + t.len()) == s,
{
    let p = put(s, c, t);
    assert(p.subrange(0, c) =~= s.subrange(0, c));
    assert(p.subrange(c + t.len(), p.len() as int) =~= s.subrange(c, s.len() as int));
    assert(cut(p, c, c + t.len()) =~= s);
}

pub proof fn lemma_undo_after_edit(b: BufferState, text: Seq<char>)
    ensures
        undone(edited(b, text)) == (BufferState { redo: seq![text], ..b }),
{
    assert((seq![b.text] + b.undo).drop_first() =~= b.undo);
    assert(seq![text] + Seq::<Seq<char>>::empty() =~= seq![text]);
}

/// Redoing right after an undo comes back to where the undo started.
pub proof fn lemma_redo_after_undo(b: BufferState)
    requires
        b.undo.len() > 0,
    ensures
        redone(undone(b)) == b,
{
    assert((seq![b.text] + b.redo).drop_first() =~= b.redo);
    assert(seq![b.undo[0]] + b.undo.drop_first() =~= b.undo);
}

/// Undoing right after a redo comes back to where the redo started.
pub proof fn lemma_undo_after_redo(b: BufferState)
    requires
        b.redo.len() > 0,
    ensures
        undone(redone(b)) == b,
{
    assert((seq![b.text] + b.undo).drop_first() =~= b.undo);
    assert(seq![b.redo[0]] + b.redo.drop_first() =~= b.redo);
}

/// After a change there is nothing to redo.
pub proof fn lemma_redo_after_edit(b: BufferState, text: Seq<char>)
    ensures
        redone(edited(b, text)) == edited(b, text),
{
}

/// With nothing to undo, undo changes nothing.
pub proof fn lemma_undo_empty(b: BufferState)
    requires
        b.undo.len() == 0,
    ensures
        undone(b) == b,
{
}

} // verus!
