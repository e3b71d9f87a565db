use vstd::prelude::*;

use crate::strings::{default_hash, string_hash, string_push};
use crate::text::smart::Wrap;

verus! {

/// What a row of a view shows: a line of text, or the end of the file.
#[derive(Debug)]
pub enum RowType {
    Line(String),
    Eof,
}

/// A row of a view with the checksum of what it shows, the range of characters it shows,
/// and whether it must be drawn again.
#[derive(Debug)]
pub struct ViewRow {
    body: RowType,
    checksum: u64,
    line: usize,
    pub c0: usize,
    pub c1: usize,
    pub dirty: bool,
}

/// The checksum of what a row shows.
pub open spec fn body_checksum(body: Option<Seq<char>>) -> u64 {
    match body {
        Some(s) => default_hash(s),
        None => 0,
    }
}

/// A line with each line feed shown as a dot.
pub open spec fn dotted(s: Seq<char>) -> Seq<char> {
    s.map_values(|c: char| if c == '\n' { '.' } else { c })
}

impl ViewRow {
    /// The text the row shows, or `None` at the end of the file.
    pub closed spec fn spec_body(&self) -> Option<Seq<char>> {
        match self.body {
            RowType::Line(s) => Some(s@),
            RowType::Eof => None,
        }
    }

    pub closed spec fn spec_checksum(&self) -> u64 {
        self.checksum
    }

    pub closed spec fn spec_line(&self) -> usize {
        self.line
    }

    pub closed spec fn spec_c0(&self) -> usize {
        self.c0
    }

    pub closed spec fn spec_c1(&self) -> usize {
        self.c1
    }

    pub closed spec fn spec_dirty(&self) -> bool {
        self.dirty
    }

    /// The checksum is that of what the row shows.
    pub open spec fn wf(&self) -> bool {
        self.spec_checksum() == body_checksum(self.spec_body())
    }

    /// A row showing `body`, to be drawn.
    pub fn new(body: String) -> (r: Self)
        ensures
            r.wf(),
            r.spec_body() == Some(body@),
            r.spec_dirty(),
            r.spec_line() == 0,
            r.spec_c0() == 0,
            r.spec_c1() == 0,
    {
        Self { body: RowType::Line(body), checksum: 0, dirty: false, line: 0, c0: 0, c1: 0 }.init()
    }

    fn init(self) -> (r: Self)
        ensures
            r.wf(),
            r.spec_body() == self.spec_body(),
            r.spec_dirty(),
            r.spec_line() == self.spec_line(),
            r.spec_c0() == self.spec_c0(),
            r.spec_c1() == self.spec_c1(),
    {
        let mut r = self;
        r.update_hash();
        r.dirty = true;
        r
    }

    /// Whether the row holds character `c`; a row with an empty range holds every character.
    pub fn is_within(&self, c: usize) -> (b: bool)
        ensures
            b == (self.spec_c0() == self.spec_c1() || (self.spec_c0() <= c && c < self.spec_c1())),
    {
        self.c0 == self.c1 || (self.c0 <= c && c < self.c1)
    }

    /// Whether the row shows a line of text.
    pub fn is_line(&self) -> (b: bool)
        ensures
            b == self.spec_body() is Some,
    {
        match self.body {
            RowType::Line(_) => true,
            _ => false,
        }
    }

    /// The row's text with line feeds shown as dots; empty at the end of the file.
    pub fn to_string(&self) -> (s: String)
        ensures
            s@ == match self.spec_body() {
                Some(b) => dotted(b),
                None => Seq::<char>::empty(),
            },
    {
        let mut out = String::new();
        match &self.body {
            RowType::Line(x) => {
                for c in it: x.as_str().chars()
                    invariant
                        it.seq() == x@,
                        out@ == dotted(x@.take(it.index() as int)),
                {
                    let ghost k = it.index();
                    push_dotted(&mut out, c);
                    assert(dotted(x@.take(k + 1)) =~= dotted(x@.take(k as int)).push(
                        if c == '\n' {
                            '.'
                        } else {
                            c
                        },
                    ));
                }
                assert(x@.take(x@.len() as int) =~= x@);
            },
            _ => {},
        }
        out
    }

    /// Recomputes the checksum; reports whether it changed.
    fn update_hash(&mut self) -> (changed: bool)
        ensures
            final(self).wf(),
            changed == (final(self).spec_checksum() != old(self).spec_checksum()),
            final(self).spec_body() == old(self).spec_body(),
            final(self).spec_line() == old(self).spec_line(),
            final(self).spec_c0() == old(self).spec_c0(),
            final(self).spec_c1() == old(self).spec_c1(),
            final(self).spec_dirty() == old(self).spec_dirty(),
    {
        let v = match &self.body {
            RowType::Line(s) => string_hash(s),
            RowType::Eof => 0,
        };
        let changed = v != self.checksum;
        self.checksum = v;
        changed
    }

    /// The row now shows the end of the file; it must be drawn again when its checksum
    /// changed.
    pub fn make_eof(&mut self)
        ensures
            eof_made(*old(self), *final(self)),
    {
        self.body = RowType::Eof;
        self.dirty = self.update_hash();
    }

    /// Takes the line and character range of a wrapped row.
    pub fn update_wrap(&mut self, w: &Wrap)
        ensures
            final(self).wf() == old(self).wf(),
            final(self).spec_line() == w.line0,
            final(self).spec_c0() == w.c0,
            final(self).spec_c1() == w.c1,
            final(self).spec_body() == old(self).spec_body(),
            final(self).spec_checksum() == old(self).spec_checksum(),
            final(self).spec_dirty() == old(self).spec_dirty(),
    {
        self.line = w.line0;
        self.c0 = w.c0;
        self.c1 = w.c1;
    }

    /// The row now shows `body`; it must be drawn again when its checksum changed.
    pub fn update_string(&mut self, body: String)
        ensures
            string_updated(*old(self), *final(self), body@),
    {
        self.body = RowType::Line(body);
        self.dirty = self.update_hash();
    }

    /// The first character of the row's range.
    pub fn c0(&self) -> (c: usize)
        ensures
            c == self.spec_c0(),
    {
        self.c0
    }

    /// One past the last character of the row's range.
    pub fn c1(&self) -> (c: usize)
        ensures
            c == self.spec_c1(),
    {
        self.c1
    }

    /// The row must be drawn again.
    pub fn mark_dirty(&mut self)
        ensures
            final(self).spec_dirty(),
            final(self).spec_body() == old(self).spec_body(),
            final(self).spec_checksum() == old(self).spec_checksum(),
            final(self).spec_line() == old(self).spec_line(),
            final(self).spec_c0() == old(self).spec_c0(),
            final(self).spec_c1() == old(self).spec_c1(),
    {
        self.dirty = true;
    }

    /// Whether the row must be drawn again.
    pub fn is_dirty(&self) -> (b: bool)
        ensures
            b == self.spec_dirty(),
    {
        self.dirty
    }

    /// The row has been drawn.
    pub fn clear(&mut self)
        ensures
            !final(self).spec_dirty(),
            final(self).spec_body() == old(self).spec_body(),
            final(self).spec_checksum() == old(self).spec_checksum(),
            final(self).spec_line() == old(self).spec_line(),
            final(self).spec_c0() == old(self).spec_c0(),
            final(self).spec_c1() == old(self).spec_c1(),
    {
        self.dirty = false;
    }
}

/// `x` with each line feed replaced by a dot.
pub(crate) fn dot_line_feeds(x: &String) -> (out: String)
    ensures
        out@ == dotted(x@),
{
    let mut out = String::new();
    for c in it: x.as_str().chars()
        invariant
            it.seq() == x@,
            out@ == dotted(x@.take(it.index() as int)),
    {
        let ghost k = it.index();
        push_dotted(&mut out, c);
        assert(dotted(x@.take(k + 1)) =~= dotted(x@.take(k as int)).push(
            if c == '\n' {
                '.'
            } else {
                c
            },
        ));
    }
    assert(x@.take(x@.len() as int) =~= x@);
    out
}

/// What `update_string` does to row `r` (giving `r2`) with text `body`: the row shows `body`
/// with its checksum, and is to be drawn when its checksum changed; its line and range stay.
pub open spec fn string_updated(r: ViewRow, r2: ViewRow, body: Seq<char>) -> bool {
    &&& r2.wf()
    &&& r2.spec_body() == Some(body)
    &&& r2.spec_dirty() == (r.spec_checksum() != default_hash(body))
    &&& r2.spec_line() == r.spec_line()
    &&& r2.spec_c0() == r.spec_c0()
    &&& r2.spec_c1() == r.spec_c1()
}

/// What `make_eof` does to row `r` (giving `r2`): the row shows the end of the file, with its
/// checksum, and is to be drawn when its checksum changed; its line and range stay.
pub open spec fn eof_made(r: ViewRow, r2: ViewRow) -> bool {
    &&& r2.wf()
    &&& r2.spec_body() is None
    &&& r2.spec_dirty() == (r.spec_checksum() != 0)
    &&& r2.spec_line() == r.spec_line()
    &&& r2.spec_c0() == r.spec_c0()
    &&& r2.spec_c1() == r.spec_c1()
}

/// Setting the same text twice in a row leaves the row clean the second time: `update_string`
/// reports no change, and the row keeps its text and range.
pub proof fn lemma_same_text_stays_clean(r0: ViewRow, r1: ViewRow, r2: ViewRow, text: Seq<char>)
    requires
        string_updated(r0, r1, text),
        string_updated(r1, r2, text),
    ensures
        !r2.spec_dirty(),
        r2.spec_body() == Some(text),
        r2.spec_c0() == r0.spec_c0() && r2.spec_c1() == r0.spec_c1(),
{
}

/// Marking a row as the end of the file twice in a row leaves it clean the second time:
/// `make_eof` reports no change, and the row keeps its range.
pub proof fn lemma_eof_twice_stays_clean(r0: ViewRow, r1: ViewRow, r2: ViewRow)
    requires
        eof_made(r0, r1),
        eof_made(r1, r2),
    ensures
        !r2.spec_dirty(),
        r2.spec_body() is None,
        r2.spec_c0() == r0.spec_c0() && r2.spec_c1() == r0.spec_c1(),
{
}

fn push_dotted(out: &mut String, c: char)
    ensures
        final(out)@ == old(out)@.push(
            if c == '\n' {
                '.'
            } else {
                c
            },
        ),
{
    if c == '\n' {
        string_push(out, '.');
    } else {
        string_push(out, c);
    }
}

impl Default for ViewRow {
    fn default() -> (r: Self)
        ensures
            r.wf(),
            r.spec_body() == Some(Seq::<char>::empty()),
            r.spec_dirty(),
            r.spec_line() == 0,
            r.spec_c0() == 0,
            r.spec_c1() == 0,
    {
        Self::new(String::new())
    }
}

impl PartialEq for ViewRow {
    fn eq(&self, other: &Self) -> (r: bool) {
        self.checksum == other.checksum
    }
}

impl vstd::std_specs::cmp::PartialEqSpecImpl for ViewRow {
    open spec fn obeys_eq_spec() -> bool {
        true
    }

    open spec fn eq_spec(&self, other: &Self) -> bool {
        self.spec_checksum() == other.spec_checksum()
    }
}

impl Eq for ViewRow {

}

} // verus!
