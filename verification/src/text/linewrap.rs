use lru::LruCache;
use ropey::Rope;
use vstd::prelude::*;

use crate::div_ceil;
use crate::rope::{
    breaks_before, lemma_breaks_bounded, lemma_line_of, line_count, line_start, rope_char_to_line,
    rope_chars, rope_len_lines, rope_line_string, text_fits,
};
use crate::text::viewport::ViewPort;
pub use crate::text::ViewChar;

verus! {

#[verifier::external_type_specification]
#[verifier::external_body]
#[verifier::reject_recursive_types(K)]
#[verifier::reject_recursive_types(V)]
#[verifier::reject_recursive_types(S)]
pub struct ExLruCache<K, V, S>(LruCache<K, V, S>);

#[verifier::external_type_specification]
#[verifier::external_body]
pub struct ExLruHasher(lru::DefaultHasher);

/// The cells of one character: a tab takes four, three fillers and its mark.
pub open spec fn char_cells(c: char) -> Seq<ViewChar> {
    if c == '\t' {
        seq![ViewChar::NOP, ViewChar::NOP, ViewChar::NOP, ViewChar::Tab]
    } else if c == '\n' {
        seq![ViewChar::NL]
    } else {
        seq![ViewChar::Char(c)]
    }
}

/// The cells of a line.
pub open spec fn line_cells(s: Seq<char>) -> Seq<ViewChar>
    decreases s.len(),
{
    if s.len() == 0 {
        seq![]
    } else {
        line_cells(s.drop_last()) + char_cells(s.last())
    }
}

/// The number of cells that stand for a character (all but the fillers).
pub open spec fn shown(es: Seq<ViewChar>) -> nat
    decreases es.len(),
{
    if es.len() == 0 {
        0
    } else {
        shown(es.drop_last()) + if es.last() == ViewChar::NOP {
            0nat
        } else {
            1nat
        }
    }
}

pub(crate) proof fn lemma_line_cells_len(s: Seq<char>)
    ensures
        line_cells(s).len() <= 4 * s.len(),
    decreases s.len(),
{
    if s.len() > 0 {
        lemma_line_cells_len(s.drop_last());
        let c = s.last();
        if c == '\t' {
            assert(char_cells(c).len() == 4);
        } else if c == '\n' {
            assert(char_cells(c).len() == 1);
        } else {
            lemma_plain_cells(c);
        }
    }
}

pub(crate) proof fn lemma_plain_cells(c: char)
    requires
        c != '\t',
        c != '\n',
    ensures
        char_cells(c) == seq![ViewChar::Char(c)],
        char_cells(c).len() == 1,
{
}

pub(crate) proof fn lemma_shown_le(es: Seq<ViewChar>)
    ensures
        shown(es) <= es.len(),
    decreases es.len(),
{
    if es.len() > 0 {
        lemma_shown_le(es.drop_last());
    }
}

/// A line of text cut into cells, with its number of shown cells and of rows at width `sx`.
#[derive(Debug)]
pub struct Line {
    s: String,
    size: usize,
    line_inx: usize,
    sx: u16,
    wraps: usize,
    elements: Vec<ViewChar>,
}

impl Line {
    pub closed spec fn spec_s(&self) -> Seq<char> {
        self.s@
    }

    pub closed spec fn spec_size(&self) -> usize {
        self.size
    }

    pub closed spec fn spec_line_inx(&self) -> usize {
        self.line_inx
    }

    pub closed spec fn spec_sx(&self) -> u16 {
        self.sx
    }

    pub closed spec fn spec_wraps(&self) -> usize {
        self.wraps
    }

    pub closed spec fn spec_elements(&self) -> Seq<ViewChar> {
        self.elements@
    }

    /// The line's cells, their count and its rows agree with its text.
    pub open spec fn wf(&self) -> bool {
        &&& self.spec_elements() == line_cells(self.spec_s())
        &&& self.spec_size() == shown(self.spec_elements())
        &&& self.spec_wraps() == self.spec_elements().len() / (self.spec_sx() as nat) + 1
    }

    fn new(line_inx: usize, s: String, sx: u16) -> (l: Self)
        requires
            sx > 0,
            4 * s@.len() <= usize::MAX,
        ensures
            l.wf(),
            l.spec_s() == s@,
            l.spec_line_inx() == line_inx,
            l.spec_sx() == sx,
    {
        let mut out = Self { line_inx, s: String::new(), sx, elements: Vec::new(), wraps: 0, size: 0 };
        out.update(s);
        out
    }

    /// Takes `s` as the line's text and cuts it into cells again.
    fn update(&mut self, s: String)
        requires
            old(self).spec_sx() > 0,
            4 * s@.len() <= usize::MAX,
        ensures
            final(self).wf(),
            final(self).spec_s() == s@,
            final(self).spec_line_inx() == old(self).spec_line_inx(),
            final(self).spec_sx() == old(self).spec_sx(),
    {
        let vsx = self.sx as usize;
        let mut elements: Vec<ViewChar> = Vec::new();
        for c in it: s.as_str().chars()
            invariant
                it.seq() == s@,
                elements@ == line_cells(s@.take(it.index() as int)),
        {
            let ghost k = it.index();
            push_cells(&mut elements, c);
            proof {
                assert(s@.take(k + 1).drop_last() =~= s@.take(k as int));
            }
        }
        proof {
            assert(s@.take(s@.len() as int) =~= s@);
            lemma_line_cells_len(s@);
        }
        let mut size: usize = 0;
        let mut i: usize = 0;
        while i < elements.len()
            invariant
                i <= elements@.len(),
                size == shown(elements@.take(i as int)),
            decreases elements@.len() - i,
        {
            proof {
                assert(elements@.take(i + 1).drop_last() =~= elements@.take(i as int));
                lemma_shown_le(elements@.take(i as int));
            }
            if elements[i] != ViewChar::NOP {
                size = size + 1;
            }
            i = i + 1;
        }
        proof {
            assert(elements@.take(elements@.len() as int) =~= elements@);
        }
        self.s = s;
        self.size = size;
        self.wraps = elements.len() / vsx + 1;
        self.elements = elements;
    }

    /// The rows of the line's cells.
    fn iter(&self) -> (it: RowIterator<'_>)
        requires
            self.spec_sx() > 0,
            self.spec_elements().len() + self.spec_sx() <= usize::MAX,
        ensures
            it.spec_elements() == self.spec_elements(),
            it.spec_sx() == self.spec_sx(),
            it.spec_current() == 0,
    {
        RowIterator::new(self.elements.as_slice(), self.sx as usize)
    }
}

pub(crate) fn push_cells(v: &mut Vec<ViewChar>, c: char)
    ensures
        final(v)@ == old(v)@ + char_cells(c),
{
    if c == '\t' {
        v.push(ViewChar::NOP);
        v.push(ViewChar::NOP);
        v.push(ViewChar::NOP);
        v.push(ViewChar::Tab);
        assert(v@ =~= old(v)@ + char_cells(c));
    } else if c == '\n' {
        v.push(ViewChar::NL);
        assert(v@ =~= old(v)@ + char_cells(c));
    } else {
        v.push(ViewChar::Char(c));
        assert(v@ =~= old(v)@ + char_cells(c));
    }
}

/// Row `k` of cells cut at width `sx`.
pub open spec fn row_at(es: Seq<ViewChar>, sx: int, k: int) -> Seq<ViewChar> {
    es.subrange(
        k * sx,
        if es.len() < k * sx + sx {
            es.len() as int
        } else {
            k * sx + sx
        },
    )
}

/// The number of rows of cells cut at width `sx`.
pub open spec fn row_count(es: Seq<ViewChar>, sx: int) -> int {
    (es.len() + sx - 1) / sx
}

/// Hands out the rows of a line's cells, `sx` cells each (the last may be shorter).
pub struct RowIterator<'a> {
    elements: &'a [ViewChar],
    sx: usize,
    current: usize,
}

impl<'a> RowIterator<'a> {
    pub closed spec fn spec_elements(&self) -> Seq<ViewChar> {
        self.elements@
    }

    pub closed spec fn spec_sx(&self) -> usize {
        self.sx
    }

    pub closed spec fn spec_current(&self) -> usize {
        self.current
    }

    fn new(elements: &'a [ViewChar], sx: usize) -> (it: Self)
        ensures
            it.spec_elements() == elements@,
            it.spec_sx() == sx,
            it.spec_current() == 0,
    {
        Self { elements, sx, current: 0 }
    }

    /// The next row, or none after the last.
    pub fn next(&mut self) -> (r: Option<&'a [ViewChar]>)
        requires
            old(self).spec_sx() > 0,
            old(self).spec_elements().len() + old(self).spec_sx() <= usize::MAX,
        ensures
            final(self).spec_elements() == old(self).spec_elements(),
            final(self).spec_sx() == old(self).spec_sx(),
            ({
                let es = old(self).spec_elements();
                let sx = old(self).spec_sx() as int;
                let k = old(self).spec_current() as int;
                if es.len() == 0 || k >= row_count(es, sx) {
                    r is None && final(self).spec_current() == old(self).spec_current()
                } else {
                    &&& r matches Some(row) && row@ == row_at(es, sx, k)
                    &&& final(self).spec_current() == k + 1
                }
            }),
    {
        if self.elements.len() == 0 {
            return None;
        }
        let wraps = div_ceil(self.elements.len(), self.sx);
        if self.current >= wraps {
            return None;
        }
        proof {
            let n = self.elements@.len() as int;
            let sx = self.sx as int;
            let k = self.current as int;
            assert(k * sx < n) by (nonlinear_arith)
                requires
                    k < (n + sx - 1) / sx,
                    sx > 0,
                    n > 0,
                    k >= 0,
            ;
        }
        let start = self.current * self.sx;
        let end = start + self.sx;
        self.current = self.current + 1;
        let stop = if self.elements.len() < end {
            self.elements.len()
        } else {
            end
        };
        Some(&self.elements[start..stop])
    }
}

/// One row on the screen: its cells and the number of shown cells of its line before it.
#[derive(Debug)]
struct Row {
    elements: Vec<ViewChar>,
    line_offset: usize,
}

/// The rows of line `l` of `s` at width `sx`, with the shown cells of its line before each.
pub open spec fn line_rows(s: Seq<char>, sx: int, l: int) -> Seq<(Seq<ViewChar>, int)> {
    let es = line_cells(s.subrange(line_start(s, l), line_start(s, l + 1)));
    let n = if es.len() == 0 {
        0
    } else {
        row_count(es, sx)
    };
    Seq::new(n as nat, |k: int| (row_at(es, sx, k), shown(es.subrange(0, k * sx)) as int))
}

/// The rows of the lines from `l` on.
pub open spec fn rows_from(s: Seq<char>, sx: int, l: int) -> Seq<(Seq<ViewChar>, int)>
    decreases line_count(s) - l,
{
    if l < 0 || l >= line_count(s) {
        seq![]
    } else {
        line_rows(s, sx, l) + rows_from(s, sx, l + 1)
    }
}

/// What `LineWrap::get` finds under a screen cell: the cell and the number of shown cells
/// before it in its row.
#[derive(Debug)]
pub struct Info {
    pub e: ViewChar,
    pub x: usize,
}

/// The rows of a screen of `sy` rows of width `sx`, starting at the line of a view's first
/// character, and a cache of cut lines.
#[derive(Debug)]
pub struct LineWrap<'a> {
    dummy: &'a str,
    lines: LruCache<usize, Line>,
    rows: Vec<Row>,
    sx: u16,
    sy: u16,
    _port: ViewPort,
}

/// The line numbers that a cache of lines holds.
pub uninterp spec fn lru_keys(c: LruCache<usize, Line>) -> Set<usize>;

/// The number of lines a cache of lines holds at most.
pub uninterp spec fn lru_cap(c: LruCache<usize, Line>) -> usize;

/// `LruCache::new` of `lru`: a cache that holds nothing yet and at most `cap` items (its map
/// starts empty and `cap()` gives back `cap`). The cache is kept but never read here.
#[verifier::external_body]
fn lru_new(cap: usize) -> (c: LruCache<usize, Line>)
    ensures
        lru_keys(c) == Set::<usize>::empty(),
        lru_cap(c) == cap,
{
    LruCache::new(cap)
}

impl<'a> Default for LineWrap<'a> {
    fn default() -> (w: Self)
        ensures
            w.spec_rows().len() == 0,
            w.spec_sx() == 0,
            w.spec_sy() == 0,
            w.spec_port() == (0usize, 0usize, 0usize),
    {
        let w = Self {
            dummy: "",
            lines: lru_new(100),
            rows: Vec::new(),
            _port: ViewPort::default(),
            sx: 0,
            sy: 0,
        };
        assert(w.spec_rows() =~= Seq::<(Seq<ViewChar>, int)>::empty());
        w
    }
}

impl<'a> LineWrap<'a> {
    /// The rows, as cells and offsets.
    pub closed spec fn spec_rows(&self) -> Seq<(Seq<ViewChar>, int)> {
        self.rows@.map_values(|r: Row| (r.elements@, r.line_offset as int))
    }

    pub closed spec fn spec_sx(&self) -> u16 {
        self.sx
    }

    pub closed spec fn spec_sy(&self) -> u16 {
        self.sy
    }

    /// The view's first character, cursor and last character.
    pub closed spec fn spec_port(&self) -> (usize, usize, usize) {
        (self._port.char_start, self._port.char_current, self._port.char_end)
    }

    pub fn port(&self) -> (p: &ViewPort)
        ensures
            (p.char_start, p.char_current, p.char_end) == self.spec_port(),
    {
        &self._port
    }

    pub fn update_spec(&mut self, sx: u16, sy: u16)
        ensures
            final(self).spec_sx() == sx,
            final(self).spec_sy() == sy,
            final(self).spec_rows() == old(self).spec_rows(),
            final(self).spec_port() == old(self).spec_port(),
    {
        self.sx = sx;
        self.sy = sy;
    }

    pub fn update_port(&mut self, port: ViewPort)
        ensures
            final(self).spec_port() == (port.char_start, port.char_current, port.char_end),
            final(self).spec_sx() == old(self).spec_sx(),
            final(self).spec_sy() == old(self).spec_sy(),
            final(self).spec_rows() == old(self).spec_rows(),
    {
        self._port = port;
    }

    /// The cell at column `cx` of row `cy` and the shown cells before it in that row; a
    /// cell outside the rows is `OOB` at zero.
    pub fn get(&self, cx: u16, cy: u16) -> (i: Info)
        ensures
            ({
                let rows = self.spec_rows();
                if cx > self.spec_sx() || cy >= rows.len() || cx >= rows[cy as int].0.len() {
                    i.e == ViewChar::OOB && i.x == 0
                } else {
                    i.e == rows[cy as int].0[cx as int] && i.x == shown(
                        rows[cy as int].0.subrange(0, cx as int),
                    )
                }
            }),
    {
        let e = Info { e: ViewChar::OOB, x: 0 };
        if cx > self.sx {
            return e;
        }
        if cy as usize >= self.rows.len() {
            return e;
        }
        let row = &self.rows[cy as usize];
        proof {
            assert(self.spec_rows()[cy as int].0 == row.elements@);
        }
        if cx as usize >= row.elements.len() {
            return e;
        }
        let mut x: usize = 0;
        let mut i: usize = 0;
        while i < cx as usize
            invariant
                i <= cx <= row.elements@.len(),
                x == shown(row.elements@.subrange(0, i as int)),
            decreases cx - i,
        {
            proof {
                assert(row.elements@.subrange(0, i + 1).drop_last() =~= row.elements@.subrange(
                    0,
                    i as int,
                ));
                lemma_shown_le(row.elements@.subrange(0, i as int));
            }
            if row.elements[i] != ViewChar::NOP {
                x = x + 1;
            }
            i = i + 1;
        }
        Info { e: row.elements[cx as usize], x }
    }
}

pub(crate) proof fn lemma_shown_append(a: Seq<ViewChar>, b: Seq<ViewChar>)
    ensures
        shown(a + b) == shown(a) + shown(b),
    decreases b.len(),
{
    if b.len() > 0 {
        lemma_shown_append(a, b.drop_last());
        assert((a + b).drop_last() =~= a + b.drop_last());
    } else {
        assert(a + b =~= a);
    }
}

/// The shown cells of a row.
pub(crate) fn count_shown(x: &[ViewChar]) -> (n: usize)
    ensures
        n == shown(x@),
{
    let mut n: usize = 0;
    let mut i: usize = 0;
    while i < x.len()
        invariant
            i <= x@.len(),
            n == shown(x@.take(i as int)),
        decreases x@.len() - i,
    {
        proof {
            assert(x@.take(i + 1).drop_last() =~= x@.take(i as int));
            lemma_shown_le(x@.take(i as int));
        }
        if x[i] != ViewChar::NOP {
            n = n + 1;
        }
        i = i + 1;
    }
    assert(x@.take(x@.len() as int) =~= x@);
    n
}

/// A copy of a row's cells.
pub(crate) fn copy_row(x: &[ViewChar]) -> (v: Vec<ViewChar>)
    ensures
        v@ == x@,
{
    let mut v: Vec<ViewChar> = Vec::new();
    let mut i: usize = 0;
    while i < x.len()
        invariant
            i <= x@.len(),
            v@ == x@.take(i as int),
        decreases x@.len() - i,
    {
        v.push(x[i]);
        i = i + 1;
        assert(v@ =~= x@.take(i as int));
    }
    assert(x@.take(x@.len() as int) =~= x@);
    v
}

/// The rows of line `l` before row `k`, then those of the lines after it.
proof fn lemma_rows_from_split(s: Seq<char>, sx: int, l: int)
    requires
        0 <= l < line_count(s),
    ensures
        rows_from(s, sx, l) == line_rows(s, sx, l) + rows_from(s, sx, l + 1),
{
}

impl<'a> LineWrap<'a> {
    /// Cuts the lines from the one holding the view's first character into rows, until the
    /// screen's rows are filled or the text ends.
    pub fn update_lines(&mut self, text: &Rope)
        requires
            old(self).spec_sx() > 0,
            text_fits(rope_chars(*text)),
            old(self).spec_port().0 <= rope_chars(*text).len(),
        ensures
            ({
                let s = rope_chars(*text);
                let all = rows_from(
                    s,
                    old(self).spec_sx() as int,
                    breaks_before(s, old(self).spec_port().0 as int) as int,
                );
                final(self).spec_rows() == all.take(
                    if all.len() < old(self).spec_sy() {
                        all.len() as int
                    } else {
                        old(self).spec_sy() as int
                    },
                )
            }),
            final(self).spec_sx() == old(self).spec_sx(),
            final(self).spec_sy() == old(self).spec_sy(),
            final(self).spec_port() == old(self).spec_port(),
    {
        let ghost s = rope_chars(*text);
        let ghost sxi = self.sx as int;
        let mut line_inx = rope_char_to_line(text, self._port.char_start);
        let ghost l0 = line_inx as int;
        let ghost all = rows_from(s, sxi, l0);
        let len_lines = rope_len_lines(text);
        let mut count: u16 = 0;
        let mut out: Vec<Row> = Vec::new();
        proof {
            lemma_line_of(s, self._port.char_start as int);
            lemma_breaks_bounded(s, self._port.char_start as int);
            assert(all =~= Seq::<(Seq<ViewChar>, int)>::empty() + rows_from(s, sxi, l0));
            assert(out@.map_values(|r: Row| (r.elements@, r.line_offset as int)) =~= all.take(0));
        }
        while count < self.sy && line_inx < len_lines
            invariant
                s == rope_chars(*text),
                text_fits(s),
                sxi == self.sx as int,
                self.sx > 0,
                len_lines == line_count(s),
                0 <= l0 <= line_inx,
                all == rows_from(s, sxi, l0),
                count as int == out@.len(),
                count <= self.sy,
                count <= all.len(),
                out@.map_values(|r: Row| (r.elements@, r.line_offset as int)) == all.take(count as int),
                count < self.sy ==> all == out@.map_values(|r: Row| (r.elements@, r.line_offset as int)) + rows_from(s, sxi, line_inx as int),
            decreases self.sy - count, len_lines - line_inx,
        {
            let ghost base = out@.map_values(|r: Row| (r.elements@, r.line_offset as int));
            proof {
                lemma_rows_from_split(s, sxi, line_inx as int);
                crate::rope::lemma_line_start_bounded(s, line_inx as int);
                crate::rope::lemma_line_start_bounded(s, line_inx + 1);
                crate::rope::lemma_line_start_monotone(s, line_inx as int, line_inx + 1);
            }
            let ls = rope_line_string(text, line_inx);
            proof {
                assert(ls@.len() <= s.len());
            }
            let line = Line::new(line_inx, ls, self.sx);
            proof {
                lemma_line_cells_len(ls@);
            }
            let ghost es = line.spec_elements();
            let ghost lr = line_rows(s, sxi, line_inx as int);
            let mut iter = line.iter();
            let mut line_offset: usize = 0;
            let ghost mut k: int = 0;
            while count < self.sy
                invariant
                    self.sx > 0,
                    sxi == self.sx as int,
                    iter.spec_elements() == es,
                    iter.spec_sx() == self.sx as usize,
                    iter.spec_current() == k,
                    es.len() + self.sx <= usize::MAX,
                    es == line_cells(s.subrange(line_start(s, line_inx as int), line_start(s, line_inx + 1))),
                    lr == line_rows(s, sxi, line_inx as int),
                    all == base + lr + rows_from(s, sxi, line_inx + 1),
                    0 <= k <= lr.len(),
                    count as int == out@.len(),
                    count <= self.sy,
                    out@.map_values(|r: Row| (r.elements@, r.line_offset as int)) == base + lr.take(k),
                    k < lr.len() ==> line_offset == shown(es.subrange(0, k * sxi)),
                    k < lr.len() ==> k * sxi <= es.len(),
                ensures
                    0 <= k <= lr.len(),
                    count as int == out@.len(),
                    count <= self.sy,
                    out@.map_values(|r: Row| (r.elements@, r.line_offset as int)) == base + lr.take(k),
                    count < self.sy ==> k == lr.len(),
                decreases self.sy - count,
            {
                match iter.next() {
                    Some(x) => {
                        proof {
                            assert(k < lr.len());
                        }
                        let elements = copy_row(x);
                        let row_size = count_shown(x);
                        let ghost old_out = out@.map_values(|r: Row| (r.elements@, r.line_offset as int));
                        out.push(Row { elements, line_offset });
                        proof {
                            assert(out@.map_values(|r: Row| (r.elements@, r.line_offset as int)) =~= old_out.push((x@, line_offset as int)));
                            assert(lr[k] == (x@, line_offset as int));
                            assert(lr.take(k + 1) =~= lr.take(k).push(lr[k]));
                            let stop = if es.len() < k * sxi + sxi { es.len() as int } else { k * sxi + sxi };
                            assert(es.subrange(0, stop) =~= es.subrange(0, k * sxi) + x@);
                            lemma_shown_append(es.subrange(0, k * sxi), x@);
                            lemma_shown_le(es.subrange(0, stop));
                            if k + 1 < lr.len() {
                                assert((k + 1) * sxi < es.len() + sxi) by (nonlinear_arith)
                                    requires
                                        k + 1 < (es.len() + sxi - 1) / sxi,
                                        sxi > 0,
                                ;
                                assert((k + 1) * sxi == k * sxi + sxi) by (nonlinear_arith);
                                assert((k + 1) * sxi <= es.len()) by (nonlinear_arith)
                                    requires
                                        k + 1 < (es.len() + sxi - 1) / sxi,
                                        sxi > 0,
                                        es.len() >= 0,
                                ;
                            }
                        }
                        count = count + 1;
                        line_offset = line_offset + row_size;
                        proof {
                            k = k + 1;
                        }
                    },
                    None => {
                        proof {
                            assert(es.len() == 0 || k >= row_count(es, sxi));
                            assert(lr.len() == if es.len() == 0 { 0 } else { row_count(es, sxi) });
                            assert(lr.take(k) =~= lr);
                        }
                        break;
                    },
                }
            }
            proof {
                if count < self.sy {
                    assert(lr.take(k) =~= lr);
                    assert(all =~= (base + lr) + rows_from(s, sxi, line_inx + 1));
                }
                let o = out@.map_values(|r: Row| (r.elements@, r.line_offset as int));
                assert(o =~= all.take(count as int));
            }
            line_inx = line_inx + 1;
        }
        proof {
            let o = out@.map_values(|r: Row| (r.elements@, r.line_offset as int));
            if count < self.sy {
                assert(rows_from(s, sxi, line_inx as int) =~= Seq::<(Seq<ViewChar>, int)>::empty());
                assert(all =~= o);
            }
        }
        self.rows = out;
    }
}

} // verus!
