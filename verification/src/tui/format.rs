use vstd::prelude::*;
use vstd::string::StringExecFns;
use vstd::utf8::encode_utf8;

use crate::config::BufferConfig;
use crate::tui::row::formats_view;
use crate::tui::viewchar::{
    ascii_control, escaped, grapheme_to_format_item, grapheme_viewchar, nl_viewchar, tab_ok,
    tab_viewchar, viewchar_format, viewchar_text, FormatItem, LineFormat, LineFormatType,
};
use crate::unicode::{display_width, grapheme_split, grapheme_width, graphemes};

verus! {

/// The text a grapheme is drawn as.
pub open spec fn g_text(g: Seq<char>, config: BufferConfig) -> Seq<char> {
    if g == seq!['\t'] {
        viewchar_text(tab_viewchar(config))
    } else if g == seq!['\n'] {
        viewchar_text(nl_viewchar(config))
    } else if g.len() == 1 && ascii_control(g[0]) {
        escaped(g)
    } else {
        g
    }
}

/// The format a grapheme is drawn with: tabs, line ends and control characters are dimmed.
pub open spec fn g_format(g: Seq<char>, config: BufferConfig) -> LineFormatType {
    if g == seq!['\t'] || g == seq!['\n'] || (g.len() == 1 && ascii_control(g[0])) {
        LineFormatType::Dim
    } else {
        LineFormatType::Normal
    }
}

proof fn lemma_grapheme_item(g: Seq<char>, config: BufferConfig, e: crate::tui::viewchar::ViewChar)
    requires
        grapheme_viewchar(g, config, e),
    ensures
        viewchar_text(e) == g_text(g, config),
        viewchar_format(e) == g_format(g, config),
{
}

/// `needle` occurs in `hay`.
pub open spec fn contains_seq(hay: Seq<char>, needle: Seq<char>) -> bool {
    exists|i: int| 0 <= i && i + needle.len() <= hay.len() && #[trigger] hay.subrange(i, i + needle.len()) == needle
}

/// Whether the grapheme at `inx` is drawn highlighted: the highlight (of `H` bytes) occurs in
/// the graphemes from `inx - H + 1` up to `inx + H` (the end cut to the line's byte length).
pub open spec fn hl_at(line: Seq<char>, h: Seq<char>, inx: int) -> bool {
    let gs = grapheme_split(line);
    let hb = encode_utf8(h).len() as int;
    let lb = encode_utf8(line).len() as int;
    let st = if inx - hb + 1 > 0 {
        inx - hb + 1
    } else {
        0
    };
    let en = if lb < inx + hb {
        lb
    } else {
        inx + hb
    };
    let a = if st > gs.len() {
        gs.len() as int
    } else {
        st
    };
    let b = if en > gs.len() {
        gs.len() as int
    } else {
        en
    };
    &&& hb > 0
    &&& en > st
    &&& en - st >= hb
    &&& contains_seq(gs.subrange(a, b).flatten(), h)
}

/// The drawn item of grapheme `g`: that of the last grapheme the splitter finds in it.
pub open spec fn g_item(g: Seq<char>, config: BufferConfig, hl: bool) -> Option<(LineFormatType, Seq<char>)> {
    let subs = grapheme_split(g);
    if subs.len() == 0 {
        None
    } else {
        Some(
            (
                if hl {
                    LineFormatType::Highlight
                } else {
                    g_format(subs.last(), config)
                },
                g_text(subs.last(), config),
            ),
        )
    }
}

/// The item of the grapheme at `j` of a line.
pub open spec fn tui_item(line: Seq<char>, h: Seq<char>, config: BufferConfig, j: int) -> Option<
    (LineFormatType, Seq<char>),
> {
    g_item(grapheme_split(line)[j], config, hl_at(line, h, j))
}

/// The number of items a line gives from `j` on: items follow while there are graphemes
/// (and characters) left and each grapheme gives an item.
pub open spec fn count_from(line: Seq<char>, h: Seq<char>, config: BufferConfig, j: int) -> int
    decreases grapheme_split(line).len() - j,
{
    if j < 0 || j >= line.len() || j >= grapheme_split(line).len() || tui_item(line, h, config, j).is_none() {
        j
    } else {
        count_from(line, h, config, j + 1)
    }
}

/// The drawn items of a line, in order.
pub open spec fn tui_items(line: Seq<char>, h: Seq<char>, config: BufferConfig) -> Seq<
    (LineFormatType, Seq<char>),
> {
    Seq::new(count_from(line, h, config, 0) as nat, |j: int| tui_item(line, h, config, j).unwrap())
}

/// Consecutive items of one format joined into one run.
pub open spec fn truns(items: Seq<(LineFormatType, Seq<char>)>) -> Seq<(LineFormatType, Seq<char>)>
    decreases items.len(),
{
    if items.len() == 0 {
        seq![]
    } else {
        let r = truns(items.drop_last());
        let x = items.last();
        if r.len() > 0 && r.last().0 == x.0 {
            r.update(r.len() - 1, (x.0, r.last().1 + x.1))
        } else {
            r.push(x)
        }
    }
}

/// The columns the first `k` items take.
pub open spec fn pwidth(items: Seq<(LineFormatType, Seq<char>)>, k: int) -> int
    decreases k,
{
    if k <= 0 {
        0
    } else {
        pwidth(items, k - 1) + display_width(items[k - 1].1)
    }
}

/// The first item index at or after `k` from which the items reach `bound` columns.
pub open spec fn wstop(items: Seq<(LineFormatType, Seq<char>)>, k: int, bound: int) -> int
    decreases items.len() - k,
{
    if k < 0 || k >= items.len() || pwidth(items, k) >= bound {
        k
    } else {
        wstop(items, k + 1, bound)
    }
}

/// The runs of a line between columns `start` and `end`: items are skipped until `start`
/// columns are passed, then taken until `end` columns are reached.
pub open spec fn tui_range_runs(
    line: Seq<char>,
    start: int,
    end: int,
    h: Seq<char>,
    config: BufferConfig,
) -> Seq<(LineFormatType, Seq<char>)> {
    let items = tui_items(line, h, config);
    let k0 = wstop(items, 0, start);
    let k1 = wstop(items, k0, end);
    truns(items.subrange(k0, k1))
}

/// Greedy cutting into rows of `sx` columns, after the first `k` items: where each row
/// starts, and the columns taken in the last row. An item that does not fit in what is
/// left of a row starts a new row, even when the row is empty.
pub open spec fn row_starts(items: Seq<(LineFormatType, Seq<char>)>, sx: int, k: int) -> (Seq<int>, int)
    decreases k,
{
    if k <= 0 {
        (seq![0], 0)
    } else {
        let (starts, rc) = row_starts(items, sx, k - 1);
        let w = display_width(items[k - 1].1) as int;
        if rc + w > sx {
            (starts.push(k - 1), w)
        } else {
            (starts, rc + w)
        }
    }
}

/// The rows of runs of a line cut greedily at `sx` columns.
pub open spec fn tui_wrapped(line: Seq<char>, sx: int, h: Seq<char>, config: BufferConfig) -> Seq<
    Seq<(LineFormatType, Seq<char>)>,
> {
    let items = tui_items(line, h, config);
    let n = items.len() as int;
    let starts = row_starts(items, sx, n).0;
    let m = starts.len() as int;
    let closed = Seq::new(
        (m - 1) as nat,
        |j: int| truns(items.subrange(starts[j], starts[j + 1])),
    );
    if starts[m - 1] < n {
        closed.push(truns(items.subrange(starts[m - 1], n)))
    } else {
        closed
    }
}

/// The lengths of a line and of a highlight that formatting accepts.
pub open spec fn tui_format_bounds(line: Seq<char>, h: Seq<char>) -> bool {
    encode_utf8(line).len() <= i32::MAX && encode_utf8(h).len() <= i32::MAX
}

/// Walks the graphemes of a line and yields the drawn item of each.
pub struct FormatIterator<'a> {
    line: &'a String,
    grapheme_iter: Vec<String>,
    pos: usize,
    inx: usize,
    highlight: String,
    config: &'a BufferConfig,
}

impl<'a> FormatIterator<'a> {
    pub closed spec fn spec_line(&self) -> Seq<char> {
        self.line@
    }

    pub closed spec fn spec_highlight(&self) -> Seq<char> {
        self.highlight@
    }

    pub closed spec fn spec_config(&self) -> BufferConfig {
        *self.config
    }

    /// The number of graphemes handed out so far.
    pub closed spec fn spec_pos(&self) -> int {
        self.pos as int
    }

    /// The grapheme number that highlighting is computed for.
    pub closed spec fn spec_inx(&self) -> int {
        self.inx as int
    }

    pub closed spec fn wf(&self) -> bool {
        &&& self.grapheme_iter@.map_values(|g: String| g@) == grapheme_split(self.line@)
        &&& self.pos <= self.grapheme_iter@.len()
        &&& forall|i: int| 0 <= i < self.grapheme_iter@.len() ==> (#[trigger] self.grapheme_iter@[i])@.len() > 0
    }

    fn new(line: &'a String, inx: usize, highlight: String, config: &'a BufferConfig) -> (it: Self)
        ensures
            it.wf(),
            it.spec_line() == line@,
            it.spec_highlight() == highlight@,
            it.spec_config() == *config,
            it.spec_pos() == 0,
            it.spec_inx() == inx,
    {
        Self { line, grapheme_iter: graphemes(line.as_str()), pos: 0, inx, highlight, config }
    }

    /// The drawn item of the next grapheme, highlighted when the highlight occurs around it.
    pub fn next(&mut self) -> (r: Option<FormatItem>)
        requires
            old(self).wf(),
            tab_ok(old(self).spec_config()),
            tui_format_bounds(old(self).spec_line(), old(self).spec_highlight()),
        ensures
            final(self).wf(),
            final(self).spec_line() == old(self).spec_line(),
            final(self).spec_highlight() == old(self).spec_highlight(),
            final(self).spec_config() == old(self).spec_config(),
            ({
                let line = old(self).spec_line();
                let gs = grapheme_split(line);
                let go = old(self).spec_inx() < line.len() && old(self).spec_pos() < gs.len();
                if go {
                    &&& final(self).spec_pos() == old(self).spec_pos() + 1
                    &&& final(self).spec_inx() == old(self).spec_inx() + 1
                    &&& g_item(
                        gs[old(self).spec_pos()],
                        old(self).spec_config(),
                        hl_at(line, old(self).spec_highlight(), old(self).spec_inx()),
                    ) is Some
                    &&& match g_item(
                        gs[old(self).spec_pos()],
                        old(self).spec_config(),
                        hl_at(line, old(self).spec_highlight(), old(self).spec_inx()),
                    ) {
                        Some(x) => r matches Some(i) && i.format == x.0 && i.s@ == x.1
                            && i.unicode_width == display_width(x.1) && x.1.len() > 0,
                        None => r is None,
                    }
                } else {
                    &&& final(self).spec_pos() == old(self).spec_pos()
                    &&& final(self).spec_inx() == old(self).spec_inx()
                    &&& r is None
                }
            }),
    {
        let ghost line = self.line@;
        let ghost gs = grapheme_split(line);
        let nchars = count_chars(self.line);
        if self.inx >= nchars {
            return None;
        }
        if self.pos >= self.grapheme_iter.len() {
            return None;
        }
        proof {
            lemma_chars_fit(line);
        }
        let hlen = self.highlight.as_str().len();
        let lb = self.line.as_str().len();
        let t: i32 = self.inx as i32 - hlen as i32 + 1;
        let search_start: usize = if t > 0 {
            t as usize
        } else {
            0
        };
        let search_end: usize = if lb < self.inx + hlen {
            lb
        } else {
            self.inx + hlen
        };
        let mut highlight = false;
        if hlen > 0 && search_end > search_start && search_end - search_start >= hlen {
            let range = join_graphemes(&self.grapheme_iter, search_start, search_end);
            if contains_chars(&range, &self.highlight) {
                highlight = true;
            }
        }
        proof {
            assert(highlight == hl_at(line, self.highlight@, self.inx as int));
        }
        let ghost g = gs[self.pos as int];
        proof {
            assert(self.grapheme_iter@[self.pos as int]@ == g);
            assert(g.len() > 0);
        }
        let mut items = grapheme_to_format_item(self.grapheme_iter[self.pos].as_str(), self.config, highlight);
        self.pos = self.pos + 1;
        self.inx = self.inx + 1;
        let ghost n = items@.len();
        let r = items.pop();
        proof {
            if n > 0 {
                let subs = grapheme_split(g);
                let i = r.unwrap();
                let e = choose|e: crate::tui::viewchar::ViewChar|
                    grapheme_viewchar(subs[n - 1], *self.config, e) && i.s@ == viewchar_text(e)
                        && i.format == if highlight {
                        LineFormatType::Highlight
                    } else {
                        viewchar_format(e)
                    };
                lemma_grapheme_item(subs[n - 1], *self.config, e);
                assert(subs[n - 1].len() > 0);
            }
        }
        r
    }
}

/// A line has no more characters than bytes.
proof fn lemma_chars_fit(s: Seq<char>)
    ensures
        s.len() <= encode_utf8(s).len(),
    decreases s.len(),
{
    if s.len() > 0 {
        lemma_chars_fit(s.drop_first());
    }
}

/// The number of characters of a string.
fn count_chars(s: &String) -> (n: usize)
    requires
        encode_utf8(s@).len() <= i32::MAX,
    ensures
        n == s@.len(),
{
    proof {
        lemma_chars_fit(s@);
    }
    let mut n: usize = 0;
    for c in it: s.as_str().chars()
        invariant
            it.seq() == s@,
            s@.len() <= i32::MAX,
            n == it.index(),
    {
        n = n + 1;
    }
    n
}

/// The graphemes from `a` up to `b` (both cut to the count), joined.
fn join_graphemes(gs: &Vec<String>, a: usize, b: usize) -> (s: String)
    requires
        a <= b,
    ensures
        ({
            let g = gs@.map_values(|x: String| x@);
            let a1 = if a > g.len() {
                g.len() as int
            } else {
                a as int
            };
            let b1 = if b > g.len() {
                g.len() as int
            } else {
                b as int
            };
            s@ == g.subrange(a1, b1).flatten()
        }),
{
    let ghost g = gs@.map_values(|x: String| x@);
    let a1 = if a > gs.len() {
        gs.len()
    } else {
        a
    };
    let b1 = if b > gs.len() {
        gs.len()
    } else {
        b
    };
    let mut out = String::new();
    let mut i = a1;
    while i < b1
        invariant
            a1 <= i <= b1 <= gs@.len(),
            g == gs@.map_values(|x: String| x@),
            out@ == g.subrange(a1 as int, i as int).flatten(),
        decreases b1 - i,
    {
        proof {
            assert(g[i as int] == gs@[i as int]@);
            assert(g.subrange(a1 as int, i + 1).drop_last() =~= g.subrange(a1 as int, i as int));
            g.subrange(a1 as int, i + 1).lemma_flatten_and_flatten_alt_are_equivalent();
            g.subrange(a1 as int, i as int).lemma_flatten_and_flatten_alt_are_equivalent();
        }
        out.append(gs[i].as_str());
        i = i + 1;
    }
    out
}

/// The characters of a string, in a vector.
fn chars_of(s: &String) -> (v: Vec<char>)
    ensures
        v@ == s@,
{
    let mut v: Vec<char> = Vec::new();
    for c in it: s.as_str().chars()
        invariant
            it.seq() == s@,
            v@ == s@.take(it.index() as int),
    {
        v.push(c);
        proof {
            assert(v@ =~= s@.take(it.index() + 1));
        }
    }
    assert(s@.take(s@.len() as int) =~= s@);
    v
}

/// Whether `needle` occurs in `hay`.
fn contains_chars(hay: &String, needle: &String) -> (r: bool)
    ensures
        r == contains_seq(hay@, needle@),
{
    let h = chars_of(hay);
    let n = chars_of(needle);
    if n.len() > h.len() {
        return false;
    }
    let mut i: usize = 0;
    while i <= h.len() - n.len()
        invariant
            h@ == hay@,
            n@ == needle@,
            n@.len() <= h@.len(),
            i <= h@.len() - n@.len() + 1,
            forall|k: int| 0 <= k < i ==> #[trigger] h@.subrange(k, k + n@.len()) != n@,
        decreases h@.len() - i,
    {
        let mut j: usize = 0;
        let mut same = true;
        while j < n.len()
            invariant
                i + n@.len() <= h@.len(),
                h@.len() <= usize::MAX,
                j <= n@.len(),
                same == forall|m: int| 0 <= m < j ==> h@[i + m] == n@[m],
            decreases n@.len() - j,
        {
            if h[i + j] != n[j] {
                same = false;
            }
            j = j + 1;
        }
        if same {
            assert(h@.subrange(i as int, i + n@.len()) =~= n@);
            return true;
        }
        proof {
            let k = choose|m: int| 0 <= m < n@.len() && h@[i + m] != n@[m];
            assert(h@.subrange(i as int, i + n@.len())[k] != n@[k]);
        }
        i = i + 1;
    }
    false
}

/// The runs of `row` with the current run pending in `(format, acc)`.
pub open spec fn tpending(row: Seq<LineFormat>, format: LineFormatType, acc: Seq<char>) -> Seq<
    (LineFormatType, Seq<char>),
> {
    if acc.len() > 0 {
        formats_view(row).push((format, acc))
    } else {
        formats_view(row)
    }
}

proof fn lemma_truns_push(items: Seq<(LineFormatType, Seq<char>)>, x: (LineFormatType, Seq<char>))
    ensures
        truns(items.push(x)) == ({
            let r = truns(items);
            if r.len() > 0 && r.last().0 == x.0 {
                r.update(r.len() - 1, (x.0, r.last().1 + x.1))
            } else {
                r.push(x)
            }
        }),
{
    assert(items.push(x).drop_last() =~= items);
}

proof fn lemma_truns_len(items: Seq<(LineFormatType, Seq<char>)>)
    ensures
        truns(items).len() == 0 <==> items.len() == 0,
    decreases items.len(),
{
    if items.len() > 0 {
        lemma_truns_len(items.drop_last());
    }
}

/// Appends one item to a row whose runs are pending in `(row, format, acc)`.
fn add_item(
    row: &mut Vec<LineFormat>,
    format: &mut LineFormatType,
    acc: &mut String,
    f: LineFormatType,
    s: &String,
    Ghost(done): Ghost<Seq<(LineFormatType, Seq<char>)>>,
)
    requires
        tpending(old(row)@, *old(format), old(acc)@) == truns(done),
        old(acc)@.len() > 0 <==> done.len() > 0,
        done.len() > 0 ==> truns(done).last().0 == *old(format),
        s@.len() > 0,
    ensures
        tpending(final(row)@, *final(format), final(acc)@) == truns(done.push((f, s@))),
        final(acc)@.len() > 0,
        truns(done.push((f, s@))).last().0 == *final(format),
{
    proof {
        lemma_truns_push(done, (f, s@));
        lemma_truns_len(done);
    }
    let ghost old_row = row@;
    if *format != f {
        if !acc.as_str().is_empty() {
            let a = acc.clone();
            *acc = String::new();
            row.push(LineFormat::new(*format, a));
        } else {
            *acc = String::new();
        }
        *format = f;
    }
    acc.append(s.as_str());
    proof {
        assert(formats_view(row@) =~= if old(acc)@.len() > 0 && *old(format) != f {
            formats_view(old_row).push((*old(format), old(acc)@))
        } else {
            formats_view(old_row)
        });
        assert(tpending(row@, *format, acc@) =~= truns(done.push((f, s@))));
    }
}

/// The items of a line come one by one from an iterator at grapheme `k`.
pub open spec fn iter_at(it: FormatIterator, line: Seq<char>, h: Seq<char>, config: BufferConfig, k: int) -> bool {
    &&& it.wf()
    &&& it.spec_line() == line
    &&& it.spec_highlight() == h
    &&& it.spec_config() == config
    &&& it.spec_pos() == k
    &&& it.spec_inx() == k
    &&& tab_ok(config)
    &&& tui_format_bounds(line, h)
    &&& 0 <= k <= count_from(line, h, config, 0)
    &&& count_from(line, h, config, 0) == count_from(line, h, config, k)
}

/// One step of the iterator gives the next item of the line, or ends at the last.
proof fn lemma_iter_step(line: Seq<char>, h: Seq<char>, config: BufferConfig, k: int, got: Option<(LineFormatType, Seq<char>)>)
    requires
        0 <= k,
        count_from(line, h, config, 0) == count_from(line, h, config, k),
        ({
            let gs = grapheme_split(line);
            let go = k < line.len() && k < gs.len();
            if go {
                got == tui_item(line, h, config, k) && got is Some
            } else {
                got is None
            }
        }),
    ensures
        got is Some ==> k < count_from(line, h, config, 0) && count_from(line, h, config, 0)
            == count_from(line, h, config, k + 1) && tui_items(line, h, config)[k] == got.unwrap(),
        got is None ==> k == count_from(line, h, config, 0),
{
    if got is Some {
        lemma_count_from_ge(line, h, config, k + 1);
    }
}

proof fn lemma_count_from_le(line: Seq<char>, h: Seq<char>, config: BufferConfig, j: int)
    requires
        0 <= j <= line.len(),
    ensures
        count_from(line, h, config, j) <= line.len(),
    decreases grapheme_split(line).len() - j,
{
    if !(j >= line.len() || j >= grapheme_split(line).len() || tui_item(line, h, config, j).is_none()) {
        lemma_count_from_le(line, h, config, j + 1);
    }
}

proof fn lemma_count_from_ge(line: Seq<char>, h: Seq<char>, config: BufferConfig, j: int)
    requires
        0 <= j,
    ensures
        count_from(line, h, config, j) >= j,
    decreases grapheme_split(line).len() - j,
{
    if !(j >= line.len() || j >= grapheme_split(line).len() || tui_item(line, h, config, j).is_none()) {
        lemma_count_from_ge(line, h, config, j + 1);
    }
}

proof fn lemma_pwidth_bound(items: Seq<(LineFormatType, Seq<char>)>, k: int)
    requires
        0 <= k <= items.len(),
    ensures
        0 <= pwidth(items, k) <= k * (usize::MAX as int),
    decreases k,
{
    if k > 0 {
        lemma_pwidth_bound(items, k - 1);
        assert((k - 1) * (usize::MAX as int) + usize::MAX == k * (usize::MAX as int)) by (nonlinear_arith);
    }
}

/// The runs of a line between columns `start` and `end`.
pub fn format_range(line: &String, start: usize, end: usize, highlight: String, config: &BufferConfig) -> (out: Vec<LineFormat>)
    requires
        tab_ok(*config),
        tui_format_bounds(line@, highlight@),
    ensures
        formats_view(out@) == tui_range_runs(line@, start as int, end as int, highlight@, *config),
{
    let ghost l = line@;
    let ghost h = highlight@;
    let ghost items = tui_items(l, h, *config);
    let ghost n = count_from(l, h, *config, 0);
    proof {
        lemma_count_from_ge(l, h, *config, 0);
        lemma_count_from_le(l, h, *config, 0);
        lemma_chars_fit(l);
    }
    let mut it = FormatIterator::new(line, 0, highlight, config);
    let mut rx: u128 = 0;
    let mut out: Vec<LineFormat> = Vec::new();
    let mut format = LineFormatType::Normal;
    let mut acc = String::new();
    let ghost mut k: int = 0;
    while rx < start as u128
        invariant
            iter_at(it, l, h, *config, k),
            items == tui_items(l, h, *config),
            n == count_from(l, h, *config, 0),
            n <= l.len() <= i32::MAX,
            rx == pwidth(items, k),
            wstop(items, 0, start as int) == wstop(items, k, start as int),
        ensures
            iter_at(it, l, h, *config, k),
            rx == pwidth(items, k),
            k == wstop(items, 0, start as int),
        decreases n - k,
    {
        match it.next() {
            Some(i) => {
                proof {
                    lemma_iter_step(l, h, *config, k, Some((i.format, i.s@)));
                    lemma_pwidth_bound(items, k + 1);
                    assert((k + 1) * (usize::MAX as int) <= (i32::MAX as int) * (usize::MAX as int)) by (nonlinear_arith)
                        requires k + 1 <= i32::MAX;
                }
                rx = rx + i.unicode_width as u128;
                proof {
                    k = k + 1;
                }
            },
            None => {
                proof {
                    lemma_iter_step(l, h, *config, k, None);
                }
                break;
            },
        }
    }
    let ghost k0 = k;
    while rx < end as u128
        invariant
            iter_at(it, l, h, *config, k),
            items == tui_items(l, h, *config),
            n == count_from(l, h, *config, 0),
            n <= l.len() <= i32::MAX,
            0 <= k0 <= k,
            rx == pwidth(items, k),
            wstop(items, k0, end as int) == wstop(items, k, end as int),
            tpending(out@, format, acc@) == truns(items.subrange(k0, k)),
            acc@.len() > 0 <==> k > k0,
            k > k0 ==> truns(items.subrange(k0, k)).last().0 == format,
        ensures
            0 <= k0 <= k <= n,
            k == wstop(items, k0, end as int),
            tpending(out@, format, acc@) == truns(items.subrange(k0, k)),
        decreases n - k,
    {
        match it.next() {
            Some(i) => {
                proof {
                    lemma_iter_step(l, h, *config, k, Some((i.format, i.s@)));
                    lemma_pwidth_bound(items, k + 1);
                    assert((k + 1) * (usize::MAX as int) <= (i32::MAX as int) * (usize::MAX as int)) by (nonlinear_arith)
                        requires k + 1 <= i32::MAX;
                    assert(items.subrange(k0, k + 1) =~= items.subrange(k0, k).push((i.format, i.s@)));
                }
                rx = rx + i.unicode_width as u128;
                add_item(&mut out, &mut format, &mut acc, i.format, &i.s, Ghost(items.subrange(k0, k)));
                proof {
                    k = k + 1;
                }
            },
            None => {
                proof {
                    lemma_iter_step(l, h, *config, k, None);
                }
                break;
            },
        }
    }
    if !acc.as_str().is_empty() {
        out.push(LineFormat::new(format, acc));
    }
    out
}

/// The runs of a whole line: from column zero up to its width.
pub fn format_line(line: &String, highlight: String, config: &BufferConfig) -> (out: Vec<LineFormat>)
    requires
        tab_ok(*config),
        tui_format_bounds(line@, highlight@),
    ensures
        formats_view(out@) == tui_range_runs(line@, 0, display_width(line@) as int, highlight@, *config),
{
    let w = grapheme_width(line.as_str());
    format_range(line, 0, w, highlight, config)
}

/// The runs of the rows closed so far.
pub open spec fn closed_rows(items: Seq<(LineFormatType, Seq<char>)>, starts: Seq<int>) -> Seq<
    Seq<(LineFormatType, Seq<char>)>,
> {
    Seq::new((starts.len() - 1) as nat, |j: int| truns(items.subrange(starts[j], starts[j + 1])))
}

/// Row starts grow, begin at zero and stay inside the items seen.
proof fn lemma_row_starts(items: Seq<(LineFormatType, Seq<char>)>, sx: int, k: int)
    requires
        0 <= k <= items.len(),
    ensures
        ({
            let (st, rc) = row_starts(items, sx, k);
            &&& st.len() >= 1
            &&& st[0] == 0
            &&& forall|j: int| 0 <= j < st.len() - 1 ==> st[j] <= #[trigger] st[j + 1]
            &&& 0 <= st.last() <= k
            &&& rc >= 0
            &&& k > 0 ==> st.last() < k
        }),
    decreases k,
{
    if k > 0 {
        lemma_row_starts(items, sx, k - 1);
        let (st, rc) = row_starts(items, sx, k - 1);
        let w = display_width(items[k - 1].1) as int;
        if rc + w > sx {
            let st2 = st.push(k - 1);
            assert forall|j: int| 0 <= j < st2.len() - 1 implies st2[j] <= #[trigger] st2[j + 1] by {
                if j < st.len() - 1 {
                    assert(st2[j] == st[j] && st2[j + 1] == st[j + 1]);
                }
            }
        }
    }
}

/// The runs of a line, cut greedily into rows of `sx` columns: an item that does not fit in
/// what is left of a row starts the next row.
pub fn format_wrapped(line: &String, sx: usize, highlight: String, config: &BufferConfig) -> (out: Vec<Vec<LineFormat>>)
    requires
        tab_ok(*config),
        tui_format_bounds(line@, highlight@),
    ensures
        out@.len() == tui_wrapped(line@, sx as int, highlight@, *config).len(),
        forall|r: int|
            0 <= r < out@.len() ==> formats_view(#[trigger] out@[r]@) == tui_wrapped(
                line@,
                sx as int,
                highlight@,
                *config,
            )[r],
{
    let ghost l = line@;
    let ghost h = highlight@;
    let ghost items = tui_items(l, h, *config);
    let ghost n = count_from(l, h, *config, 0);
    proof {
        lemma_count_from_ge(l, h, *config, 0);
        lemma_count_from_le(l, h, *config, 0);
        lemma_chars_fit(l);
    }
    let mut it = FormatIterator::new(line, 0, highlight, config);
    let mut out: Vec<Vec<LineFormat>> = Vec::new();
    let mut format = LineFormatType::Normal;
    let mut acc = String::new();
    let mut render_count: usize = 0;
    let mut row: Vec<LineFormat> = Vec::new();
    let ghost mut k: int = 0;
    loop
        invariant
            iter_at(it, l, h, *config, k),
            items == tui_items(l, h, *config),
            n == count_from(l, h, *config, 0),
            n <= l.len() <= i32::MAX,
            row_starts(items, sx as int, k).1 == render_count,
            out@.len() == row_starts(items, sx as int, k).0.len() - 1,
            forall|r: int|
                0 <= r < out@.len() ==> formats_view(#[trigger] out@[r]@) == closed_rows(
                    items,
                    row_starts(items, sx as int, k).0,
                )[r],
            tpending(row@, format, acc@) == truns(
                items.subrange(row_starts(items, sx as int, k).0.last(), k),
            ),
            acc@.len() > 0 <==> k > row_starts(items, sx as int, k).0.last(),
            k > row_starts(items, sx as int, k).0.last() ==> truns(
                items.subrange(row_starts(items, sx as int, k).0.last(), k),
            ).last().0 == format,
        ensures
            k == n,
            row_starts(items, sx as int, k).1 == render_count,
            out@.len() == row_starts(items, sx as int, k).0.len() - 1,
            forall|r: int|
                0 <= r < out@.len() ==> formats_view(#[trigger] out@[r]@) == closed_rows(
                    items,
                    row_starts(items, sx as int, k).0,
                )[r],
            tpending(row@, format, acc@) == truns(
                items.subrange(row_starts(items, sx as int, k).0.last(), k),
            ),
        decreases n - k,
    {
        match it.next() {
            Some(i) => {
                proof {
                    lemma_iter_step(l, h, *config, k, Some((i.format, i.s@)));
                    lemma_row_starts(items, sx as int, k);
                }
                let ghost st = row_starts(items, sx as int, k).0;
                let ghost rs = st.last();
                let w = i.unicode_width;
                let ghost broke = render_count + w > sx;
                if render_count > sx || w > sx - render_count {
                    if !acc.as_str().is_empty() {
                        let a = acc.clone();
                        acc = String::new();
                        row.push(LineFormat::new(format, a));
                    }
                    let full = row;
                    row = Vec::new();
                    let ghost out0 = out@;
                    out.push(full);
                    render_count = 0;
                    proof {
                        let st2 = st.push(k);
                        assert forall|r: int| 0 <= r < out@.len() implies formats_view(
                            #[trigger] out@[r]@,
                        ) == closed_rows(items, st2)[r] by {
                            if r < out0.len() {
                                assert(out@[r] == out0[r]);
                                assert(closed_rows(items, st2)[r] == closed_rows(items, st)[r]);
                            } else {
                                assert(st2[r] == rs && st2[r + 1] == k);
                            }
                        }
                        assert(items.subrange(k, k) =~= Seq::<(LineFormatType, Seq<char>)>::empty());
                        assert(formats_view(row@) =~= Seq::<(LineFormatType, Seq<char>)>::empty());
                    }
                }
                let ghost st_new = row_starts(items, sx as int, k + 1).0;
                proof {
                    assert(st_new == if broke { st.push(k) } else { st });
                    assert(items.subrange(st_new.last(), k + 1) =~= items.subrange(
                        st_new.last(),
                        k,
                    ).push((i.format, i.s@)));
                }
                add_item(
                    &mut row,
                    &mut format,
                    &mut acc,
                    i.format,
                    &i.s,
                    Ghost(items.subrange(st_new.last(), k)),
                );
                render_count = render_count + w;
                proof {
                    k = k + 1;
                }
            },
            None => {
                proof {
                    lemma_iter_step(l, h, *config, k, None);
                }
                break;
            },
        }
    }
    if !acc.as_str().is_empty() {
        row.push(LineFormat::new(format, acc));
    }
    proof {
        lemma_row_starts(items, sx as int, k);
        let st = row_starts(items, sx as int, k).0;
        lemma_truns_len(items.subrange(st.last(), k));
        assert(items.len() == n);
    }
    let ghost out0 = out@;
    if row.len() > 0 {
        out.push(row);
    }
    proof {
        let st = row_starts(items, sx as int, n).0;
        let spec_rows = tui_wrapped(l, sx as int, h, *config);
        assert forall|r: int| 0 <= r < out@.len() implies formats_view(#[trigger] out@[r]@) == spec_rows[r] by {
            if r < out0.len() {
                assert(out@[r] == out0[r]);
            }
        }
    }
    out
}

} // verus!
