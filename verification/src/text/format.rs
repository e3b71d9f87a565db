use vstd::prelude::*;
use vstd::utf8::{encode_utf8, is_char_boundary};

use crate::config::{BufferConfig, EndOfLine, IndentSize, IndentStyle};
use crate::strings::string_push;
use crate::text::display::{formats_view, LineFormat, LineFormatType};
use crate::text::ViewChar;

verus! {

// ---------------------------------------------------------------------------
// Expanding a line into rendered cells
// ---------------------------------------------------------------------------

/// The cells that stand for one tab: padding up to the tab stop, then the tab.
pub open spec fn tab_cells(config: BufferConfig) -> Seq<ViewChar> {
    let width = match config.indent_style {
        IndentStyle::Tab => config.tab_width as int,
        IndentStyle::Space => config.spec_indent_columns(),
    };
    Seq::new((width - 1) as nat, |i: int| ViewChar::NOP).push(ViewChar::Tab)
}

/// The width that a tab is expanded to must be at least one cell.
pub open spec fn tab_expandable(config: BufferConfig) -> bool {
    match config.indent_style {
        IndentStyle::Tab => config.tab_width >= 1,
        IndentStyle::Space => config.spec_indent_columns() >= 1,
    }
}

/// The cells for one character of a line.
pub open spec fn char_cells(c: char, config: BufferConfig) -> Seq<ViewChar> {
    if c == '\t' {
        tab_cells(config)
    } else if c == '\n' {
        seq![ViewChar::NL]
    } else {
        seq![ViewChar::Char(c)]
    }
}

/// The cells of a whole line: the cells of each character, in order.
pub open spec fn line_cells(s: Seq<char>, config: BufferConfig) -> Seq<ViewChar>
    decreases s.len(),
{
    if s.len() == 0 {
        seq![]
    } else {
        line_cells(s.drop_last(), config) + char_cells(s.last(), config)
    }
}

proof fn lemma_plain_char_cells(c: char, config: BufferConfig)
    requires
        c != '\t',
        c != '\n',
    ensures
        char_cells(c, config) == seq![ViewChar::Char(c)],
{
}

fn expand_tab(config: &BufferConfig) -> (v: Vec<ViewChar>)
    requires
        tab_expandable(*config),
    ensures
        v@ == tab_cells(*config),
{
    let width: u8 = match config.indent_style {
        IndentStyle::Tab => config.tab_width,
        IndentStyle::Space => match config.indent_size {
            IndentSize::Tab => config.tab_width,
            IndentSize::Size(n) => n,
        },
    };
    let mut v: Vec<ViewChar> = Vec::new();
    let mut i: u8 = 0;
    while i < width - 1
        invariant
            width >= 1,
            i <= width - 1,
            v@ == Seq::new(i as nat, |j: int| ViewChar::NOP),
        decreases width - 1 - i,
    {
        v.push(ViewChar::NOP);
        i = i + 1;
        assert(v@ =~= Seq::new(i as nat, |j: int| ViewChar::NOP));
    }
    v.push(ViewChar::Tab);
    assert(v@ =~= tab_cells(*config));
    v
}

fn expand_newline(config: &BufferConfig) -> (v: Vec<ViewChar>)
    ensures
        v@ == seq![ViewChar::NL],
{
    let mut v: Vec<ViewChar> = Vec::new();
    match config.end_of_line {
        EndOfLine::Lf => v.push(ViewChar::NL),
        EndOfLine::CrLf => v.push(ViewChar::NL),
        EndOfLine::Cr => v.push(ViewChar::NL),
    }
    assert(v@ =~= seq![ViewChar::NL]);
    v
}

fn push_char_cells(v: &mut Vec<ViewChar>, c: char, config: &BufferConfig)
    requires
        tab_expandable(*config),
    ensures
        final(v)@ == old(v)@ + char_cells(c, *config),
{
    if c == '\t' {
        let mut t = expand_tab(config);
        v.append(&mut t);
    } else if c == '\n' {
        let mut t = expand_newline(config);
        v.append(&mut t);
    } else {
        proof {
            lemma_plain_char_cells(c, *config);
        }
        v.push(ViewChar::Char(c));
        assert(v@ =~= old(v)@ + char_cells(c, *config));
    }
}

/// Expands a line into its rendered cells.
pub fn string_to_elements(s: &String, config: &BufferConfig) -> (v: Vec<ViewChar>)
    requires
        tab_expandable(*config),
    ensures
        v@ == line_cells(s@, *config),
{
    let mut v: Vec<ViewChar> = Vec::new();
    for c in it: s.as_str().chars()
        invariant
            it.seq() == s@,
            tab_expandable(*config),
            v@ == line_cells(s@.take(it.index() as int), *config),
    {
        let ghost k = it.index();
        assert(k < s@.len());
        assert(v@ == line_cells(s@.take(k as int), *config));
        assert(s@.take(k + 1).drop_last() =~= s@.take(k as int));
        assert(s@.take(k + 1).last() == c);
        push_char_cells(&mut v, c, config);
        assert(v@ =~= line_cells(s@.take(k as int), *config) + char_cells(c, *config));
        let ghost t = s@.take(k + 1);
        assert(line_cells(t, *config) == line_cells(t.drop_last(), *config) + char_cells(t.last(), *config));
        assert(line_cells(t.drop_last(), *config) == line_cells(s@.take(k as int), *config));
        assert(v@ =~= line_cells(s@.take(k + 1), *config));
    }
    assert(s@.take(s@.len() as int) =~= s@);
    v
}

// ---------------------------------------------------------------------------
// Formatting a line into runs of text
// ---------------------------------------------------------------------------

/// `hay` holds `needle` as a contiguous run of bytes.
pub open spec fn bytes_contain(hay: Seq<u8>, needle: Seq<u8>) -> bool {
    exists|k: int|
        0 <= k && k + needle.len() <= hay.len() && #[trigger] hay.subrange(k, k + needle.len())
            == needle
}

/// Byte `i` of the line is drawn highlighted: the window of bytes around it that is as wide
/// as the highlight allows lies on character boundaries and holds the highlight.
pub open spec fn highlight_at(b: Seq<u8>, h: Seq<u8>, i: int) -> bool {
    let start = if i + 1 > h.len() {
        i + 1 - h.len()
    } else {
        0
    };
    let end = if b.len() < i + h.len() {
        b.len() as int
    } else {
        i + h.len()
    };
    &&& end > start
    &&& end - start >= h.len()
    &&& is_char_boundary(b, start)
    &&& is_char_boundary(b, end)
    &&& bytes_contain(b.subrange(start, end), h)
}

/// Byte `i` is a character of its own: both of its ends are character boundaries.
pub open spec fn single_at(b: Seq<u8>, i: int) -> bool {
    0 <= i && i + 1 <= b.len() && is_char_boundary(b, i) && is_char_boundary(b, i + 1)
}

/// The text that stands for a tab of the given width: padding and an arrow.
pub open spec fn tab_text(width: int) -> Seq<char> {
    Seq::new((width - 1) as nat, |j: int| ' ').push('\u{2192}')
}

/// The text drawn for one byte of the line.
pub open spec fn byte_text(byte: u8, tab_width: int) -> Seq<char> {
    if byte == 9 {
        tab_text(tab_width)
    } else if byte == 10 {
        seq!['\u{00B6}']
    } else {
        seq![byte as char]
    }
}

/// The format of one byte of the line, before highlighting.
pub open spec fn byte_format(byte: u8) -> LineFormatType {
    if byte == 9 || byte == 10 {
        LineFormatType::Dim
    } else {
        LineFormatType::Normal
    }
}

/// The formatted item for byte `i` of the line.
pub open spec fn item_at(b: Seq<u8>, h: Seq<u8>, tab_width: int, i: int) -> (
    LineFormatType,
    Seq<char>,
) {
    (
        if highlight_at(b, h, i) {
            LineFormatType::Highlight
        } else {
            byte_format(b[i])
        },
        byte_text(b[i], tab_width),
    )
}

/// The first index at or after `i` that is not a character of its own.
pub open spec fn first_stop(b: Seq<u8>, i: int) -> int
    decreases b.len() - i,
{
    if i < 0 || i >= b.len() || !single_at(b, i) {
        i
    } else {
        first_stop(b, i + 1)
    }
}

/// The formatted items of a line: one for each byte, up to the first byte that is not a
/// character of its own.
pub open spec fn line_items(line: Seq<char>, highlight: Seq<char>, tab_width: int) -> Seq<
    (LineFormatType, Seq<char>),
> {
    let b = encode_utf8(line);
    let h = encode_utf8(highlight);
    Seq::new(
        first_stop(b, 0) as nat,
        |i: int| item_at(b, h, tab_width, i),
    )
}

/// Consecutive items of one format joined into one run.
pub open spec fn runs(items: Seq<(LineFormatType, Seq<char>)>) -> Seq<(LineFormatType, Seq<char>)>
    decreases items.len(),
{
    if items.len() == 0 {
        seq![]
    } else {
        let r = runs(items.drop_last());
        let x = items.last();
        if r.len() > 0 && r.last().0 == x.0 {
            r.update(r.len() - 1, (x.0, r.last().1 + x.1))
        } else {
            r.push(x)
        }
    }
}

/// The number of bytes that the first `k` items take when drawn.
pub open spec fn prefix_len(items: Seq<(LineFormatType, Seq<char>)>, k: int) -> int
    decreases k,
{
    if k <= 0 {
        0
    } else {
        prefix_len(items, k - 1) + encode_utf8(items[k - 1].1).len()
    }
}

/// The first item index at or after `k` from which the drawn items reach `bound` bytes.
pub open spec fn stop_index(items: Seq<(LineFormatType, Seq<char>)>, k: int, bound: int) -> int
    decreases items.len() - k,
{
    if k < 0 || k >= items.len() || prefix_len(items, k) >= bound {
        k
    } else {
        stop_index(items, k + 1, bound)
    }
}

/// The runs of a line between the drawn byte offsets `start` and `end`.
pub open spec fn range_runs(
    line: Seq<char>,
    start: int,
    end: int,
    highlight: Seq<char>,
    tab_width: int,
) -> Seq<(LineFormatType, Seq<char>)> {
    let items = line_items(line, highlight, tab_width);
    let k0 = stop_index(items, 0, start);
    let k1 = stop_index(items, k0, end);
    runs(items.subrange(k0, k1))
}

/// The items of a line cut into rows of `sx` items each (the last row may be shorter).
/// With a width of zero, an empty row comes first and all items follow in one row.
pub open spec fn row_chunks(items: Seq<(LineFormatType, Seq<char>)>, sx: int) -> Seq<
    Seq<(LineFormatType, Seq<char>)>,
> {
    if items.len() == 0 {
        seq![]
    } else if sx <= 0 {
        seq![seq![], items]
    } else {
        Seq::new(
            ((items.len() + sx - 1) / sx) as nat,
            |k: int|
                items.subrange(
                    k * sx,
                    if (k + 1) * sx < items.len() {
                        (k + 1) * sx
                    } else {
                        items.len() as int
                    },
                ),
        )
    }
}

/// The rows of runs of a line wrapped at `sx` items.
pub open spec fn wrapped_runs(line: Seq<char>, sx: int, highlight: Seq<char>, tab_width: int) -> Seq<
    Seq<(LineFormatType, Seq<char>)>,
> {
    row_chunks(line_items(line, highlight, tab_width), sx).map_values(
        |row: Seq<(LineFormatType, Seq<char>)>| runs(row),
    )
}

/// The lengths of a line and of a highlight that formatting accepts.
pub open spec fn format_bounds(line: Seq<char>, highlight: Seq<char>) -> bool {
    encode_utf8(line).len() <= i32::MAX && encode_utf8(highlight).len() <= i32::MAX
}

/// One formatted byte of a line: its drawn text, that text's length in bytes, and its format.
#[derive(Debug)]
pub struct FormatItem {
    len: usize,
    s: String,
    format: LineFormatType,
}

impl View for FormatItem {
    type V = (LineFormatType, Seq<char>);

    closed spec fn view(&self) -> (LineFormatType, Seq<char>) {
        (self.format, self.s@)
    }
}

impl FormatItem {
    /// The item's length is the length in bytes of its text.
    pub closed spec fn wf(&self) -> bool {
        self.len == encode_utf8(self.s@).len()
    }
}

/// Builds the text that stands for a tab of the given width.
fn format_tab(tab_size: usize) -> (s: String)
    requires
        tab_size >= 1,
    ensures
        s@ == tab_text(tab_size as int),
{
    let mut s = String::new();
    let mut i: usize = 0;
    while i < tab_size - 1
        invariant
            i <= tab_size - 1,
            s@ == Seq::new(i as nat, |j: int| ' '),
        decreases tab_size - 1 - i,
    {
        string_push(&mut s, ' ');
        i = i + 1;
        assert(s@ =~= Seq::new(i as nat, |j: int| ' '));
    }
    string_push(&mut s, '\u{2192}');
    assert(s@ =~= tab_text(tab_size as int));
    s
}

/// Whether `hay[lo..hi]` holds `needle` as a contiguous run of bytes.
fn bytes_contain_in(hay: &[u8], lo: usize, hi: usize, needle: &[u8]) -> (r: bool)
    requires
        lo <= hi <= hay@.len(),
    ensures
        r == bytes_contain(hay@.subrange(lo as int, hi as int), needle@),
{
    let ghost w = hay@.subrange(lo as int, hi as int);
    let n = needle.len();
    if n > hi - lo {
        assert(!bytes_contain(w, needle@));
        return false;
    }
    let mut k: usize = 0;
    while k <= (hi - lo) - n
        invariant
            n == needle@.len(),
            lo <= hi <= hay@.len(),
            n <= hi - lo,
            k + n <= hi - lo + 1,
            w == hay@.subrange(lo as int, hi as int),
            forall|j: int| 0 <= j < k ==> #[trigger] w.subrange(j, j + n) != needle@,
        decreases hi - lo + 1 - (k + n),
    {
        let mut j: usize = 0;
        let mut same = true;
        while j < n
            invariant
                n == needle@.len(),
                lo <= hi <= hay@.len(),
                k + n <= hi - lo,
                j <= n,
                w == hay@.subrange(lo as int, hi as int),
                same == (forall|t: int| 0 <= t < j ==> w[k + t] == needle@[t]),
            decreases n - j,
        {
            if hay[lo + k + j] != needle[j] {
                same = false;
            }
            j = j + 1;
        }
        if same {
            assert(w.subrange(k as int, k + n) =~= needle@);
            return true;
        }
        assert(w.subrange(k as int, k + n)[j as int - 1] == w[k + j - 1]);
        assert(!(w.subrange(k as int, k + n) =~= needle@));
        k = k + 1;
    }
    assert forall|j: int| 0 <= j && j + needle@.len() <= w.len() implies #[trigger] w.subrange(
        j,
        j + needle@.len(),
    ) != needle@ by {
        assert(j < k);
    }
    false
}

/// A character takes at most four bytes in UTF-8.
pub proof fn lemma_encode_utf8_len(s: Seq<char>)
    ensures
        encode_utf8(s).len() <= 4 * s.len(),
    decreases s.len(),
{
    if s.len() > 0 {
        lemma_encode_utf8_len(s.drop_first());
    }
}

/// Walks a line byte by byte and yields the formatted item of each byte that is a
/// character of its own.
pub struct FormatIterator<'a> {
    line: &'a String,
    inx: usize,
    format: LineFormatType,
    highlight: String,
    config: BufferConfig,
}

impl<'a> FormatIterator<'a> {
    pub closed spec fn spec_inx(&self) -> usize {
        self.inx
    }

    pub closed spec fn spec_line(&self) -> Seq<char> {
        self.line@
    }

    pub closed spec fn spec_highlight(&self) -> Seq<char> {
        self.highlight@
    }

    pub closed spec fn spec_config(&self) -> BufferConfig {
        self.config
    }

    fn new(line: &'a String, inx: usize, highlight: String, config: BufferConfig) -> (it: Self)
        ensures
            it.spec_inx() == inx,
            it.spec_line() == line@,
            it.spec_highlight() == highlight@,
            it.spec_config() == config,
    {
        Self { line, inx, highlight, format: LineFormatType::Normal, config }
    }

    /// The item for the current byte, if that byte is a character of its own; then moves on.
    fn next(&mut self) -> (r: Option<FormatItem>)
        requires
            format_bounds(old(self).spec_line(), old(self).spec_highlight()),
            old(self).spec_config().tab_width >= 1,
        ensures
            final(self).spec_line() == old(self).spec_line(),
            final(self).spec_highlight() == old(self).spec_highlight(),
            final(self).spec_config() == old(self).spec_config(),
            ({
                let b = encode_utf8(old(self).spec_line());
                let h = encode_utf8(old(self).spec_highlight());
                let i = old(self).spec_inx() as int;
                if single_at(b, i) {
                    &&& r matches Some(item) && item@ == item_at(
                        b,
                        h,
                        old(self).spec_config().tab_width as int,
                        i,
                    ) && item.wf()
                    &&& final(self).spec_inx() == i + 1
                } else {
                    &&& r is None
                    &&& final(self).spec_inx() == i
                }
            }),
    {
        let line_str = self.line.as_str();
        let b = line_str.as_bytes();
        let h = self.highlight.as_str().as_bytes();
        let n = line_str.len();
        let hl = self.highlight.as_str().len();
        let inx = self.inx;
        if inx >= n {
            return None;
        }
        // the window of bytes around the current byte that may hold the highlight

        let search_start: usize = if inx + 1 > hl {
            inx + 1 - hl
        } else {
            0
        };
        let search_end: usize = if n < inx + hl {
            n
        } else {
            inx + hl
        };
        let mut highlight = false;
        if search_end > search_start && search_end - search_start >= hl {
            if line_str.is_char_boundary(search_start) && line_str.is_char_boundary(search_end) {
                highlight = bytes_contain_in(b, search_start, search_end, h);
            }
        }
        if !(line_str.is_char_boundary(inx) && line_str.is_char_boundary(inx + 1)) {
            return None;
        }
        let byte = b[inx];
        self.inx = inx + 1;
        let (tt, s) = if byte == 9 {
            (LineFormatType::Dim, format_tab(self.config.tab_width as usize))
        } else if byte == 10 {
            let mut s = String::new();
            string_push(&mut s, '\u{00B6}');
            (LineFormatType::Dim, s)
        } else {
            let mut s = String::new();
            string_push(&mut s, byte as char);
            (LineFormatType::Normal, s)
        };
        let format = if highlight {
            LineFormatType::Highlight
        } else {
            tt
        };
        let size = s.as_str().len();
        proof {
            assert(s@ =~= byte_text(byte, self.config.tab_width as int));
            lemma_encode_utf8_len(s@);
        }
        Some(FormatItem { s, len: size, format })
    }
}

/// The runs of `items` with the current run pending in `(format, acc)`.
pub open spec fn pending_runs(row: Seq<LineFormat>, format: LineFormatType, acc: Seq<char>) -> Seq<
    (LineFormatType, Seq<char>),
> {
    if acc.len() > 0 {
        formats_view(row).push((format, acc))
    } else {
        formats_view(row)
    }
}

proof fn lemma_runs_push(items: Seq<(LineFormatType, Seq<char>)>, x: (LineFormatType, Seq<char>))
    ensures
        runs(items.push(x)) == ({
            let r = runs(items);
            if r.len() > 0 && r.last().0 == x.0 {
                r.update(r.len() - 1, (x.0, r.last().1 + x.1))
            } else {
                r.push(x)
            }
        }),
{
    assert(items.push(x).drop_last() =~= items);
}

proof fn lemma_runs_len(items: Seq<(LineFormatType, Seq<char>)>)
    ensures
        runs(items).len() == 0 <==> items.len() == 0,
    decreases items.len(),
{
    if items.len() > 0 {
        lemma_runs_len(items.drop_last());
    }
}

/// Appending one item to a row whose runs are pending in `(row, format, acc)`.
fn add_item(
    row: &mut Vec<LineFormat>,
    format: &mut LineFormatType,
    acc: &mut String,
    item: FormatItem,
    Ghost(done): Ghost<Seq<(LineFormatType, Seq<char>)>>,
)
    requires
        pending_runs(old(row)@, *old(format), old(acc)@) == runs(done),
        old(acc)@.len() > 0 <==> done.len() > 0,
        done.len() > 0 ==> runs(done).last().0 == *old(format),
        item@.1.len() > 0,
    ensures
        pending_runs(final(row)@, *final(format), final(acc)@) == runs(done.push(item@)),
        final(acc)@.len() > 0,
        runs(done.push(item@)).last().0 == *final(format),
{
    proof {
        lemma_runs_push(done, item@);
        lemma_runs_len(done);
    }
    let ghost old_row = row@;
    if *format != item.format {
        if !acc.as_str().is_empty() {
            let a = acc.clone();
            *acc = String::new();
            row.push(LineFormat(*format, a));
        } else {
            *acc = String::new();
        }
        *format = item.format;
    }
    acc.append(item.s.as_str());
    proof {
        assert(formats_view(row@) =~= if old(acc)@.len() > 0 && *old(format) != item.format {
            formats_view(old_row).push((*old(format), old(acc)@))
        } else {
            formats_view(old_row)
        });
        assert(pending_runs(row@, *format, acc@) =~= runs(done.push(item@)));
    }
}

} // verus!

verus! {

proof fn lemma_first_stop(b: Seq<u8>, i: int)
    requires
        0 <= i <= b.len(),
    ensures
        i <= first_stop(b, i) <= b.len(),
        forall|j: int| i <= j < first_stop(b, i) ==> single_at(b, j),
        !single_at(b, first_stop(b, i)),
    decreases b.len() - i,
{
    if i < b.len() && single_at(b, i) {
        lemma_first_stop(b, i + 1);
    }
}

/// Facts about the items of a line that formatting relies on.
proof fn lemma_line_items(line: Seq<char>, highlight: Seq<char>, tab_width: int)
    requires
        1 <= tab_width <= 255,
    ensures
        ({
            let b = encode_utf8(line);
            let items = line_items(line, highlight, tab_width);
            &&& items.len() == first_stop(b, 0)
            &&& items.len() <= b.len()
            &&& forall|j: int| 0 <= j < items.len() ==> single_at(b, j)
            &&& !single_at(b, items.len() as int)
            &&& forall|j: int|
                0 <= j < items.len() ==> (#[trigger] items[j]).1.len() >= 1 && items[j].1.len()
                    <= 255
        }),
{
    let b = encode_utf8(line);
    lemma_first_stop(b, 0);
}

proof fn lemma_prefix_len_bound(items: Seq<(LineFormatType, Seq<char>)>, k: int)
    requires
        0 <= k <= items.len(),
        forall|j: int| 0 <= j < items.len() ==> (#[trigger] items[j]).1.len() <= 255,
    ensures
        0 <= prefix_len(items, k) <= 1020 * k,
    decreases k,
{
    if k > 0 {
        lemma_prefix_len_bound(items, k - 1);
        lemma_encode_utf8_len(items[k - 1].1);
    }
}

/// The formatted runs of a line between the drawn byte offsets `start` and `end`.
pub fn format_range(
    line: &String,
    start: usize,
    end: usize,
    highlight: String,
    config: &BufferConfig,
) -> (out: Vec<LineFormat>)
    requires
        format_bounds(line@, highlight@),
        config.tab_width >= 1,
    ensures
        formats_view(out@) == range_runs(
            line@,
            start as int,
            end as int,
            highlight@,
            config.tab_width as int,
        ),
{
    let ghost tw = config.tab_width as int;
    let ghost b = encode_utf8(line@);
    let ghost h = encode_utf8(highlight@);
    let ghost items = line_items(line@, highlight@, tw);
    proof {
        lemma_line_items(line@, highlight@, tw);
    }
    let mut it = FormatIterator::new(line, 0, highlight, *config);
    let mut rx: u64 = 0;
    let mut out: Vec<LineFormat> = Vec::new();
    let mut format = LineFormatType::Normal;
    let mut acc = String::new();
    let ghost mut k: int = 0;

    while rx < start as u64
        invariant
            format_bounds(it.spec_line(), it.spec_highlight()),
            it.spec_line() == line@,
            it.spec_highlight() == highlight@,
            it.spec_config() == *config,
            config.tab_width >= 1,
            b == encode_utf8(line@),
            h == encode_utf8(highlight@),
            tw == config.tab_width as int,
            items == line_items(line@, highlight@, tw),
            items.len() <= b.len() <= i32::MAX,
            forall|j: int| 0 <= j < items.len() ==> single_at(b, j),
            !single_at(b, items.len() as int),
            forall|j: int|
                0 <= j < items.len() ==> (#[trigger] items[j]).1.len() >= 1 && items[j].1.len()
                    <= 255,
            0 <= k <= items.len(),
            it.spec_inx() == k,
            rx == prefix_len(items, k),
            stop_index(items, 0, start as int) == stop_index(items, k, start as int),
        ensures
            0 <= k <= items.len(),
            it.spec_inx() == k,
            rx == prefix_len(items, k),
            k == stop_index(items, 0, start as int),
        decreases items.len() - k,
    {
        match it.next() {
            Some(i) => {
                proof {
                    lemma_prefix_len_bound(items, k + 1);
                }
                rx = rx + i.len as u64;
                proof {
                    k = k + 1;
                }
            },
            None => {
                assert(k >= items.len());
                break;
            },
        }
    }
    let ghost k0 = k;

    while rx < end as u64
        invariant
            format_bounds(it.spec_line(), it.spec_highlight()),
            it.spec_line() == line@,
            it.spec_highlight() == highlight@,
            it.spec_config() == *config,
            config.tab_width >= 1,
            b == encode_utf8(line@),
            h == encode_utf8(highlight@),
            tw == config.tab_width as int,
            items == line_items(line@, highlight@, tw),
            items.len() <= b.len() <= i32::MAX,
            forall|j: int| 0 <= j < items.len() ==> single_at(b, j),
            !single_at(b, items.len() as int),
            forall|j: int|
                0 <= j < items.len() ==> (#[trigger] items[j]).1.len() >= 1 && items[j].1.len()
                    <= 255,
            0 <= k0 <= k <= items.len(),
            it.spec_inx() == k,
            rx == prefix_len(items, k),
            stop_index(items, k0, end as int) == stop_index(items, k, end as int),
            pending_runs(out@, format, acc@) == runs(items.subrange(k0, k)),
            acc@.len() > 0 <==> k > k0,
            k > k0 ==> runs(items.subrange(k0, k)).last().0 == format,
        ensures
            0 <= k0 <= k <= items.len(),
            k == stop_index(items, k0, end as int),
            pending_runs(out@, format, acc@) == runs(items.subrange(k0, k)),
            acc@.len() > 0 <==> k > k0,
        decreases items.len() - k,
    {
        match it.next() {
            Some(i) => {
                proof {
                    lemma_prefix_len_bound(items, k + 1);
                    assert(items.subrange(k0, k + 1) =~= items.subrange(k0, k).push(i@));
                }
                rx = rx + i.len as u64;
                add_item(&mut out, &mut format, &mut acc, i, Ghost(items.subrange(k0, k)));
                proof {
                    k = k + 1;
                }
            },
            None => {
                assert(k >= items.len());
                break;
            },
        }
    }
    if !acc.as_str().is_empty() {
        out.push(LineFormat(format, acc));
    }
    out
}

/// The formatted runs of a whole line.
pub fn format_line(line: &String, highlight: String, config: &BufferConfig) -> (out: Vec<
    LineFormat,
>)
    requires
        format_bounds(line@, highlight@),
        config.tab_width >= 1,
    ensures
        formats_view(out@) == range_runs(
            line@,
            0,
            encode_utf8(line@).len() as int,
            highlight@,
            config.tab_width as int,
        ),
{
    let n = line.as_str().len();
    format_range(line, 0, n, highlight, config)
}

} // verus!

verus! {

proof fn lemma_row_count(n: int, sx: int, full: int, rest: int)
    requires
        sx > 0,
        full >= 0,
        1 <= rest <= sx,
        n == full * sx + rest,
    ensures
        (n + sx - 1) / sx == full + 1,
{
    assert((full * sx + rest + sx - 1) / sx == full + 1) by (nonlinear_arith)
        requires
            sx > 0,
            full >= 0,
            1 <= rest <= sx,
    ;
}

proof fn lemma_row_bounds(r: int, rows: int, sx: int)
    requires
        sx > 0,
        0 <= r < rows,
    ensures
        r * sx + sx <= rows * sx,
        (r + 1) * sx == r * sx + sx,
        0 <= r * sx,
{
    assert(r * sx + sx <= rows * sx) by (nonlinear_arith)
        requires
            sx > 0,
            0 <= r < rows,
    ;
    assert((r + 1) * sx == r * sx + sx) by (nonlinear_arith);
    assert(0 <= r * sx) by (nonlinear_arith)
        requires
            sx > 0,
            0 <= r,
    ;
}

/// The formatted runs of a line, cut into rows of `sx` items.
pub fn format_wrapped(line: &String, sx: usize, highlight: String, config: &BufferConfig) -> (out:
    Vec<Vec<LineFormat>>)
    requires
        format_bounds(line@, highlight@),
        config.tab_width >= 1,
    ensures
        out@.len() == wrapped_runs(line@, sx as int, highlight@, config.tab_width as int).len(),
        forall|r: int|
            0 <= r < out@.len() ==> formats_view(#[trigger] out@[r]@) == wrapped_runs(
                line@,
                sx as int,
                highlight@,
                config.tab_width as int,
            )[r],
{
    let ghost tw = config.tab_width as int;
    let ghost b = encode_utf8(line@);
    let ghost items = line_items(line@, highlight@, tw);
    proof {
        lemma_line_items(line@, highlight@, tw);
    }
    let mut it = FormatIterator::new(line, 0, highlight, *config);
    let mut ch_count: usize = 0;
    let mut out: Vec<Vec<LineFormat>> = Vec::new();
    let mut format = LineFormatType::Normal;
    let mut acc = String::new();
    let mut row_count: usize = 0;
    let mut row: Vec<LineFormat> = Vec::new();
    let end = line.as_str().len();
    let ghost mut row_start: int = 0;
    while ch_count < end
        invariant
            format_bounds(it.spec_line(), it.spec_highlight()),
            it.spec_line() == line@,
            it.spec_highlight() == highlight@,
            it.spec_config() == *config,
            config.tab_width >= 1,
            b == encode_utf8(line@),
            end == b.len(),
            tw == config.tab_width as int,
            items == line_items(line@, highlight@, tw),
            items.len() <= b.len() <= i32::MAX,
            forall|j: int| 0 <= j < items.len() ==> single_at(b, j),
            !single_at(b, items.len() as int),
            forall|j: int|
                0 <= j < items.len() ==> (#[trigger] items[j]).1.len() >= 1 && items[j].1.len()
                    <= 255,
            0 <= ch_count <= items.len(),
            it.spec_inx() == ch_count,
            0 <= row_start <= ch_count,
            row_count == ch_count - row_start,
            row_count == 0 <==> ch_count == 0,
            ch_count == 0 ==> out@.len() == 0 && row@.len() == 0,
            sx > 0 ==> row_start == out@.len() * sx && row_count <= sx,
            sx > 0 ==> forall|r: int|
                0 <= r < out@.len() ==> formats_view(#[trigger] out@[r]@) == runs(
                    items.subrange(r * sx, r * sx + sx),
                ),
            sx == 0 ==> (ch_count == 0 ==> out@.len() == 0),
            sx == 0 ==> (ch_count > 0 ==> out@.len() == 1 && out@[0]@.len() == 0 && row_start
                == 0),
            pending_runs(row@, format, acc@) == runs(items.subrange(row_start, ch_count as int)),
            acc@.len() > 0 <==> ch_count > row_start,
            ch_count > row_start ==> runs(items.subrange(row_start, ch_count as int)).last().0
                == format,
        ensures
            ch_count == items.len(),
            0 <= row_start <= ch_count,
            row_count == ch_count - row_start,
            row_count == 0 <==> ch_count == 0,
            ch_count == 0 ==> out@.len() == 0 && row@.len() == 0,
            sx > 0 ==> row_start == out@.len() * sx && row_count <= sx,
            sx > 0 ==> forall|r: int|
                0 <= r < out@.len() ==> formats_view(#[trigger] out@[r]@) == runs(
                    items.subrange(r * sx, r * sx + sx),
                ),
            sx == 0 ==> (ch_count == 0 ==> out@.len() == 0),
            sx == 0 ==> (ch_count > 0 ==> out@.len() == 1 && out@[0]@.len() == 0 && row_start
                == 0),
            pending_runs(row@, format, acc@) == runs(items.subrange(row_start, ch_count as int)),
            acc@.len() > 0 <==> ch_count > row_start,
        decreases end - ch_count,
    {
        match it.next() {
            Some(i) => {
                ch_count = ch_count + 1;
                if row_count == sx {
                    // the row is full: close it and start the next one
                    if !acc.as_str().is_empty() {
                        let a = acc.clone();
                        acc = String::new();
                        row.push(LineFormat(format, a));
                    }
                    proof {
                        if sx > 0 {
                            assert(row_start + sx == ch_count - 1);
                            assert(formats_view(row@) == runs(
                                items.subrange(row_start, ch_count - 1),
                            ));
                        }
                    }
                    let full = row;
                    row = Vec::new();
                    out.push(full);
                    row_count = 0;
                    proof {
                        row_start = ch_count - 1;
                        if sx > 0 {
                            assert((out@.len() - 1) * sx + sx == out@.len() * sx) by (
                            nonlinear_arith);
                        }
                        assert(items.subrange(row_start, row_start) =~= Seq::<
                            (LineFormatType, Seq<char>),
                        >::empty());
                        assert(formats_view(row@) =~= Seq::<(LineFormatType, Seq<char>)>::empty());
                    }
                }
                proof {
                    assert(items.subrange(row_start, ch_count as int) =~= items.subrange(
                        row_start,
                        ch_count - 1,
                    ).push(i@));
                }
                add_item(
                    &mut row,
                    &mut format,
                    &mut acc,
                    i,
                    Ghost(items.subrange(row_start, ch_count - 1)),
                );
                row_count = row_count + 1;
            },
            None => {
                assert(ch_count >= items.len());
                break;
            },
        }
    }
    if !acc.as_str().is_empty() {
        row.push(LineFormat(format, acc));
    }
    let ghost n = items.len() as int;
    let ghost chunks = row_chunks(items, sx as int);
    if row.len() > 0 {
        out.push(row);
    }
    proof {
        let spec_rows = wrapped_runs(line@, sx as int, highlight@, tw);
        if n == 0 {
            assert(out@.len() == 0);
        } else if sx == 0 {
            assert(items.subrange(0, n) =~= items);
            assert(formats_view(out@[0]@) =~= Seq::<(LineFormatType, Seq<char>)>::empty());
            assert(runs(Seq::<(LineFormatType, Seq<char>)>::empty()) =~= Seq::<
                (LineFormatType, Seq<char>),
            >::empty());
        } else {
            let full = out@.len() - 1;
            lemma_row_count(n, sx as int, full, row_count as int);
            assert forall|r: int| 0 <= r < out@.len() implies formats_view(
                #[trigger] out@[r]@,
            ) == spec_rows[r] by {
                if r < full {
                    lemma_row_bounds(r, full, sx as int);
                } else {
                    assert(r * sx == row_start) by (nonlinear_arith)
                        requires
                            r == full,
                            row_start == full * sx,
                    ;
                    assert((r + 1) * sx >= n) by (nonlinear_arith)
                        requires
                            r == full,
                            n == full * sx + row_count,
                            row_count <= sx,
                    ;
                }
            }
        }
    }
    out
}

} // verus!
