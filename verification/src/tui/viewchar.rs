use vstd::prelude::*;

use crate::config::{BufferConfig, EndOfLine, IndentSize, IndentStyle};
use crate::strings::string_push;
use crate::text::format::tab_text;
use crate::unicode::{display_width, grapheme_split, grapheme_width, graphemes};

verus! {

/// Builds runs of formatted text for a buffer's settings and a row width.
pub struct LineFormatFactory<'a> {
    config: &'a BufferConfig,
    sx: usize,
}

impl<'a> LineFormatFactory<'a> {
    pub fn new(config: &'a BufferConfig, sx: usize) -> (f: Self)
        ensures
            f.spec_sx() == sx,
            f.spec_config() == *config,
    {
        LineFormatFactory { config, sx }
    }

    pub closed spec fn spec_sx(&self) -> usize {
        self.sx
    }

    pub closed spec fn spec_config(&self) -> BufferConfig {
        *self.config
    }

    /// A run of `s` with the given format.
    pub fn create(&self, format: LineFormatType, s: String) -> (f: LineFormat)
        ensures
            f.format == format,
            f.s@ == s@,
    {
        LineFormat::new(format, s)
    }

    /// The runs of a string: none.
    pub fn format(&self, s: String) -> (v: Vec<LineFormat>)
        ensures
            v@.len() == 0,
    {
        Vec::new()
    }
}

/// A run of text with one format.
#[derive(Debug, Clone, PartialEq, Eq)]
pub struct LineFormat {
    pub format: LineFormatType,
    pub s: String,
}

impl LineFormat {
    pub fn new(format: LineFormatType, s: String) -> (f: Self)
        ensures
            f.format == format,
            f.s@ == s@,
    {
        LineFormat { format, s }
    }
}

impl View for LineFormat {
    type V = (LineFormatType, Seq<char>);

    open spec fn view(&self) -> (LineFormatType, Seq<char>) {
        (self.format, self.s@)
    }
}

/// How a run of text is drawn.
#[derive(Debug, PartialEq, Eq, Structural, Copy, Clone)]
pub enum LineFormatType {
    Dim,
    Normal,
    Highlight,
    Bold,
}

/// One drawn cell: its text, its width in columns and its format.
#[derive(Debug)]
pub struct FormatItem {
    pub unicode_width: usize,
    pub s: String,
    pub format: LineFormatType,
}

/// A rendered element of a line: a grapheme, a tab (its width and the characters it stands
/// for), a control character, or a line end (the characters it stands for).
#[derive(Debug, Clone, PartialEq, Eq)]
pub enum ViewChar {
    Grapheme(String, u8),
    Tab(u8, u8),
    Control(String, u8),
    NL(u8),
}

/// The digit for a value below sixteen, in lower case.
pub open spec fn hex_digit(d: nat) -> char {
    if d < 10 {
        (48 + d) as char
    } else {
        (87 + d) as char
    }
}

/// A number in lower-case hexadecimal, without leading zeros.
pub open spec fn hex(n: nat) -> Seq<char>
    decreases n,
{
    if n < 16 {
        seq![hex_digit(n)]
    } else {
        hex(n / 16).push(hex_digit(n % 16))
    }
}

/// A character written as a Unicode escape: `\u{...}`.
pub open spec fn escape_unicode(c: char) -> Seq<char> {
    seq!['\\', 'u', '{'] + hex(c as nat) + seq!['}']
}

/// Every character of a string written as a Unicode escape.
pub open spec fn escaped(s: Seq<char>) -> Seq<char>
    decreases s.len(),
{
    if s.len() == 0 {
        seq![]
    } else {
        escaped(s.drop_last()) + escape_unicode(s.last())
    }
}

/// The text that a rendered element is drawn as.
pub open spec fn viewchar_text(v: ViewChar) -> Seq<char> {
    match v {
        ViewChar::Tab(size, _) => tab_text(size as int),
        ViewChar::NL(_) => seq!['\u{00B6}'],
        ViewChar::Control(s, _) => escaped(s@),
        ViewChar::Grapheme(s, _) => s@,
    }
}

/// The number of characters a rendered element stands for.
pub open spec fn viewchar_len(v: ViewChar) -> u8 {
    match v {
        ViewChar::Tab(_, n) => n,
        ViewChar::NL(n) => n,
        ViewChar::Control(_, n) => n,
        ViewChar::Grapheme(_, n) => n,
    }
}

/// A rendered element can be drawn: a tab is at least one column wide.
pub open spec fn viewchar_ok(v: ViewChar) -> bool {
    match v {
        ViewChar::Tab(size, _) => size >= 1,
        _ => true,
    }
}

/// The format that a rendered element is drawn with.
pub open spec fn viewchar_format(v: ViewChar) -> LineFormatType {
    match v {
        ViewChar::Grapheme(_, _) => LineFormatType::Normal,
        _ => LineFormatType::Dim,
    }
}

fn push_hex(out: &mut String, n: u32)
    ensures
        final(out)@ == old(out)@ + hex(n as nat),
    decreases n,
{
    if n >= 16 {
        push_hex(out, n / 16);
    }
    let d = n % 16;
    let c: char = if d < 10 {
        (48 + d as u8) as char
    } else {
        (87 + d as u8) as char
    };
    proof {
        assert(c == hex_digit(d as nat));
    }
    string_push(out, c);
    proof {
        if n >= 16 {
            assert(hex(n as nat) == hex((n / 16) as nat).push(hex_digit((n % 16) as nat)));
        }
    }
}

fn push_escape(out: &mut String, c: char)
    ensures
        final(out)@ == old(out)@ + escape_unicode(c),
{
    string_push(out, '\\');
    string_push(out, 'u');
    string_push(out, '{');
    push_hex(out, c as u32);
    string_push(out, '}');
    assert(out@ =~= old(out)@ + escape_unicode(c));
}

fn format_control(s: &str) -> (r: String)
    ensures
        r@ == escaped(s@),
{
    let mut r = String::new();
    for c in it: s.chars()
        invariant
            it.seq() == s@,
            r@ == escaped(s@.take(it.index() as int)),
    {
        let ghost k = it.index();
        push_escape(&mut r, c);
        proof {
            let t = s@.take(k + 1);
            assert(t.drop_last() =~= s@.take(k as int));
            assert(escaped(t) == escaped(t.drop_last()) + escape_unicode(t.last()));
        }
    }
    assert(s@.take(s@.len() as int) =~= s@);
    r
}

fn format_newline() -> (s: String)
    ensures
        s@ == seq!['\u{00B6}'],
{
    let mut s = String::new();
    string_push(&mut s, '\u{00B6}');
    s
}

fn format_tab(tab_size: u8) -> (s: String)
    requires
        tab_size >= 1,
    ensures
        s@ == tab_text(tab_size as int),
{
    let mut s = String::new();
    let mut i: u8 = 0;
    while i < tab_size - 1
        invariant
            tab_size >= 1,
            i <= tab_size - 1,
            s@ == Seq::new(i as nat, |j: int| ' '),
        decreases tab_size - 1 - i,
    {
        string_push(&mut s, ' ');
        i = i + 1;
        assert(s@ =~= Seq::new(i as nat, |j: int| ' '));
    }
    string_push(&mut s, '\u{2192}');
    assert(s@ =~= tab_text(tab_size as int));
    s
}

impl ViewChar {
    /// The number of characters the element stands for.
    pub fn char_len(&self) -> (n: u8)
        ensures
            n == viewchar_len(*self),
    {
        match self {
            Self::Tab(_, char_len) => *char_len,
            Self::NL(char_len) => *char_len,
            Self::Control(_, char_len) => *char_len,
            Self::Grapheme(_, char_len) => *char_len,
        }
    }

    /// The text the element is drawn as: a tab as padding and an arrow, a line end as a
    /// pilcrow, a control character as its Unicode escape, a grapheme as itself.
    pub fn format(&self) -> (s: String)
        requires
            viewchar_ok(*self),
        ensures
            s@ == viewchar_text(*self),
    {
        match self {
            Self::Tab(size, _) => format_tab(*size),
            Self::NL(_) => format_newline(),
            Self::Control(v, _) => format_control(v.as_str()),
            Self::Grapheme(s, _) => s.clone(),
        }
    }
}

/// A rendered element with its text, its width in columns, the characters it stands for,
/// and where it starts: in columns (`r`) and in characters (`lc`) from the start of the line.
#[derive(Debug, Clone, PartialEq, Eq)]
pub struct ViewCharWithSize {
    viewchar: ViewChar,
    s: String,
    width: usize,
    char_len: usize,
    r: usize,
    lc: usize,
}

impl ViewCharWithSize {
    pub closed spec fn spec_viewchar(&self) -> ViewChar {
        self.viewchar
    }

    pub closed spec fn spec_width(&self) -> usize {
        self.width
    }

    pub closed spec fn spec_char_len(&self) -> usize {
        self.char_len
    }

    pub closed spec fn spec_r(&self) -> usize {
        self.r
    }

    pub closed spec fn spec_lc(&self) -> usize {
        self.lc
    }

    /// The text, width and length agree with the element.
    pub closed spec fn wf(&self) -> bool {
        &&& viewchar_ok(self.viewchar)
        &&& self.s@ == viewchar_text(self.viewchar)
        &&& self.width == display_width(self.s@)
        &&& self.char_len == viewchar_len(self.viewchar)
    }

    pub fn new(viewchar: ViewChar, r: usize, lc: usize) -> (v: Self)
        requires
            viewchar_ok(viewchar),
        ensures
            v.wf(),
            v.spec_viewchar() == viewchar,
            v.spec_width() == display_width(viewchar_text(viewchar)),
            v.spec_r() == r,
            v.spec_lc() == lc,
    {
        let s = viewchar.format();
        let width = grapheme_width(s.as_str());
        let char_len = viewchar.char_len() as usize;
        Self { viewchar, s, width, char_len, r, lc }
    }

    /// The drawn cell of the element.
    pub fn to_format_item(&self) -> (f: FormatItem)
        requires
            self.wf(),
        ensures
            f.s@ == viewchar_text(self.spec_viewchar()),
            f.unicode_width == display_width(f.s@),
            f.format == viewchar_format(self.spec_viewchar()),
    {
        let s = self.viewchar.format();
        let width = grapheme_width(s.as_str());
        let format = match self.viewchar {
            ViewChar::Tab(_, _) => LineFormatType::Dim,
            ViewChar::NL(_) => LineFormatType::Dim,
            ViewChar::Control(_, _) => LineFormatType::Dim,
            ViewChar::Grapheme(_, _) => LineFormatType::Normal,
        };
        FormatItem { s, unicode_width: width, format }
    }
}

/// A sum capped at the largest `usize`.
pub open spec fn cap(x: int) -> int {
    if x > usize::MAX {
        usize::MAX as int
    } else {
        x
    }
}

/// Where element `i` starts in columns: the capped sum of the widths before it.
pub open spec fn r_at(es: Seq<ViewCharWithSize>, i: int) -> int
    decreases i,
{
    if i <= 0 {
        0
    } else {
        cap(r_at(es, i - 1) + es[i - 1].spec_width())
    }
}

/// Where element `i` starts in characters: the capped sum of the lengths before it.
pub open spec fn lc_at(es: Seq<ViewCharWithSize>, i: int) -> int
    decreases i,
{
    if i <= 0 {
        0
    } else {
        cap(lc_at(es, i - 1) + es[i - 1].spec_char_len())
    }
}

/// The capped sum of the widths of elements `a` up to `b`.
pub open spec fn width_sum(es: Seq<ViewCharWithSize>, a: int, b: int) -> int
    decreases b - a,
{
    if b <= a {
        0
    } else {
        cap(width_sum(es, a, b - 1) + es[b - 1].spec_width())
    }
}

/// The capped sum of the lengths of elements `a` up to `b`.
pub open spec fn len_sum(es: Seq<ViewCharWithSize>, a: int, b: int) -> int
    decreases b - a,
{
    if b <= a {
        0
    } else {
        cap(len_sum(es, a, b - 1) + es[b - 1].spec_char_len())
    }
}

/// The first element whose start satisfies the bound, if any.
pub open spec fn first_lc_at_least(es: Seq<ViewCharWithSize>, lc: usize) -> Option<int> {
    if exists|i: int| 0 <= i < es.len() && es[i].spec_lc() >= lc {
        Some(
            choose|i: int|
                0 <= i < es.len() && es[i].spec_lc() >= lc && forall|j: int|
                    0 <= j < i ==> es[j].spec_lc() < lc,
        )
    } else {
        None
    }
}

pub open spec fn first_r_at_least(es: Seq<ViewCharWithSize>, r: usize) -> Option<int> {
    if exists|i: int| 0 <= i < es.len() && es[i].spec_r() >= r {
        Some(
            choose|i: int|
                0 <= i < es.len() && es[i].spec_r() >= r && forall|j: int|
                    0 <= j < i ==> es[j].spec_r() < r,
        )
    } else {
        None
    }
}

/// The rendered elements of a line, each with where it starts.
#[derive(Debug, PartialEq, Eq)]
pub struct ViewCharCollection {
    elements: Vec<ViewCharWithSize>,
    current_r: usize,
    current_lc: usize,
}

impl View for ViewCharCollection {
    type V = Seq<ViewCharWithSize>;

    closed spec fn view(&self) -> Seq<ViewCharWithSize> {
        self.elements@
    }
}

impl ViewCharCollection {
    /// Each element is well formed and starts where the elements before it end.
    pub closed spec fn wf(&self) -> bool {
        &&& forall|i: int| 0 <= i < self.elements@.len() ==> (#[trigger] self.elements@[i]).wf()
        &&& forall|i: int|
            0 <= i < self.elements@.len() ==> (#[trigger] self.elements@[i]).spec_r() == r_at(
                self.elements@,
                i,
            ) && self.elements@[i].spec_lc() == lc_at(self.elements@, i)
        &&& self.current_r == r_at(self.elements@, self.elements@.len() as int)
        &&& self.current_lc == lc_at(self.elements@, self.elements@.len() as int)
    }

    /// The rendered elements, in order.
    pub open spec fn viewchars(&self) -> Seq<ViewChar> {
        self@.map_values(|e: ViewCharWithSize| e.spec_viewchar())
    }
}


/// Sums of widths agree over elements of equal widths.
proof fn lemma_width_sum_same(a: Seq<ViewCharWithSize>, b: Seq<ViewCharWithSize>, n: int)
    requires
        0 <= n <= a.len(),
        a.len() == b.len(),
        forall|i: int| 0 <= i < a.len() ==> (#[trigger] a[i]).spec_width() == b[i].spec_width(),
    ensures
        width_sum(a, 0, n) == width_sum(b, 0, n),
    decreases n,
{
    if n > 0 {
        lemma_width_sum_same(a, b, n - 1);
    }
}

/// Two well-formed collections whose elements show the same texts have the same width.
pub proof fn lemma_same_texts_same_width(v1: ViewCharCollection, v2: ViewCharCollection)
    requires
        v1.wf(),
        v2.wf(),
        v1@.len() == v2@.len(),
        forall|i: int|
            0 <= i < v1@.len() ==> viewchar_text(#[trigger] v1.viewchars()[i]) == viewchar_text(
                v2.viewchars()[i],
            ),
    ensures
        width_sum(v1@, 0, v1@.len() as int) == width_sum(v2@, 0, v2@.len() as int),
{
    assert forall|i: int| 0 <= i < v1@.len() implies (#[trigger] v1@[i]).spec_width()
        == v2@[i].spec_width() by {
        assert(v1.viewchars()[i] == v1@[i].spec_viewchar());
        assert(v2.viewchars()[i] == v2@[i].spec_viewchar());
        assert(v1.elements@[i].wf());
        assert(v2.elements@[i].wf());
    }
    lemma_width_sum_same(v1@, v2@, v1@.len() as int);
}

/// Starting columns sum the widths before them.
proof fn lemma_r_at_width_sum(es: Seq<ViewCharWithSize>, i: int)
    requires
        0 <= i,
    ensures
        r_at(es, i) == width_sum(es, 0, i),
    decreases i,
{
    if i > 0 {
        lemma_r_at_width_sum(es, i - 1);
    }
}

/// Starting characters sum the lengths before them.
proof fn lemma_lc_at_len_sum(es: Seq<ViewCharWithSize>, i: int)
    requires
        0 <= i,
    ensures
        lc_at(es, i) == len_sum(es, 0, i),
    decreases i,
{
    if i > 0 {
        lemma_lc_at_len_sum(es, i - 1);
    }
}

/// Sums of widths grow strictly with each element of positive width, as long as they stay
/// below `usize::MAX`.
proof fn lemma_r_at_strict(es: Seq<ViewCharWithSize>, j: int, i: int)
    requires
        0 <= j < i <= es.len(),
        forall|k: int| 0 <= k < es.len() ==> (#[trigger] es[k]).spec_width() > 0,
        r_at(es, i) < usize::MAX,
    ensures
        r_at(es, j) < r_at(es, i),
    decreases i - j,
{
    assert(es[i - 1].spec_width() > 0);
    if j < i - 1 {
        lemma_r_at_strict(es, j, i - 1);
    }
}

/// Sums of lengths grow strictly with each element that stands for a character, as long as
/// they stay below `usize::MAX`.
proof fn lemma_lc_at_strict(es: Seq<ViewCharWithSize>, j: int, i: int)
    requires
        0 <= j < i <= es.len(),
        forall|k: int| 0 <= k < es.len() ==> (#[trigger] es[k]).spec_char_len() > 0,
        lc_at(es, i) < usize::MAX,
    ensures
        lc_at(es, j) < lc_at(es, i),
    decreases i - j,
{
    assert(es[i - 1].spec_char_len() > 0);
    if j < i - 1 {
        lemma_lc_at_strict(es, j, i - 1);
    }
}

/// Sums grow with their end.
proof fn lemma_width_sum_monotone(es: Seq<ViewCharWithSize>, i: int, n: int)
    requires
        0 <= i <= n,
    ensures
        width_sum(es, 0, i) <= width_sum(es, 0, n),
    decreases n - i,
{
    if i < n {
        lemma_width_sum_monotone(es, i, n - 1);
    }
}

proof fn lemma_len_sum_monotone(es: Seq<ViewCharWithSize>, i: int, n: int)
    requires
        0 <= i <= n,
    ensures
        len_sum(es, 0, i) <= len_sum(es, 0, n),
    decreases n - i,
{
    if i < n {
        lemma_len_sum_monotone(es, i, n - 1);
    }
}

/// In a line whose elements are each at least one column wide and stand for at least one
/// character, and whose width and length stay below `usize::MAX`, element `i` is the first
/// to start at its column and the first to start at its character.
pub proof fn lemma_element_found(v: ViewCharCollection, i: int)
    requires
        v.wf(),
        0 <= i < v@.len(),
        forall|k: int| 0 <= k < v@.len() ==> (#[trigger] v@[k]).spec_width() > 0,
        forall|k: int| 0 <= k < v@.len() ==> (#[trigger] v@[k]).spec_char_len() > 0,
        width_sum(v@, 0, v@.len() as int) < usize::MAX,
        len_sum(v@, 0, v@.len() as int) < usize::MAX,
    ensures
        first_lc_at_least(v@, v@[i].spec_lc()) == Some(i),
        first_r_at_least(v@, v@[i].spec_r()) == Some(i),
{
    let es = v@;
    let n = es.len() as int;
    assert(es[i].spec_r() == r_at(es, i) && es[i].spec_lc() == lc_at(es, i));
    lemma_r_at_width_sum(es, i);
    lemma_lc_at_len_sum(es, i);
    lemma_width_sum_monotone(es, i, n);
    lemma_len_sum_monotone(es, i, n);
    assert forall|j: int| 0 <= j < i implies (#[trigger] es[j]).spec_r() < es[i].spec_r()
        && es[j].spec_lc() < es[i].spec_lc() by {
        assert(es[j].spec_r() == r_at(es, j) && es[j].spec_lc() == lc_at(es, j));
        lemma_r_at_strict(es, j, i);
        lemma_lc_at_strict(es, j, i);
    }
    assert forall|j: int| i < j < n implies (#[trigger] es[j]).spec_r() > es[i].spec_r()
        && es[j].spec_lc() > es[i].spec_lc() by {
        assert(es[j].spec_r() == r_at(es, j) && es[j].spec_lc() == lc_at(es, j));
        lemma_r_at_width_sum(es, j);
        lemma_lc_at_len_sum(es, j);
        lemma_width_sum_monotone(es, j, n);
        lemma_len_sum_monotone(es, j, n);
        lemma_r_at_strict(es, i, j);
        lemma_lc_at_strict(es, i, j);
    }
    let lc = es[i].spec_lc();
    let r = es[i].spec_r();
    assert(0 <= i < es.len() && es[i].spec_lc() >= lc && forall|j: int| 0 <= j < i ==> es[j].spec_lc() < lc);
    assert(0 <= i < es.len() && es[i].spec_r() >= r && forall|j: int| 0 <= j < i ==> es[j].spec_r() < r);
    let a = choose|k: int| 0 <= k < es.len() && es[k].spec_lc() >= lc && forall|j: int| 0 <= j < k ==> es[j].spec_lc() < lc;
    let b = choose|k: int| 0 <= k < es.len() && es[k].spec_r() >= r && forall|j: int| 0 <= j < k ==> es[j].spec_r() < r;
    if a < i {
        assert(es[a].spec_lc() < lc);
    }
    if a > i {
        assert(es[i].spec_lc() < lc);
    }
    if b < i {
        assert(es[b].spec_r() < r);
    }
    if b > i {
        assert(es[i].spec_r() < r);
    }
}

/// The number of characters after elements standing for the characters of `vs` follow a
/// count of `acc`: each adds its length, capped at `usize::MAX`.
pub open spec fn chars_added(acc: int, vs: Seq<ViewChar>) -> int
    decreases vs.len(),
{
    if vs.len() == 0 {
        acc
    } else {
        cap(chars_added(acc, vs.drop_last()) + viewchar_len(vs.last()))
    }
}

/// One more element standing for `vs[i]` adds its length to the count.
proof fn lemma_append_step(
    before: Seq<ViewCharWithSize>,
    es: Seq<ViewCharWithSize>,
    vs: Seq<ViewChar>,
    n: int,
    i: int,
    acc: int,
)
    requires
        0 <= i < vs.len(),
        before.len() == n + i,
        es.len() == n + i + 1,
        es.subrange(0, n + i) == before,
        es.last().spec_viewchar() == vs[i],
        es.last().spec_char_len() == viewchar_len(vs[i]),
        len_sum(before, 0, n + i) == chars_added(acc, vs.subrange(0, i)),
    ensures
        len_sum(es, 0, n + i + 1) == chars_added(acc, vs.subrange(0, i + 1)),
{
    assert(before.subrange(0, n + i) =~= before);
    lemma_len_sum_prefix(before, es, n + i);
    assert(vs.subrange(0, i + 1).drop_last() =~= vs.subrange(0, i));
    assert(vs.subrange(0, i + 1).last() == vs[i]);
}

/// A sum of lengths over a prefix depends on that prefix alone.
proof fn lemma_len_sum_prefix(a: Seq<ViewCharWithSize>, b: Seq<ViewCharWithSize>, k: int)
    requires
        0 <= k <= a.len(),
        k <= b.len(),
        a.subrange(0, k) == b.subrange(0, k),
    ensures
        len_sum(a, 0, k) == len_sum(b, 0, k),
    decreases k,
{
    if k > 0 {
        assert(a[k - 1] == a.subrange(0, k)[k - 1]);
        assert(b[k - 1] == b.subrange(0, k)[k - 1]);
        assert(a.subrange(0, k - 1) =~= a.subrange(0, k).subrange(0, k - 1));
        assert(b.subrange(0, k - 1) =~= b.subrange(0, k).subrange(0, k - 1));
        lemma_len_sum_prefix(a, b, k - 1);
    }
}

/// In a line whose elements each stand for one character, element `i` starts at character
/// `i`; with widths of at least one column, the line's width is at least its number of
/// elements.
pub proof fn lemma_single_char_elements(v: ViewCharCollection)
    requires
        v.wf(),
        v@.len() < usize::MAX,
        forall|k: int| 0 <= k < v@.len() ==> (#[trigger] v@[k]).spec_char_len() == 1,
        forall|k: int| 0 <= k < v@.len() ==> (#[trigger] v@[k]).spec_width() > 0,
    ensures
        forall|k: int| 0 <= k < v@.len() ==> (#[trigger] v@[k]).spec_lc() == k,
        len_sum(v@, 0, v@.len() as int) == v@.len(),
        width_sum(v@, 0, v@.len() as int) >= v@.len(),
{
    let es = v@;
    assert forall|k: int| 0 <= k <= es.len() implies lc_at(es, k) == k && width_sum(es, 0, k) >= k by {
        lemma_single_lc(es, k);
    }
    assert forall|k: int| 0 <= k < es.len() implies (#[trigger] es[k]).spec_lc() == k by {
        assert(es[k].spec_lc() == lc_at(es, k));
    }
    lemma_lc_at_len_sum(es, es.len() as int);
}

proof fn lemma_single_lc(es: Seq<ViewCharWithSize>, k: int)
    requires
        0 <= k <= es.len(),
        es.len() <= usize::MAX,
        forall|j: int| 0 <= j < es.len() ==> (#[trigger] es[j]).spec_char_len() == 1,
        forall|j: int| 0 <= j < es.len() ==> (#[trigger] es[j]).spec_width() > 0,
    ensures
        lc_at(es, k) == k,
        width_sum(es, 0, k) >= k,
    decreases k,
{
    if k > 0 {
        lemma_single_lc(es, k - 1);
        assert(es[k - 1].spec_char_len() == 1);
        assert(es[k - 1].spec_width() > 0);
    }
}

impl Default for ViewCharCollection {
    fn default() -> (c: Self)
        ensures
            c.wf(),
            c@.len() == 0,
    {
        ViewCharCollection { elements: Vec::new(), current_r: 0, current_lc: 0 }
    }
}

fn add_size(viewchar: ViewChar, r: usize, lc: usize) -> (v: ViewCharWithSize)
    requires
        viewchar_ok(viewchar),
    ensures
        v.wf(),
        v.spec_viewchar() == viewchar,
        v.spec_r() == r,
        v.spec_lc() == lc,
{
    ViewCharWithSize::new(viewchar, r, lc)
}

impl ViewCharCollection {
    /// The width in columns of the whole line.
    pub fn unicode_width(&self) -> (w: usize)
        ensures
            w == width_sum(self@, 0, self@.len() as int),
    {
        self.unicode_width_range(0, self.elements.len())
    }

    /// The width in columns of elements `start` up to `end`.
    pub fn unicode_width_range(&self, start: usize, end: usize) -> (w: usize)
        requires
            start <= end <= self@.len(),
        ensures
            w == width_sum(self@, start as int, end as int),
    {
        let mut acc: usize = 0;
        let mut i = start;
        while i < end
            invariant
                start <= i <= end <= self.elements@.len(),
                acc == width_sum(self.elements@, start as int, i as int),
            decreases end - i,
        {
            acc = acc.saturating_add(self.elements[i].width);
            i = i + 1;
        }
        acc
    }

    /// The number of characters of the whole line.
    pub fn char_length(&self) -> (n: usize)
        ensures
            n == len_sum(self@, 0, self@.len() as int),
    {
        self.char_length_range(0, self.elements.len())
    }

    /// Where in columns the first element that starts at character `lc` or later starts;
    /// zero when there is none.
    pub fn lc_to_r(&self, lc: usize) -> (r: usize)
        ensures
            r == match first_lc_at_least(self@, lc) {
                Some(i) => self@[i].spec_r(),
                None => 0,
            },
    {
        let mut i: usize = 0;
        while i < self.elements.len()
            invariant
                i <= self.elements@.len(),
                forall|j: int| 0 <= j < i ==> self.elements@[j].spec_lc() < lc,
            decreases self.elements@.len() - i,
        {
            if self.elements[i].lc >= lc {
                proof {
                    let w = choose|w: int|
                        0 <= w < self.elements@.len() && self.elements@[w].spec_lc() >= lc
                            && forall|j: int| 0 <= j < w ==> self.elements@[j].spec_lc() < lc;
                    assert(0 <= i < self.elements@.len() && self.elements@[i as int].spec_lc()
                        >= lc);
                    assert(w == i) by {
                        if w < i {
                        } else if w > i {
                        }
                    }
                }
                return self.elements[i].r;
            }
            i = i + 1;
        }
        0
    }

    /// Where in characters the first element that starts at column `r` or later starts;
    /// zero when there is none.
    pub fn r_to_lc(&self, r: usize) -> (lc: usize)
        ensures
            lc == match first_r_at_least(self@, r) {
                Some(i) => self@[i].spec_lc(),
                None => 0,
            },
    {
        let mut i: usize = 0;
        while i < self.elements.len()
            invariant
                i <= self.elements@.len(),
                forall|j: int| 0 <= j < i ==> self.elements@[j].spec_r() < r,
            decreases self.elements@.len() - i,
        {
            if self.elements[i].r >= r {
                proof {
                    let w = choose|w: int|
                        0 <= w < self.elements@.len() && self.elements@[w].spec_r() >= r
                            && forall|j: int| 0 <= j < w ==> self.elements@[j].spec_r() < r;
                    assert(0 <= i < self.elements@.len() && self.elements@[i as int].spec_r()
                        >= r);
                    assert(w == i) by {
                        if w < i {
                        } else if w > i {
                        }
                    }
                }
                return self.elements[i].lc;
            }
            i = i + 1;
        }
        0
    }

    /// The number of characters of elements `start` up to `end`, both cut to the line.
    pub fn char_length_range(&self, start: usize, end: usize) -> (n: usize)
        requires
            (if start >= self@.len() {
                self@.len() as int
            } else {
                start as int
            }) <= (if end > self@.len() {
                self@.len() as int
            } else {
                end as int
            }),
        ensures
            n == len_sum(
                self@,
                if start >= self@.len() {
                    self@.len() as int
                } else {
                    start as int
                },
                if end > self@.len() {
                    self@.len() as int
                } else {
                    end as int
                },
            ),
    {
        let mut a = start;
        if a >= self.elements.len() {
            a = self.elements.len();
        }
        let mut b = end;
        if b > self.elements.len() {
            b = self.elements.len();
        }
        let mut acc: usize = 0;
        let mut i = a;
        while i < b
            invariant
                a <= i <= b <= self.elements@.len(),
                acc == len_sum(self.elements@, a as int, i as int),
            decreases b - i,
        {
            acc = acc.saturating_add(self.elements[i].char_len);
            i = i + 1;
        }
        acc
    }

    /// The rendered elements `start` up to `end`.
    pub fn elements_range(&self, start: usize, end: usize) -> (v: Vec<ViewChar>)
        requires
            start <= end <= self@.len(),
        ensures
            v@ == self.viewchars().subrange(start as int, end as int),
    {
        let mut v: Vec<ViewChar> = Vec::new();
        let mut i = start;
        while i < end
            invariant
                start <= i <= end <= self.elements@.len(),
                v@ == self.viewchars().subrange(start as int, i as int),
            decreases end - i,
        {
            let e = clone_viewchar(&self.elements[i].viewchar);
            v.push(e);
            i = i + 1;
            assert(v@ =~= self.viewchars().subrange(start as int, i as int));
        }
        v
    }

    /// Adds each of the given elements at the end.
    pub fn append(&mut self, v: &mut Vec<ViewChar>)
        requires
            old(self).wf(),
            forall|i: int| 0 <= i < old(v)@.len() ==> viewchar_ok(#[trigger] old(v)@[i]),
        ensures
            final(self).wf(),
            final(self).viewchars() == old(self).viewchars() + old(v)@,
            final(v)@ == old(v)@,
            len_sum(final(self)@, 0, final(self)@.len() as int) == chars_added(
                len_sum(old(self)@, 0, old(self)@.len() as int),
                old(v)@,
            ),
    {
        let mut i: usize = 0;
        let ghost n = self@.len() as int;
        while i < v.len()
            invariant
                self.wf(),
                i <= v@.len(),
                v@ == old(v)@,
                n == old(self)@.len(),
                self@.len() == n + i,
                forall|j: int| 0 <= j < v@.len() ==> viewchar_ok(#[trigger] v@[j]),
                self.viewchars() == old(self).viewchars() + v@.subrange(0, i as int),
                len_sum(self@, 0, n + i) == chars_added(len_sum(old(self)@, 0, n), v@.subrange(0, i as int)),
            decreases v@.len() - i,
        {
            let x = clone_viewchar(&v[i]);
            let ghost before = self@;
            self.push(x);
            proof {
                assert(self.elements@[n + i].wf());
                lemma_append_step(before, self@, v@, n, i as int, len_sum(old(self)@, 0, n));
            }
            i = i + 1;
            assert(self.viewchars() =~= old(self).viewchars() + v@.subrange(0, i as int));
        }
        assert(v@.subrange(0, v@.len() as int) =~= v@);
    }

    /// Adds an element at the end, starting where the line ended.
    pub fn push(&mut self, v: ViewChar)
        requires
            old(self).wf(),
            viewchar_ok(v),
        ensures
            final(self).wf(),
            final(self)@.len() == old(self)@.len() + 1,
            final(self)@.subrange(0, old(self)@.len() as int) == old(self)@,
            final(self)@.last().spec_viewchar() == v,
            final(self).viewchars() == old(self).viewchars().push(v),
    {
        let s = v.format();
        let char_len = v.char_len() as usize;
        let e = add_size(v, self.current_r, self.current_lc);
        let ghost old_es = self.elements@;
        self.elements.push(e);
        self.current_r = self.current_r.saturating_add(grapheme_width(s.as_str()));
        self.current_lc = self.current_lc.saturating_add(char_len);
        proof {
            let es = self.elements@;
            assert forall|i: int| 0 <= i <= old_es.len() implies r_at(es, i) == r_at(old_es, i)
                && lc_at(es, i) == lc_at(old_es, i) by {
                lemma_prefix_positions(old_es, es, i);
            }
            assert(self.viewchars() =~= old(self).viewchars().push(v));
            assert(es.subrange(0, old_es.len() as int) =~= old_es);
        }
    }
}

proof fn lemma_prefix_positions(a: Seq<ViewCharWithSize>, b: Seq<ViewCharWithSize>, i: int)
    requires
        0 <= i <= a.len() <= b.len(),
        forall|j: int| 0 <= j < a.len() ==> a[j] == b[j],
    ensures
        r_at(b, i) == r_at(a, i),
        lc_at(b, i) == lc_at(a, i),
    decreases i,
{
    if i > 0 {
        lemma_prefix_positions(a, b, i - 1);
    }
}

fn clone_element(e: &ViewCharWithSize) -> (c: ViewCharWithSize)
    ensures
        c == *e,
{
    ViewCharWithSize {
        viewchar: clone_viewchar(&e.viewchar),
        s: e.s.clone(),
        width: e.width,
        char_len: e.char_len,
        r: e.r,
        lc: e.lc,
    }
}

impl Clone for ViewCharCollection {
    /// A copy with the same elements.
    fn clone(&self) -> (c: Self)
        ensures
            c@ == self@,
            c.wf() == self.wf(),
    {
        let mut elements: Vec<ViewCharWithSize> = Vec::new();
        let mut i: usize = 0;
        while i < self.elements.len()
            invariant
                i <= self.elements@.len(),
                elements@ == self.elements@.subrange(0, i as int),
            decreases self.elements@.len() - i,
        {
            elements.push(clone_element(&self.elements[i]));
            i = i + 1;
            assert(elements@ =~= self.elements@.subrange(0, i as int));
        }
        assert(self.elements@.subrange(0, i as int) =~= self.elements@);
        ViewCharCollection { elements, current_r: self.current_r, current_lc: self.current_lc }
    }
}

fn clone_viewchar(v: &ViewChar) -> (c: ViewChar)
    ensures
        c == *v,
{
    match v {
        ViewChar::Grapheme(s, n) => ViewChar::Grapheme(s.clone(), *n),
        ViewChar::Tab(a, b) => ViewChar::Tab(*a, *b),
        ViewChar::Control(s, n) => ViewChar::Control(s.clone(), *n),
        ViewChar::NL(n) => ViewChar::NL(*n),
    }
}

} // verus!

verus! {

/// A control character of ASCII.
pub open spec fn ascii_control(c: char) -> bool {
    (c as u32) < 32 || (c as u32) == 127
}

/// The element that stands for a tab: one tab of `tab_width` columns, or the indentation
/// as that many spaces.
pub open spec fn tab_viewchar(config: BufferConfig) -> ViewChar {
    match config.indent_style {
        IndentStyle::Tab => ViewChar::Tab(config.tab_width, 1),
        IndentStyle::Space => ViewChar::Tab(
            config.spec_indent_columns() as u8,
            config.spec_indent_columns() as u8,
        ),
    }
}

/// The element that stands for a line end: as many characters as the buffer's separator.
pub open spec fn nl_viewchar(config: BufferConfig) -> ViewChar {
    match config.end_of_line {
        EndOfLine::CrLf => ViewChar::NL(2),
        _ => ViewChar::NL(1),
    }
}

/// `v` is the element for grapheme `g`: a tab, a line end, an ASCII control character on
/// its own, or any other grapheme, which stands for one character.
pub open spec fn grapheme_viewchar(g: Seq<char>, config: BufferConfig, v: ViewChar) -> bool {
    if g == seq!['\t'] {
        v == tab_viewchar(config)
    } else if g == seq!['\n'] {
        v == nl_viewchar(config)
    } else if g.len() == 1 && ascii_control(g[0]) {
        v matches ViewChar::Control(s, 1) && s@ == g
    } else {
        v matches ViewChar::Grapheme(s, 1) && s@ == g
    }
}

/// A tab can be drawn: it is at least one column wide.
pub open spec fn tab_ok(config: BufferConfig) -> bool {
    match config.indent_style {
        IndentStyle::Tab => config.tab_width >= 1,
        IndentStyle::Space => config.spec_indent_columns() >= 1,
    }
}

/// Whether a tab can be drawn with `config`.
pub(crate) fn check_tab_ok(config: &BufferConfig) -> (r: bool)
    ensures
        r == tab_ok(*config),
{
    match config.indent_style {
        IndentStyle::Tab => config.tab_width >= 1,
        IndentStyle::Space => match config.indent_size {
            IndentSize::Tab => config.tab_width >= 1,
            IndentSize::Size(n) => n >= 1,
        },
    }
}

fn expand_tab(config: &BufferConfig) -> (v: Vec<ViewChar>)
    ensures
        v@ == seq![tab_viewchar(*config)],
{
    let mut v = Vec::new();
    match config.indent_style {
        IndentStyle::Tab => {
            v.push(ViewChar::Tab(config.tab_width, 1));
        },
        IndentStyle::Space => {
            let spaces = match config.indent_size {
                IndentSize::Tab => config.tab_width,
                IndentSize::Size(n) => n,
            };
            v.push(ViewChar::Tab(spaces, spaces));
        },
    }
    assert(v@ =~= seq![tab_viewchar(*config)]);
    v
}

fn expand_newline(config: &BufferConfig) -> (v: Vec<ViewChar>)
    ensures
        v@ == seq![nl_viewchar(*config)],
{
    let mut v = Vec::new();
    match config.end_of_line {
        EndOfLine::Lf => v.push(ViewChar::NL(1)),
        EndOfLine::CrLf => v.push(ViewChar::NL(2)),
        EndOfLine::Cr => v.push(ViewChar::NL(1)),
    }
    assert(v@ =~= seq![nl_viewchar(*config)]);
    v
}

/// The only character of `s`, when it has exactly one.
fn single_char(s: &String) -> (r: Option<char>)
    ensures
        r == if s@.len() == 1 {
            Some(s@[0])
        } else {
            None::<char>
        },
{
    let mut first: Option<char> = None;
    let mut count: usize = 0;
    for c in it: s.as_str().chars()
        invariant
            it.seq() == s@,
            count == if it.index() < 2 {
                it.index() as int
            } else {
                2
            },
            it.index() >= 1 ==> first == Some(s@[0]),
    {
        if count == 0 {
            first = Some(c);
        }
        if count < 2 {
            count = count + 1;
        }
    }
    if count == 1 {
        first
    } else {
        None
    }
}

fn grapheme_element(g: &String, config: &BufferConfig) -> (v: ViewChar)
    requires
        tab_ok(*config),
    ensures
        grapheme_viewchar(g@, *config, v),
        viewchar_ok(v),
{
    match single_char(g) {
        Some(c) => {
            if c == '\t' {
                assert(g@ =~= seq!['\t']);
                let mut t = expand_tab(config);
                let e = t.pop().unwrap();
                return e;
            } else if c == '\n' {
                assert(g@ =~= seq!['\n']);
                let mut t = expand_newline(config);
                let e = t.pop().unwrap();
                return e;
            } else if (c as u32) < 32 || (c as u32) == 127 {
                let mut s = String::new();
                string_push(&mut s, c);
                assert(s@ =~= g@);
                return ViewChar::Control(s, 1);
            }
        },
        None => {},
    }
    ViewChar::Grapheme(g.clone(), 1)
}

/// The rendered elements of a string: one for each of its graphemes.
pub fn string_to_elements(s: &String, config: &BufferConfig) -> (v: ViewCharCollection)
    requires
        tab_ok(*config),
    ensures
        v.wf(),
        v@.len() == grapheme_split(s@).len(),
        forall|i: int|
            0 <= i < v@.len() ==> grapheme_viewchar(
                #[trigger] grapheme_split(s@)[i],
                *config,
                v.viewchars()[i],
            ),
        forall|i: int| 0 <= i < v@.len() ==> (#[trigger] grapheme_split(s@)[i]).len() > 0,
        s@.len() > 0 ==> v@.len() > 0,
{
    let gs = graphemes(s.as_str());
    proof {
        if gs@.len() == 0 {
            assert(gs@.map_values(|g: String| g@) =~= Seq::<Seq<char>>::empty());
        }
        assert forall|i: int| 0 <= i < gs@.len() implies (#[trigger] grapheme_split(s@)[i]).len() > 0 by {
            assert(grapheme_split(s@)[i] == gs@[i]@);
        }
    }
    let mut v = ViewCharCollection::default();
    let mut i: usize = 0;
    while i < gs.len()
        invariant
            tab_ok(*config),
            v.wf(),
            i <= gs@.len(),
            gs@.map_values(|g: String| g@) == grapheme_split(s@),
            v@.len() == i,
            forall|j: int|
                0 <= j < i ==> grapheme_viewchar(
                    #[trigger] grapheme_split(s@)[j],
                    *config,
                    v.viewchars()[j],
                ),
        decreases gs@.len() - i,
    {
        let e = grapheme_element(&gs[i], config);
        let ghost before = v.viewchars();
        v.push(e);
        proof {
            assert(grapheme_split(s@)[i as int] == gs@[i as int]@);
            assert forall|j: int| 0 <= j < i + 1 implies grapheme_viewchar(
                #[trigger] grapheme_split(s@)[j],
                *config,
                v.viewchars()[j],
            ) by {
                if j < i {
                    assert(v.viewchars()[j] == before[j]);
                }
            }
        }
        i = i + 1;
    }
    v
}

/// The drawn cells of one grapheme, all highlighted when `highlight` is set.
pub fn grapheme_to_format_item(ch: &str, config: &BufferConfig, highlight: bool) -> (v: Vec<
    FormatItem,
>)
    requires
        tab_ok(*config),
    ensures
        v@.len() == grapheme_split(ch@).len(),
        forall|i: int|
            0 <= i < v@.len() ==> {
                &&& exists|e: ViewChar|
                    grapheme_viewchar(grapheme_split(ch@)[i], *config, e)
                        && (#[trigger] v@[i]).s@ == viewchar_text(e) && v@[i].format == if highlight {
                        LineFormatType::Highlight
                    } else {
                        viewchar_format(e)
                    }
                &&& v@[i].unicode_width == display_width(v@[i].s@)
            },
        forall|i: int| 0 <= i < v@.len() ==> (#[trigger] grapheme_split(ch@)[i]).len() > 0,
        ch@.len() > 0 ==> v@.len() > 0,
{
    let s = ch.to_owned();
    let elements = string_to_elements(&s, config);
    let mut out: Vec<FormatItem> = Vec::new();
    let mut i: usize = 0;
    while i < elements.elements.len()
        invariant
            elements.wf(),
            s@ == ch@,
            forall|j: int| 0 <= j < elements@.len() ==> (#[trigger] grapheme_split(ch@)[j]).len() > 0,
            elements@.len() == grapheme_split(ch@).len(),
            forall|j: int|
                0 <= j < elements@.len() ==> grapheme_viewchar(
                    #[trigger] grapheme_split(ch@)[j],
                    *config,
                    elements.viewchars()[j],
                ),
            i <= elements@.len(),
            out@.len() == i,
            forall|j: int|
                0 <= j < i ==> {
                    &&& exists|e: ViewChar|
                        grapheme_viewchar(grapheme_split(ch@)[j], *config, e)
                            && (#[trigger] out@[j]).s@ == viewchar_text(e) && out@[j].format
                            == if highlight {
                            LineFormatType::Highlight
                        } else {
                            viewchar_format(e)
                        }
                    &&& out@[j].unicode_width == display_width(out@[j].s@)
                },
        decreases elements@.len() - i,
    {
        let mut f = elements.elements[i].to_format_item();
        if highlight {
            f.format = LineFormatType::Highlight;
        }
        proof {
            let e = elements.viewchars()[i as int];
            assert(grapheme_viewchar(grapheme_split(ch@)[i as int], *config, e));
        }
        out.push(f);
        i = i + 1;
    }
    out
}

} // verus!
