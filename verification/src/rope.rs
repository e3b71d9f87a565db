use ropey::Rope;
use vstd::prelude::*;

verus! {

// ---------------------------------------------------------------------------
// Lines of a sequence of characters, as ropey counts them: a line ends after
// LF, VT, FF, CR, NEL, LS or PS, and CR LF ends one line.
// ---------------------------------------------------------------------------

pub open spec fn is_line_break(c: char) -> bool {
    c == '\n' || c == '\u{0B}' || c == '\u{0C}' || c == '\r' || c == '\u{85}' || c == '\u{2028}'
        || c == '\u{2029}'
}

/// A line ends right after character `i`.
pub open spec fn ends_line(s: Seq<char>, i: int) -> bool {
    &&& 0 <= i < s.len()
    &&& is_line_break(s[i])
    &&& !(s[i] == '\r' && i + 1 < s.len() && s[i + 1] == '\n')
}

/// The number of line ends before position `c`.
pub open spec fn breaks_before(s: Seq<char>, c: int) -> nat
    decreases c,
{
    if c <= 0 {
        0
    } else {
        breaks_before(s, c - 1) + if ends_line(s, c - 1) {
            1nat
        } else {
            0nat
        }
    }
}

/// The number of lines: one more than the number of line ends.
pub open spec fn line_count(s: Seq<char>) -> nat {
    breaks_before(s, s.len() as int) + 1
}

/// Position `p` starts a line: it is the start of the text or follows a line end.
pub open spec fn is_line_start(s: Seq<char>, p: int) -> bool {
    p == 0 || (0 < p <= s.len() && ends_line(s, p - 1))
}

/// The position where line `l` starts; one past the end for `l == line_count(s)`.
pub open spec fn line_start(s: Seq<char>, l: int) -> int {
    if l <= 0 {
        0
    } else if l >= line_count(s) {
        s.len() as int
    } else {
        choose|p: int| is_line_start(s, p) && breaks_before(s, p) == l
    }
}

/// The last line start at or before `c`.
pub open spec fn last_start(s: Seq<char>, c: int) -> int
    decreases c,
{
    if c <= 0 {
        0
    } else if ends_line(s, c - 1) {
        c
    } else {
        last_start(s, c - 1)
    }
}

pub proof fn lemma_breaks_monotone(s: Seq<char>, a: int, b: int)
    requires
        a <= b,
    ensures
        breaks_before(s, a) <= breaks_before(s, b),
    decreases b - a,
{
    if a < b {
        lemma_breaks_monotone(s, a, b - 1);
    }
}

/// There are no more line ends before `c` than characters.
pub proof fn lemma_breaks_bounded(s: Seq<char>, c: int)
    ensures
        breaks_before(s, c) <= if c < 0 {
            0
        } else {
            c
        },
    decreases c,
{
    if c > 0 {
        lemma_breaks_bounded(s, c - 1);
    }
}

/// Between a line start and the end of its line, no line ends.
proof fn lemma_last_start(s: Seq<char>, c: int)
    requires
        0 <= c <= s.len(),
    ensures
        0 <= last_start(s, c) <= c,
        is_line_start(s, last_start(s, c)),
        breaks_before(s, last_start(s, c)) == breaks_before(s, c),
        forall|i: int| last_start(s, c) <= i < c ==> !ends_line(s, i),
    decreases c,
{
    if c > 0 && !ends_line(s, c - 1) {
        lemma_last_start(s, c - 1);
    }
}

/// Two line starts with the same number of line ends before them are the same position.
proof fn lemma_line_start_unique(s: Seq<char>, p: int, q: int)
    requires
        is_line_start(s, p),
        is_line_start(s, q),
        breaks_before(s, p) == breaks_before(s, q),
    ensures
        p == q,
{
    if p < q {
        lemma_breaks_monotone(s, p, q - 1);
        assert(breaks_before(s, q) == breaks_before(s, q - 1) + 1);
    } else if q < p {
        lemma_breaks_monotone(s, q, p - 1);
        assert(breaks_before(s, p) == breaks_before(s, p - 1) + 1);
    }
}

/// Every line number below `breaks_before(s, c)` has a line start at or before `c`.
proof fn lemma_line_start_exists(s: Seq<char>, c: int, l: int)
    requires
        0 <= c <= s.len(),
        0 <= l <= breaks_before(s, c),
    ensures
        exists|p: int| 0 <= p <= c && is_line_start(s, p) && breaks_before(s, p) == l,
    decreases c,
{
    if c == 0 {
        assert(is_line_start(s, 0) && breaks_before(s, 0) == l);
    } else if l <= breaks_before(s, c - 1) {
        lemma_line_start_exists(s, c - 1, l);
        let p = choose|p: int| 0 <= p <= c - 1 && is_line_start(s, p) && breaks_before(s, p) == l;
        assert(0 <= p <= c && is_line_start(s, p) && breaks_before(s, p) == l);
    } else {
        assert(ends_line(s, c - 1));
        assert(is_line_start(s, c) && breaks_before(s, c) == l);
    }
}

/// What `line_start` gives: a line start with `l` line ends before it, in range.
pub proof fn lemma_line_start(s: Seq<char>, l: int)
    requires
        0 <= l < line_count(s),
    ensures
        0 <= line_start(s, l) <= s.len(),
        is_line_start(s, line_start(s, l)),
        breaks_before(s, line_start(s, l)) == l,
{
    if l > 0 {
        lemma_line_start_exists(s, s.len() as int, l);
        let p = choose|p: int| 0 <= p <= s.len() && is_line_start(s, p) && breaks_before(s, p) == l;
        assert(is_line_start(s, p) && breaks_before(s, p) == l);
        let q = line_start(s, l);
        assert(is_line_start(s, q) && breaks_before(s, q) == l);
        lemma_line_start_unique(s, p, q);
    }
}

/// The line of position `c` starts at or before `c`, and the next line starts after `c`
/// (or at the end of the text, for the last line).
pub proof fn lemma_line_of(s: Seq<char>, c: int)
    requires
        0 <= c <= s.len(),
    ensures
        breaks_before(s, c) < line_count(s),
        line_start(s, breaks_before(s, c) as int) == last_start(s, c),
        line_start(s, breaks_before(s, c) as int) <= c,
        c <= line_start(s, breaks_before(s, c) as int + 1),
        c < s.len() ==> c < line_start(s, breaks_before(s, c) as int + 1),
        line_start(s, breaks_before(s, c) as int + 1) <= s.len(),
        forall|i: int|
            line_start(s, breaks_before(s, c) as int) <= i < line_start(
                s,
                breaks_before(s, c) as int + 1,
            ) - 1 ==> !ends_line(s, i),
{
    let l = breaks_before(s, c) as int;
    lemma_breaks_monotone(s, c, s.len() as int);
    lemma_last_start(s, c);
    lemma_line_start(s, l);
    lemma_line_start_unique(s, last_start(s, c), line_start(s, l));
    if l + 1 < line_count(s) {
        lemma_line_start(s, l + 1);
        let n = line_start(s, l + 1);
        if n <= c {
            lemma_breaks_monotone(s, n, c);
        }
        lemma_breaks_monotone(s, last_start(s, c), n - 1);
        assert(breaks_before(s, n) == breaks_before(s, n - 1) + 1);
        lemma_no_breaks_between(s, c, n - 1);
    } else {
        lemma_no_breaks_to_end(s, c);
    }
}

proof fn lemma_no_breaks_between(s: Seq<char>, c: int, e: int)
    requires
        0 <= c <= e <= s.len(),
        breaks_before(s, e) == breaks_before(s, c),
    ensures
        forall|i: int| c <= i < e ==> !ends_line(s, i),
    decreases e - c,
{
    if c < e {
        lemma_breaks_monotone(s, c, e - 1);
        lemma_no_breaks_between(s, c, e - 1);
    }
}

proof fn lemma_no_breaks_to_end(s: Seq<char>, c: int)
    requires
        0 <= c <= s.len(),
        breaks_before(s, c) + 1 == line_count(s),
    ensures
        forall|i: int| c <= i < s.len() ==> !ends_line(s, i),
{
    lemma_no_breaks_between(s, c, s.len() as int);
}

/// Line starts lie inside the text.
pub proof fn lemma_line_start_bounded(s: Seq<char>, l: int)
    requires
        0 <= l <= line_count(s),
    ensures
        0 <= line_start(s, l) <= s.len(),
{
    if l < line_count(s) {
        lemma_line_start(s, l);
    }
}

/// Line starts grow with the line number.
pub proof fn lemma_line_start_monotone(s: Seq<char>, a: int, b: int)
    requires
        0 <= a <= b <= line_count(s),
    ensures
        line_start(s, a) <= line_start(s, b),
        b < line_count(s) && a < b ==> line_start(s, a) < line_start(s, b),
{
    if a < b {
        if b < line_count(s) {
            lemma_line_start(s, a);
            lemma_line_start(s, b);
            let p = line_start(s, a);
            let q = line_start(s, b);
            if q <= p {
                lemma_breaks_monotone(s, q, p);
            }
        } else if a < line_count(s) {
            lemma_line_start(s, a);
        }
    }
}

// ---------------------------------------------------------------------------
// Trusted items for ropey::Rope
// ---------------------------------------------------------------------------

#[verifier::external_type_specification]
#[verifier::external_body]
pub struct ExRope(Rope);

/// The characters that a rope holds, in order.
pub uninterp spec fn rope_chars(r: Rope) -> Seq<char>;

/// `Rope::from_str`: a rope holding the characters of `s`.
#[verifier::external_body]
pub(crate) fn rope_from_str(s: &str) -> (r: Rope)
    ensures
        rope_chars(r) == s@,
{
    Rope::from_str(s)
}

/// `Rope::clone`: a rope holding the same characters.
#[verifier::external_body]
pub(crate) fn rope_clone(r: &Rope) -> (c: Rope)
    ensures
        rope_chars(c) == rope_chars(*r),
{
    r.clone()
}

/// `Rope::len_chars`: the number of characters.
#[verifier::external_body]
pub(crate) fn rope_len_chars(r: &Rope) -> (n: usize)
    ensures
        n == rope_chars(*r).len(),
{
    r.len_chars()
}

/// `Rope::char`: the character at `i` (it panics past the end).
#[verifier::external_body]
pub(crate) fn rope_char(r: &Rope, i: usize) -> (c: char)
    requires
        i < rope_chars(*r).len(),
    ensures
        c == rope_chars(*r)[i as int],
{
    r.char(i)
}

/// `Rope::len_lines`: one more than the number of line ends.
#[verifier::external_body]
pub(crate) fn rope_len_lines(r: &Rope) -> (n: usize)
    ensures
        n == line_count(rope_chars(*r)),
{
    r.len_lines()
}

/// `Rope::char_to_line`: the number of line ends before `c` (it panics past the end).
#[verifier::external_body]
pub(crate) fn rope_char_to_line(r: &Rope, c: usize) -> (l: usize)
    requires
        c <= rope_chars(*r).len(),
    ensures
        l == breaks_before(rope_chars(*r), c as int),
{
    r.char_to_line(c)
}

/// `Rope::line_to_char`: where line `l` starts; one past the end for the line after the
/// last (it panics beyond that).
#[verifier::external_body]
pub(crate) fn rope_line_to_char(r: &Rope, l: usize) -> (c: usize)
    requires
        l <= line_count(rope_chars(*r)),
    ensures
        c == line_start(rope_chars(*r), l as int),
{
    r.line_to_char(l)
}

/// `Rope::line(l).to_string()`: the characters of line `l`, its line end included (it
/// panics for lines past the last).
#[verifier::external_body]
pub(crate) fn rope_line_string(r: &Rope, l: usize) -> (s: String)
    requires
        l < line_count(rope_chars(*r)),
    ensures
        s@ == rope_chars(*r).subrange(
            line_start(rope_chars(*r), l as int),
            line_start(rope_chars(*r), l + 1),
        ),
{
    r.line(l).to_string()
}

/// `Rope::slice(a..b).to_string()`: the characters from `a` up to `b` (it panics for a range
/// that is reversed or past the end).
#[verifier::external_body]
pub(crate) fn rope_slice_string(r: &Rope, a: usize, b: usize) -> (s: String)
    requires
        a <= b <= rope_chars(*r).len(),
    ensures
        s@ == rope_chars(*r).subrange(a as int, b as int),
{
    r.slice(a..b).to_string()
}

/// `Rope::insert_char`: puts `ch` at position `c` (it panics past the end).
#[verifier::external_body]
pub(crate) fn rope_insert_char(r: &mut Rope, c: usize, ch: char)
    requires
        c <= rope_chars(*old(r)).len(),
    ensures
        rope_chars(*final(r)) == rope_chars(*old(r)).insert(c as int, ch),
{
    r.insert_char(c, ch)
}

/// `Rope::insert`: puts the characters of `s` at position `c` (it panics past the end).
#[verifier::external_body]
pub(crate) fn rope_insert(r: &mut Rope, c: usize, s: &str)
    requires
        c <= rope_chars(*old(r)).len(),
    ensures
        rope_chars(*final(r)) == rope_chars(*old(r)).subrange(0, c as int) + s@ + rope_chars(
            *old(r),
        ).subrange(c as int, rope_chars(*old(r)).len() as int),
{
    r.insert(c, s)
}

/// `Rope::append`: puts the characters of `other` at the end.
#[verifier::external_body]
pub(crate) fn rope_append(r: &mut Rope, other: Rope)
    ensures
        rope_chars(*final(r)) == rope_chars(*old(r)) + rope_chars(other),
{
    r.append(other)
}

/// `Rope::remove(a..b)`: takes out the characters from `a` up to `b` (it panics for a range
/// that is reversed or past the end).
#[verifier::external_body]
pub(crate) fn rope_remove(r: &mut Rope, a: usize, b: usize)
    requires
        a <= b <= rope_chars(*old(r)).len(),
    ensures
        rope_chars(*final(r)) == rope_chars(*old(r)).subrange(0, a as int) + rope_chars(
            *old(r),
        ).subrange(b as int, rope_chars(*old(r)).len() as int),
{
    r.remove(a..b)
}

} // verus!

verus! {

/// The text is small enough that positions, byte counts of its lines and a row width added
/// to them fit in a `usize`.
pub open spec fn text_fits(s: Seq<char>) -> bool {
    4 * s.len() + 262144 <= usize::MAX
}

} // verus!
