use ropey::Rope;
use vstd::prelude::*;

use crate::rope::{rope_char, rope_chars, rope_len_chars};

verus! {

/// The needle stands in `text` at position `i`.
pub open spec fn occurs_at(needle: Seq<char>, text: Seq<char>, i: int) -> bool {
    &&& 0 <= i
    &&& i + needle.len() <= text.len()
    &&& text.subrange(i, i + needle.len()) == needle
}

/// The leftmost non-overlapping places of `needle` in `text` from `p` on, each ending by
/// `to`: the first place where it stands, then the places from the end of that one on.
pub open spec fn occurrences(needle: Seq<char>, text: Seq<char>, p: int, to: int) -> Seq<(nat, nat)>
    decreases to - p,
{
    if needle.len() == 0 || p < 0 || p + needle.len() > to {
        seq![]
    } else if occurs_at(needle, text, p) {
        seq![(p as nat, (p + needle.len()) as nat)] + occurrences(needle, text, p + needle.len(), to)
    } else {
        occurrences(needle, text, p + 1, to)
    }
}

/// The matches that a search of `text` for `needle` between `from` and `to` reports: the
/// leftmost non-overlapping places of the needle there.
pub open spec fn search_spec(needle: Seq<char>, text: Seq<char>, from: nat, to: nat) -> Seq<
    (nat, nat),
> {
    occurrences(needle, text, from as int, to as int)
}

/// Whether `needle` stands in the text at `c` (where it fits before `end`).
fn matches_at(text: &Rope, needle: &Vec<char>, c: usize, end: usize) -> (b: bool)
    requires
        end <= rope_chars(*text).len(),
        c <= end,
        needle@.len() <= end - c,
    ensures
        b == occurs_at(needle@, rope_chars(*text), c as int),
{
    let ghost t = rope_chars(*text);
    let m = needle.len();
    let mut k: usize = 0;
    while k < m
        invariant
            k <= m,
            m == needle@.len(),
            c + m <= end,
            end <= t.len(),
            t == rope_chars(*text),
            t.subrange(c as int, c + k) == needle@.take(k as int),
        decreases m - k,
    {
        if rope_char(text, c + k) != needle[k] {
            proof {
                assert(t.subrange(c as int, c + m)[k as int] == t[c + k]);
            }
            return false;
        }
        proof {
            assert(t.subrange(c as int, c + k + 1) =~= t.subrange(c as int, c + k).push(t[c + k]));
            assert(needle@.take(k + 1) =~= needle@.take(k as int).push(needle@[k as int]));
        }
        k = k + 1;
    }
    assert(needle@.take(m as int) =~= needle@);
    true
}

/// A range of characters `[start, end)`.
#[derive(Debug, PartialEq, Eq, Structural, Clone, Copy)]
pub struct Substring(pub usize, pub usize);

impl Substring {
    pub fn start(&self) -> (s: usize)
        ensures
            s == self.0,
    {
        self.0
    }

    pub fn end(&self) -> (e: usize)
        ensures
            e == self.1,
    {
        self.1
    }
}

/// The ranges of a list of matches.
pub open spec fn ranges_view(v: Seq<Substring>) -> Seq<(nat, nat)> {
    v.map_values(|s: Substring| (s.0 as nat, s.1 as nat))
}

/// Searches the whole text for `s`.
pub fn search(text: &Rope, s: &str) -> (out: Vec<Substring>)
    requires
        s@.len() > 0,
    ensures
        ranges_view(out@) == search_spec(s@, rope_chars(*text), 0, rope_chars(*text).len()),
{
    let c: usize = 0;
    let end = rope_len_chars(text);
    search_range(text, s, c, end)
}

/// Searches the text from `start` up to `end` for `s`.
pub fn search_range(text: &Rope, s: &str, start: usize, end: usize) -> (out: Vec<Substring>)
    requires
        s@.len() > 0,
        end <= rope_chars(*text).len(),
    ensures
        ranges_view(out@) == search_spec(s@, rope_chars(*text), start as nat, end as nat),
{
    let ghost t = rope_chars(*text);
    let mut needle: Vec<char> = Vec::new();
    for ch in it: s.chars()
        invariant
            it.seq() == s@,
            needle@ == s@.take(it.index() as int),
    {
        let ghost k = it.index();
        needle.push(ch);
        assert(needle@ =~= s@.take(k + 1));
    }
    assert(needle@ =~= s@);
    let m = needle.len();
    let mut out: Vec<Substring> = Vec::new();
    let mut c = start;
    while c <= end && end - c >= m
        invariant
            m == s@.len(),
            m > 0,
            needle@ == s@,
            end <= t.len(),
            t == rope_chars(*text),
            c >= start,
            search_spec(s@, t, start as nat, end as nat) == ranges_view(out@) + occurrences(
                s@,
                t,
                c as int,
                end as int,
            ),
        decreases end - c,
    {
        let ghost before = out@;
        if matches_at(text, &needle, c, end) {
            out.push(Substring(c, c + m));
            proof {
                assert(ranges_view(out@) =~= ranges_view(before).push((c as nat, (c + m) as nat)));
                assert(ranges_view(out@) + occurrences(s@, t, c + m, end as int) =~= ranges_view(before)
                    + occurrences(s@, t, c as int, end as int));
            }
            c = c + m;
        } else {
            c = c + 1;
        }
    }
    assert(occurrences(s@, t, c as int, end as int) =~= Seq::<(nat, nat)>::empty());
    assert(ranges_view(out@) + Seq::<(nat, nat)>::empty() =~= ranges_view(out@));
    out
}

/// The matches of a search, for stepping from one to the next.
#[derive(Debug, Clone)]
pub struct SearchResults {
    results: Vec<Substring>,
}

impl View for SearchResults {
    type V = Seq<Substring>;

    closed spec fn view(&self) -> Seq<Substring> {
        self.results@
    }
}

/// The last match that starts before `c`.
pub open spec fn prev_match(results: Seq<Substring>, c: usize) -> Option<Substring> {
    if exists|i: int| 0 <= i < results.len() && results[i].0 < c {
        let i = choose|i: int|
            0 <= i < results.len() && results[i].0 < c && forall|j: int|
                i < j < results.len() ==> results[j].0 >= c;
        Some(results[i])
    } else {
        None
    }
}

/// The first match that starts after `c`.
pub open spec fn next_match(results: Seq<Substring>, c: usize) -> Option<Substring> {
    if exists|i: int| 0 <= i < results.len() && results[i].0 > c {
        let i = choose|i: int|
            0 <= i < results.len() && results[i].0 > c && forall|j: int|
                0 <= j < i ==> results[j].0 <= c;
        Some(results[i])
    } else {
        None
    }
}

impl Default for SearchResults {
    fn default() -> (r: Self)
        ensures
            r@ == Seq::<Substring>::empty(),
    {
        Self { results: Vec::new() }
    }
}

impl SearchResults {
    fn new(results: Vec<Substring>) -> (r: Self)
        ensures
            r@ == results@,
    {
        Self { results }
    }

    /// The matches of `s` in the whole text.
    pub fn new_search(text: &Rope, s: &str) -> (r: Self)
        requires
            s@.len() > 0,
        ensures
            ranges_view(r@) == search_spec(s@, rope_chars(*text), 0, rope_chars(*text).len()),
    {
        let results = search(text, s);
        Self { results }
    }

    /// The last match that starts before `c`.
    pub fn prev_from_position(&self, c: usize) -> (r: Option<Substring>)
        ensures
            r == prev_match(self@, c),
    {
        let mut i = self.results.len();
        while i > 0
            invariant
                i <= self.results@.len(),
                forall|j: int| i <= j < self.results@.len() ==> self.results@[j].0 >= c,
            decreases i,
        {
            if self.results[i - 1].0 < c {
                let ghost k = i - 1;
                assert(0 <= k < self.results@.len() && self.results@[k].0 < c);
                let ghost w = choose|w: int|
                    0 <= w < self.results@.len() && self.results@[w].0 < c && forall|j: int|
                        w < j < self.results@.len() ==> self.results@[j].0 >= c;
                assert(w == k) by {
                    if w < k {
                    } else if w > k {
                    }
                }
                return Some(self.results[i - 1]);
            }
            i = i - 1;
        }
        None
    }

    /// The first match that starts after `c`.
    pub fn next_from_position(&self, c: usize) -> (r: Option<Substring>)
        ensures
            r == next_match(self@, c),
    {
        let mut i: usize = 0;
        while i < self.results.len()
            invariant
                i <= self.results@.len(),
                forall|j: int| 0 <= j < i ==> self.results@[j].0 <= c,
            decreases self.results@.len() - i,
        {
            if self.results[i].0 > c {
                let ghost k = i as int;
                assert(0 <= k < self.results@.len() && self.results@[k].0 > c);
                let ghost w = choose|w: int|
                    0 <= w < self.results@.len() && self.results@[w].0 > c && forall|j: int|
                        0 <= j < w ==> self.results@[j].0 <= c;
                assert(w == k) by {
                    if w < k {
                    } else if w > k {
                    }
                }
                return Some(self.results[i]);
            }
            i = i + 1;
        }
        None
    }
}

/// Every match a search reports is a place where the text holds the needle, inside the
/// searched range; the matches come in order and do not overlap.
pub proof fn lemma_search_finds_needle(needle: Seq<char>, text: Seq<char>, from: nat, to: nat)
    requires
        to <= text.len(),
    ensures
        forall|i: int|
            0 <= i < search_spec(needle, text, from, to).len() ==> {
                let m = #[trigger] search_spec(needle, text, from, to)[i];
                &&& from <= m.0
                &&& m.1 == m.0 + needle.len()
                &&& m.1 <= to
                &&& occurs_at(needle, text, m.0 as int)
            },
        forall|i: int, j: int|
            0 <= i < j < search_spec(needle, text, from, to).len() ==> #[trigger] search_spec(
                needle,
                text,
                from,
                to,
            )[i].1 <= #[trigger] search_spec(needle, text, from, to)[j].0,
{
    lemma_occurrences(needle, text, from as int, to as int);
}

proof fn lemma_occurrences(needle: Seq<char>, text: Seq<char>, p: int, to: int)
    requires
        to <= text.len(),
        p >= 0,
    ensures
        forall|i: int|
            0 <= i < occurrences(needle, text, p, to).len() ==> {
                let m = #[trigger] occurrences(needle, text, p, to)[i];
                &&& p <= m.0
                &&& m.1 == m.0 + needle.len()
                &&& m.1 <= to
                &&& occurs_at(needle, text, m.0 as int)
            },
        forall|i: int, j: int|
            0 <= i < j < occurrences(needle, text, p, to).len() ==> #[trigger] occurrences(
                needle,
                text,
                p,
                to,
            )[i].1 <= #[trigger] occurrences(needle, text, p, to)[j].0,
    decreases to - p,
{
    if needle.len() == 0 || p + needle.len() > to {
        assert(occurrences(needle, text, p, to).len() == 0);
    } else if occurs_at(needle, text, p) {
        let q = p + needle.len();
        lemma_occurrences(needle, text, q, to);
        let rest = occurrences(needle, text, q, to);
        let all = occurrences(needle, text, p, to);
        assert(all == seq![(p as nat, q as nat)] + rest);
        assert forall|i: int, j: int| 0 <= i < j < all.len() implies #[trigger] all[i].1 <= #[trigger] all[j].0 by {
            if i == 0 {
                assert(all[j] == rest[j - 1]);
            } else {
                assert(all[i] == rest[i - 1] && all[j] == rest[j - 1]);
            }
        }
        assert forall|i: int| 0 <= i < all.len() implies {
            let m = #[trigger] all[i];
            &&& p <= m.0
            &&& m.1 == m.0 + needle.len()
            &&& m.1 <= to
            &&& occurs_at(needle, text, m.0 as int)
        } by {
            if i > 0 {
                assert(all[i] == rest[i - 1]);
            }
        }
    } else {
        lemma_occurrences(needle, text, p + 1, to);
        assert(occurrences(needle, text, p, to) == occurrences(needle, text, p + 1, to));
    }
}

/// A search misses no place of the needle: any place where it stands, inside the range and
/// not covered by an earlier match, is reported.
pub proof fn lemma_search_complete(needle: Seq<char>, text: Seq<char>, from: nat, to: nat, k: int)
    requires
        to <= text.len(),
        needle.len() > 0,
        from <= k,
        k + needle.len() <= to,
        occurs_at(needle, text, k),
    ensures
        exists|i: int|
            0 <= i < search_spec(needle, text, from, to).len() && #[trigger] search_spec(
                needle,
                text,
                from,
                to,
            )[i].0 <= k < search_spec(needle, text, from, to)[i].1,
{
    lemma_complete(needle, text, from as int, to as int, k);
    let all = occurrences(needle, text, from as int, to as int);
    let i = choose|i: int| 0 <= i < all.len() && #[trigger] all[i].0 <= k < all[i].1;
    assert(search_spec(needle, text, from, to)[i] == all[i]);
}

proof fn lemma_complete(needle: Seq<char>, text: Seq<char>, p: int, to: int, k: int)
    requires
        to <= text.len(),
        needle.len() > 0,
        0 <= p <= k,
        k + needle.len() <= to,
        occurs_at(needle, text, k),
    ensures
        exists|i: int|
            0 <= i < occurrences(needle, text, p, to).len() && #[trigger] occurrences(
                needle,
                text,
                p,
                to,
            )[i].0 <= k < occurrences(needle, text, p, to)[i].1,
    decreases to - p,
{
    let all = occurrences(needle, text, p, to);
    if occurs_at(needle, text, p) {
        let q = p + needle.len();
        assert(all[0] == (p as nat, q as nat));
        if k < q {
            assert(all[0].0 <= k < all[0].1);
        } else {
            lemma_complete(needle, text, q, to, k);
            let rest = occurrences(needle, text, q, to);
            let i = choose|i: int| 0 <= i < rest.len() && #[trigger] rest[i].0 <= k < rest[i].1;
            assert(all[i + 1] == rest[i]);
        }
    } else {
        assert(p != k);
        lemma_complete(needle, text, p + 1, to, k);
        assert(all == occurrences(needle, text, p + 1, to));
    }
}

} // verus!
