use ropey::Rope;
use vstd::prelude::*;
use vstd::utf8::encode_utf8;

use crate::rope::{
    breaks_before, lemma_breaks_bounded, lemma_line_of, line_start, rope_char_to_line, rope_chars, rope_from_str,
    rope_insert_char, rope_len_chars, rope_len_lines, rope_line_to_char, rope_slice_string,
    text_fits, lemma_line_start, line_count,
};
use crate::strings::string_push;
use crate::text::bufferview::ViewCursor;
use crate::text::viewport::ViewPort;
use crate::text::viewspec::ViewSpec;
use crate::text::format::lemma_encode_utf8_len;

verus! {

/// One row of a wrapped line: the line's character range, the row's character range, the
/// cursor's offset in the row, which row of the line it is, and how many rows the line has.
#[derive(Debug, Copy, Clone, PartialEq, Eq, Structural)]
pub struct Wrap {
    pub lc0: usize,
    pub lc1: usize,
    pub c0: usize,
    pub c1: usize,
    pub offset: usize,
    pub wrap0: usize,
    pub wrap1: usize,
    pub line0: usize,
    pub line1: usize,
    pub wraps: usize,
    pub dirty: bool,
}

} // verus!

verus! {

/// A line with each tab written as four characters.
pub open spec fn translate_tabs(s: Seq<char>) -> Seq<char>
    decreases s.len(),
{
    if s.len() == 0 {
        seq![]
    } else {
        translate_tabs(s.drop_last()) + if s.last() == '\t' {
            seq!['.', '.', '.', '-']
        } else {
            seq![s.last()]
        }
    }
}

/// A string with each tab written as `...-`.
pub fn translate(s: &String) -> (r: String)
    ensures
        r@ == translate_tabs(s@),
{
    let mut r = String::new();
    for c in it: s.as_str().chars()
        invariant
            it.seq() == s@,
            r@ == translate_tabs(s@.take(it.index() as int)),
    {
        let ghost k = it.index();
        push_translated(&mut r, c);
        proof {
            let t = s@.take(k + 1);
            assert(t.drop_last() =~= s@.take(k as int));
        }
    }
    assert(s@.take(s@.len() as int) =~= s@);
    r
}

fn push_translated(r: &mut String, c: char)
    ensures
        final(r)@ == old(r)@ + if c == '\t' {
            seq!['.', '.', '.', '-']
        } else {
            seq![c]
        },
{
    if c == '\t' {
        string_push(r, '.');
        string_push(r, '.');
        string_push(r, '.');
        string_push(r, '-');
        assert(r@ =~= old(r)@ + seq!['.', '.', '.', '-']);
    } else {
        string_push(r, c);
        assert(r@ =~= old(r)@ + seq![c]);
    }
}

proof fn lemma_encode_utf8_concat(a: Seq<char>, b: Seq<char>)
    ensures
        encode_utf8(a + b).len() == encode_utf8(a).len() + encode_utf8(b).len(),
    decreases a.len(),
{
    if a.len() > 0 {
        lemma_encode_utf8_concat(a.drop_first(), b);
        assert((a + b).drop_first() =~= a.drop_first() + b);
    }
}

proof fn lemma_translate_bytes(s: Seq<char>)
    ensures
        encode_utf8(translate_tabs(s)).len() <= 4 * s.len(),
    decreases s.len(),
{
    if s.len() > 0 {
        lemma_translate_bytes(s.drop_last());
        let tail = if s.last() == '\t' {
            seq!['.', '.', '.', '-']
        } else {
            seq![s.last()]
        };
        lemma_encode_utf8_concat(translate_tabs(s.drop_last()), tail);
        lemma_encode_utf8_len(tail);
        if s.last() == '\t' {
            reveal_with_fuel(encode_utf8, 5);
            assert(encode_utf8(tail).len() == 4);
        }
    }
}

/// The position that a wrap is made for: past the end it is the last character.
pub open spec fn wrap_pos(s: Seq<char>, c: int) -> int {
    if c >= s.len() && s.len() > 0 {
        s.len() - 1
    } else {
        c
    }
}

/// The row of width `sx` that holds position `c`: rows of a line are `sx` characters apart,
/// the line has one row more than its length in bytes (tabs written as four characters)
/// divided by `sx`, and its last row ends where the line ends.
pub open spec fn wrap_at(s: Seq<char>, sx: int, c: int) -> Wrap {
    let p = wrap_pos(s, c);
    let line = breaks_before(s, p) as int;
    let lc0 = line_start(s, line);
    let lc1 = line_start(s, line + 1);
    let wrap0 = (p - lc0) / sx;
    let c0 = lc0 + wrap0 * sx;
    let wraps = encode_utf8(translate_tabs(s.subrange(lc0, lc1))).len() as int / sx + 1;
    let last = wrap0 + 1 == wraps;
    Wrap {
        lc0: lc0 as usize,
        lc1: lc1 as usize,
        c0: c0 as usize,
        c1: (if last {
            lc1
        } else {
            c0 + sx
        }) as usize,
        offset: (p - c0) as usize,
        wrap0: wrap0 as usize,
        wrap1: (if last {
            0
        } else {
            wrap0 + 1
        }) as usize,
        line0: line as usize,
        line1: (line + 1) as usize,
        wraps: wraps as usize,
        dirty: true,
    }
}

/// A position the text can make a wrap for.
pub open spec fn wrap_arg_ok(s: Seq<char>, c: int) -> bool {
    0 <= c && (c <= s.len() || s.len() > 0)
}

/// A rope that can be edited and cut into rows.
#[derive(Debug)]
pub struct SmartBuffer<'a> {
    text: Rope,
    path: &'a str,
    dirty: bool,
    tab_size: usize,
}

impl<'a> SmartBuffer<'a> {
    /// The characters of the text.
    pub closed spec fn chars(&self) -> Seq<char> {
        rope_chars(self.text)
    }

    pub closed spec fn spec_path(&self) -> Seq<char> {
        self.path@
    }

    pub closed spec fn spec_dirty(&self) -> bool {
        self.dirty
    }

    pub closed spec fn spec_tab_size(&self) -> usize {
        self.tab_size
    }

    pub fn new(text: Rope, path: &'a str) -> (b: Self)
        ensures
            b.chars() == rope_chars(text),
            b.spec_path() == path@,
            !b.spec_dirty(),
            b.spec_tab_size() == 4,
    {
        Self { text: text, path: path, dirty: false, tab_size: 4 }
    }

    /// A buffer holding the characters of `s`, with no path.
    pub fn from_str(s: &str) -> (b: Self)
        ensures
            b.chars() == s@,
            b.spec_path().len() == 0,
            !b.spec_dirty(),
    {
        let text = rope_from_str(s);
        proof {
            reveal_strlit("");
        }
        Self::new(text, "")
    }

    /// Puts `ch` at position `c`.
    pub fn insert_char(&mut self, c: usize, ch: char)
        requires
            c <= old(self).chars().len(),
        ensures
            final(self).chars() == old(self).chars().insert(c as int, ch),
            final(self).spec_dirty(),
            final(self).spec_path() == old(self).spec_path(),
            final(self).spec_tab_size() == old(self).spec_tab_size(),
    {
        self.dirty = true;
        rope_insert_char(&mut self.text, c, ch);
    }

    /// The characters from `start` up to `end`, with tabs written as `...-` when asked.
    pub fn to_string(&self, start: usize, end: usize, translate_tab: bool) -> (s: String)
        requires
            start <= end <= self.chars().len(),
        ensures
            s@ == if translate_tab {
                translate_tabs(self.chars().subrange(start as int, end as int))
            } else {
                self.chars().subrange(start as int, end as int)
            },
    {
        let s = rope_slice_string(&self.text, start, end);
        if translate_tab {
            translate(&s)
        } else {
            s
        }
    }

    /// The row of width `sx` that holds position `c`.
    pub fn char_to_wrap(&self, sx: u16, c: usize) -> (w: Option<Wrap>)
        requires
            sx > 0,
            wrap_arg_ok(self.chars(), c as int),
            text_fits(self.chars()),
        ensures
            w == Some(wrap_at(self.chars(), sx as int, c as int)),
    {
        let vsx = sx as usize;
        let ghost s = self.chars();
        let len_chars = rope_len_chars(&self.text);
        let c = if c >= len_chars && len_chars > 0 {
            len_chars - 1
        } else {
            c
        };
        let line = rope_char_to_line(&self.text, c);
        proof {
            lemma_line_of(s, c as int);
            lemma_breaks_bounded(s, c as int);
        }
        let lc0 = rope_line_to_char(&self.text, line);
        let lc1 = rope_line_to_char(&self.text, line + 1);
        let raw = rope_slice_string(&self.text, lc0, lc1);
        let translated = translate(&raw);
        proof {
            lemma_translate_bytes(raw@);
        }
        let wrap0 = (c - lc0) / vsx;
        proof {
            assert(wrap0 * vsx <= c - lc0) by (nonlinear_arith)
                requires
                    wrap0 == (c - lc0) / (vsx as int),
                    vsx > 0,
                    c >= lc0,
            ;
        }
        let c0 = lc0 + wrap0 * vsx;
        let mut wrap1 = wrap0 + 1;
        let wraps = translated.as_str().len() / vsx + 1;
        let c1;
        if wrap1 == wraps {
            c1 = lc1;
            wrap1 = 0;
        } else {
            c1 = c0 + vsx;
        }
        Some(
            Wrap {
                lc0: lc0,
                lc1: lc1,
                c0: c0,
                c1: c1,
                offset: c - c0,
                wrap0: wrap0,
                wrap1: wrap1,
                line0: line,
                line1: line + 1,
                wraps: wraps,
                dirty: true,
            },
        )
    }
}

} // verus!

verus! {

/// `w` is a row that `char_to_wrap` makes, up to the cursor offset it carries.
pub open spec fn wrap_valid(s: Seq<char>, sx: int, w: Wrap) -> bool {
    exists|c: int| wrap_arg_ok(s, c) && (Wrap { offset: w.offset, ..wrap_at(s, sx, c) }) == w
}

/// Stepping back from row `w` does not overflow and asks for a position the text has.
pub open spec fn prev_wrap_ok(s: Seq<char>, sx: int, w: Wrap) -> bool {
    if w.wrap0 > 0 {
        w.lc0 + (w.wrap0 - 1) * sx <= usize::MAX && wrap_arg_ok(s, w.lc0 + (w.wrap0 - 1) * sx)
    } else if w.line0 > 0 {
        w.lc0 >= 1 && wrap_arg_ok(s, w.lc0 - 1)
    } else {
        true
    }
}

/// The row before `w`: the previous row of its line, or the last row of the previous line
/// (keeping the cursor offset), or none at the first row.
pub open spec fn prev_wrap_spec(s: Seq<char>, sx: int, w: Wrap) -> Option<Wrap> {
    if w.wrap0 > 0 {
        Some(wrap_at(s, sx, w.lc0 + (w.wrap0 - 1) * sx))
    } else if w.line0 > 0 {
        Some(Wrap { offset: w.offset, ..wrap_at(s, sx, w.lc0 - 1) })
    } else {
        None
    }
}

/// The row after `w`, or none when `w` ends the text.
pub open spec fn next_wrap_spec(s: Seq<char>, sx: int, w: Wrap) -> Option<Wrap> {
    if w.c1 >= s.len() {
        None
    } else {
        Some(wrap_at(s, sx, w.c1 as int))
    }
}

/// Up to `n` steps forward from `w`, stopping at the last row.
pub open spec fn steps_next(s: Seq<char>, sx: int, w: Wrap, n: nat) -> Wrap
    decreases n,
{
    if n == 0 {
        w
    } else {
        match next_wrap_spec(s, sx, w) {
            Some(x) => steps_next(s, sx, x, (n - 1) as nat),
            None => w,
        }
    }
}

/// Up to `n` steps back from `w`, stopping at the first row.
pub open spec fn steps_prev(s: Seq<char>, sx: int, w: Wrap, n: nat) -> Wrap
    decreases n,
{
    if n == 0 {
        w
    } else {
        match prev_wrap_spec(s, sx, w) {
            Some(x) => steps_prev(s, sx, x, (n - 1) as nat),
            None => w,
        }
    }
}

/// The row `dy` rows away from the row of position `c`, as far as the text goes.
pub open spec fn delta_wrap_spec(s: Seq<char>, sx: int, c: int, dy: int) -> Wrap {
    let w = wrap_at(s, sx, c);
    if dy > 0 {
        steps_next(s, sx, w, dy as nat)
    } else if dy < 0 {
        steps_prev(s, sx, w, (-dy) as nat)
    } else {
        w
    }
}

/// Facts about the row of a position.
proof fn lemma_wrap_at(s: Seq<char>, sx: int, c: int)
    requires
        sx > 0,
        wrap_arg_ok(s, c),
        text_fits(s),
    ensures
        ({
            let w = wrap_at(s, sx, c);
            &&& w.lc0 <= w.c0 <= wrap_pos(s, c) <= s.len()
            &&& w.lc0 <= w.lc1 <= s.len()
            &&& w.wrap0 * sx == w.c0 - w.lc0
            &&& w.line0 > 0 ==> w.lc0 >= 1
            &&& w.line0 < line_count(s)
            &&& w.lc0 == line_start(s, w.line0 as int)
            &&& w.lc1 == line_start(s, w.line0 + 1)
            &&& wrap_pos(s, c) < s.len() ==> wrap_pos(s, c) < w.lc1
        }),
{
    let p = wrap_pos(s, c);
    lemma_line_of(s, p);
    let line = breaks_before(s, p) as int;
    lemma_breaks_bounded(s, p);
    lemma_line_start(s, line);
    let lc0 = line_start(s, line);
    let wrap0 = (p - lc0) / sx;
    assert(0 <= wrap0 * sx <= p - lc0) by (nonlinear_arith)
        requires
            wrap0 == (p - lc0) / sx,
            sx > 0,
            p >= lc0,
    ;
    if line > 0 {
        assert(lc0 != 0) by {
            if lc0 == 0 {
                assert(breaks_before(s, 0) == 0);
            }
        }
    }
}

proof fn lemma_valid_prev(s: Seq<char>, sx: int, w: Wrap)
    requires
        sx > 0,
        sx <= u16::MAX,
        wrap_valid(s, sx, w),
        text_fits(s),
    ensures
        prev_wrap_ok(s, sx, w),
        prev_wrap_spec(s, sx, w) matches Some(x) ==> wrap_valid(s, sx, x),
{
    let c = choose|c: int| wrap_arg_ok(s, c) && (Wrap { offset: w.offset, ..wrap_at(s, sx, c) }) == w;
    lemma_wrap_at(s, sx, c);
    if w.wrap0 > 0 {
        let c2 = w.lc0 + (w.wrap0 - 1) * sx;
        assert(c2 == w.lc0 + w.wrap0 * sx - sx) by (nonlinear_arith)
            requires
                c2 == w.lc0 + (w.wrap0 - 1) * sx,
        ;
        assert(wrap_arg_ok(s, c2));
        assert((Wrap { offset: wrap_at(s, sx, c2).offset, ..wrap_at(s, sx, c2) }) == wrap_at(s, sx, c2));
    } else if w.line0 > 0 {
        let c2 = w.lc0 - 1;
        assert(wrap_arg_ok(s, c2));
        let x = Wrap { offset: w.offset, ..wrap_at(s, sx, c2) };
        assert((Wrap { offset: x.offset, ..wrap_at(s, sx, c2) }) == x);
    }
}

proof fn lemma_valid_next(s: Seq<char>, sx: int, w: Wrap)
    requires
        sx > 0,
        wrap_valid(s, sx, w),
        text_fits(s),
    ensures
        next_wrap_spec(s, sx, w) matches Some(x) ==> wrap_valid(s, sx, x),
{
    if w.c1 < s.len() {
        let c2 = w.c1 as int;
        assert(wrap_arg_ok(s, c2));
        assert((Wrap { offset: wrap_at(s, sx, c2).offset, ..wrap_at(s, sx, c2) }) == wrap_at(s, sx, c2));
    }
}

proof fn lemma_wrap_at_valid(s: Seq<char>, sx: int, c: int)
    requires
        wrap_arg_ok(s, c),
    ensures
        wrap_valid(s, sx, wrap_at(s, sx, c)),
{
    assert((Wrap { offset: wrap_at(s, sx, c).offset, ..wrap_at(s, sx, c) }) == wrap_at(s, sx, c));
}

impl<'a> SmartBuffer<'a> {
    /// The first row of line `line`, or none past the last line.
    pub fn line_to_wrap(&self, sx: u16, line: usize) -> (w: Option<Wrap>)
        requires
            sx > 0,
            text_fits(self.chars()),
        ensures
            w == if line >= line_count(self.chars()) {
                None
            } else {
                Some(wrap_at(self.chars(), sx as int, line_start(self.chars(), line as int)))
            },
    {
        let len_lines = rope_len_lines(&self.text);
        if line >= len_lines {
            None
        } else {
            let c = rope_line_to_char(&self.text, line);
            proof {
                lemma_line_start(self.chars(), line as int);
            }
            self.char_to_wrap(sx, c)
        }
    }

    /// The row before `w`.
    pub fn prev_wrap(&self, sx: u16, w: &Wrap) -> (r: Option<Wrap>)
        requires
            sx > 0,
            text_fits(self.chars()),
            prev_wrap_ok(self.chars(), sx as int, *w),
        ensures
            r == prev_wrap_spec(self.chars(), sx as int, *w),
    {
        if w.wrap0 > 0 {
            let c0 = w.lc0 + (w.wrap0 - 1) * sx as usize;
            self.char_to_wrap(sx, c0)
        } else if w.line0 > 0 {
            let offset = w.offset;
            let nw = self.char_to_wrap(sx, w.lc0 - 1);
            if let Some(mut w0) = nw {
                w0.offset = offset;
                Some(w0)
            } else {
                nw
            }
        } else {
            None
        }
    }

    /// The row after `w`.
    pub fn next_wrap(&self, sx: u16, w: &Wrap) -> (r: Option<Wrap>)
        requires
            sx > 0,
            text_fits(self.chars()),
        ensures
            r == next_wrap_spec(self.chars(), sx as int, *w),
    {
        let len_chars = rope_len_chars(&self.text);
        if w.c1 >= len_chars {
            None
        } else {
            self.char_to_wrap(sx, w.c1)
        }
    }

    /// The row `dy` rows away from the row of position `c`, as far as the text goes.
    pub fn delta_wrap(&self, sx: u16, c: usize, dy: i32) -> (w: Wrap)
        requires
            sx > 0,
            text_fits(self.chars()),
            wrap_arg_ok(self.chars(), c as int),
            dy > i32::MIN,
        ensures
            w == delta_wrap_spec(self.chars(), sx as int, c as int, dy as int),
            wrap_valid(self.chars(), sx as int, w),
    {
        let ghost s = self.chars();
        let start = c;
        let mut w = self.char_to_wrap(sx, start).unwrap();
        proof {
            lemma_wrap_at_valid(s, sx as int, c as int);
        }
        if dy > 0 {
            let mut count = dy;
            while count > 0
                invariant
                    sx > 0,
                    text_fits(s),
                    s == self.chars(),
                    0 <= count <= dy,
                    wrap_valid(s, sx as int, w),
                    steps_next(s, sx as int, w, count as nat) == steps_next(
                        s,
                        sx as int,
                        wrap_at(s, sx as int, c as int),
                        dy as nat,
                    ),
                ensures
                    wrap_valid(s, sx as int, w),
                    w == steps_next(s, sx as int, wrap_at(s, sx as int, c as int), dy as nat),
                decreases count,
            {
                proof {
                    lemma_valid_next(s, sx as int, w);
                }
                match self.next_wrap(sx, &w) {
                    Some(x) => {
                        w = x;
                        count -= 1;
                    },
                    _ => break,
                }
            }
        }
        if dy < 0 {
            let mut count = (-dy) as usize;
            while count > 0
                invariant
                    sx > 0,
                    text_fits(s),
                    s == self.chars(),
                    dy < 0,
                    0 <= count <= -dy,
                    wrap_valid(s, sx as int, w),
                    steps_prev(s, sx as int, w, count as nat) == steps_prev(
                        s,
                        sx as int,
                        wrap_at(s, sx as int, c as int),
                        (-dy) as nat,
                    ),
                ensures
                    wrap_valid(s, sx as int, w),
                    w == steps_prev(s, sx as int, wrap_at(s, sx as int, c as int), (-dy) as nat),
                decreases count,
            {
                proof {
                    lemma_valid_prev(s, sx as int, w);
                }
                match self.prev_wrap(sx, &w) {
                    Some(x) => {
                        w = x;
                        count -= 1;
                    },
                    _ => break,
                }
            }
        }
        w
    }

    /// The characters of row `w`, with tabs written as `...|` when asked.
    pub fn wrap_to_string(&self, w: &Wrap, translate_tab: bool) -> (s: String)
        requires
            w.c0 <= w.c1 <= self.chars().len(),
        ensures
            s@ == if translate_tab {
                bar_tabs(self.chars().subrange(w.c0 as int, w.c1 as int))
            } else {
                self.chars().subrange(w.c0 as int, w.c1 as int)
            },
    {
        let s = rope_slice_string(&self.text, w.c0, w.c1);
        if translate_tab {
            translate_bar(&s)
        } else {
            s
        }
    }
}

/// A line with each tab written as `...|`.
pub open spec fn bar_tabs(s: Seq<char>) -> Seq<char>
    decreases s.len(),
{
    if s.len() == 0 {
        seq![]
    } else {
        bar_tabs(s.drop_last()) + if s.last() == '\t' {
            seq!['.', '.', '.', '|']
        } else {
            seq![s.last()]
        }
    }
}

fn push_bar(r: &mut String, c: char)
    ensures
        final(r)@ == old(r)@ + if c == '\t' {
            seq!['.', '.', '.', '|']
        } else {
            seq![c]
        },
{
    if c == '\t' {
        string_push(r, '.');
        string_push(r, '.');
        string_push(r, '.');
        string_push(r, '|');
        assert(r@ =~= old(r)@ + seq!['.', '.', '.', '|']);
    } else {
        string_push(r, c);
        assert(r@ =~= old(r)@ + seq![c]);
    }
}

fn translate_bar(s: &String) -> (r: String)
    ensures
        r@ == bar_tabs(s@),
{
    let mut r = String::new();
    for c in it: s.as_str().chars()
        invariant
            it.seq() == s@,
            r@ == bar_tabs(s@.take(it.index() as int)),
    {
        let ghost k = it.index();
        push_bar(&mut r, c);
        proof {
            let t = s@.take(k + 1);
            assert(t.drop_last() =~= s@.take(k as int));
        }
    }
    assert(s@.take(s@.len() as int) =~= s@);
    r
}


/// Rows `dir * count`, `dir * (count + 1)`, ... away from the row of `c`, pushed after `out`
/// until `out` holds `size` rows or a step no longer moves past the row before it.
pub open spec fn grow_back(
    s: Seq<char>,
    sx: int,
    c: int,
    dir: int,
    count: int,
    prev_c0: int,
    out: Seq<Wrap>,
    size: nat,
) -> Seq<Wrap>
    decreases size - out.len(),
{
    if out.len() >= size {
        out
    } else {
        let w0 = delta_wrap_spec(s, sx, c, dir * count);
        if w0.c0 == prev_c0 {
            out
        } else {
            grow_back(s, sx, c, dir, count + 1, w0.c0 as int, out.push(w0), size)
        }
    }
}

/// As `grow_back`, with each row put in front of `out`.
pub open spec fn grow_front(
    s: Seq<char>,
    sx: int,
    c: int,
    dir: int,
    count: int,
    prev_c0: int,
    out: Seq<Wrap>,
    size: nat,
) -> Seq<Wrap>
    decreases size - out.len(),
{
    if out.len() >= size {
        out
    } else {
        let w0 = delta_wrap_spec(s, sx, c, dir * count);
        if w0.c0 == prev_c0 {
            out
        } else {
            grow_front(s, sx, c, dir, count + 1, w0.c0 as int, out.insert(0, w0), size)
        }
    }
}

/// Up to `size` consecutive rows around the row of `c`: first those after it (before it when
/// `reverse`), then those on the other side, in text order (reversed when `reverse`).
pub open spec fn wrap_window_spec(s: Seq<char>, sx: int, c: int, size: nat, reverse: bool) -> Seq<Wrap> {
    if size == 0 {
        seq![]
    } else {
        let w = wrap_at(s, sx, c);
        let r: int = if reverse {
            -1
        } else {
            1
        };
        let o1 = grow_back(s, sx, c, r, 1, w.c0 as int, seq![w], size);
        let o2 = grow_front(s, sx, c, -r, 1, w.c0 as int, o1, size);
        if reverse {
            o2.reverse()
        } else {
            o2
        }
    }
}

proof fn lemma_grow_back_len(
    s: Seq<char>,
    sx: int,
    c: int,
    dir: int,
    count: int,
    prev_c0: int,
    out: Seq<Wrap>,
    size: nat,
)
    ensures
        out.len() <= grow_back(s, sx, c, dir, count, prev_c0, out, size).len() <= if out.len()
            >= size {
            out.len()
        } else {
            size as nat
        },
    decreases size - out.len(),
{
    if out.len() < size {
        let w0 = delta_wrap_spec(s, sx, c, dir * count);
        if w0.c0 != prev_c0 {
            lemma_grow_back_len(s, sx, c, dir, count + 1, w0.c0 as int, out.push(w0), size);
        }
    }
}

/// The position that `line_move` goes to: column `x` of the line of `c`, counted from the
/// line's end when negative, kept inside the line.
pub open spec fn line_move_spec(s: Seq<char>, sx: int, c: int, x: int) -> int {
    let w = wrap_at(s, sx, c);
    let len = w.lc1 - w.lc0;
    let lc = if x < 0 {
        x + len
    } else {
        x
    };
    let lc = if lc < 0 || len == 0 {
        0
    } else if lc >= len {
        len - 1
    } else {
        lc
    };
    w.lc0 + lc
}

/// The line that `jump_to_line` goes to: counted from the last line when negative, and no
/// further than the last line.
pub open spec fn jump_line_spec(s: Seq<char>, line: int) -> int {
    let lines = line_count(s) - 1;
    if line < 0 {
        lines + line
    } else if line > lines {
        lines
    } else {
        line
    }
}

/// The position `c0 + dx`, kept inside the text and, when `constrain`, inside the line of
/// `c0`.
pub open spec fn move_x_target(s: Seq<char>, sx: int, c0: int, dx: int, constrain: bool) -> int {
    let c = if c0 + dx < 0 {
        0
    } else if c0 + dx > s.len() {
        s.len() as int
    } else {
        c0 + dx
    };
    if constrain {
        let w = wrap_at(s, sx, c0);
        if c < w.lc0 {
            w.lc0 as int
        } else if c >= w.lc1 {
            if w.lc1 > w.lc0 {
                w.lc1 - 1
            } else {
                w.lc0 as int
            }
        } else {
            c
        }
    } else {
        c
    }
}

/// The position below or above: the row `dy` rows away at the remembered column, kept
/// inside its line.
pub open spec fn move_y_spec(s: Seq<char>, sx: int, c0: int, dy: int, hint: int) -> int {
    let w = delta_wrap_spec(s, sx, c0, dy);
    let c = w.c0 + hint;
    if c >= w.lc1 && w.lc0 < w.lc1 {
        w.lc1 - 1
    } else {
        c
    }
}

/// `LineNav` stays on the line that holds `c` (the last character when `c` is past the end):
/// with `x >= 0` it goes to column `x` of that line, kept on the line's last character (its
/// line end, when it has one); with `x < 0` it counts `-x` characters back from the end of the
/// line, stopping at the line's start; an empty line keeps its start. So `x = 0` is always the
/// line's start.
pub proof fn lemma_line_move_in_line(s: Seq<char>, sx: int, c: int, x: int)
    requires
        sx > 0,
        text_fits(s),
        wrap_arg_ok(s, c),
    ensures
        ({
            let l = breaks_before(s, wrap_pos(s, c)) as int;
            let a = line_start(s, l);
            let b = line_start(s, l + 1);
            let r = line_move_spec(s, sx, c, x);
            &&& a <= r
            &&& b > a ==> r < b
            &&& b == a ==> r == a
            &&& x >= 0 && b > a ==> r == a + if x < b - a { x } else { b - a - 1 }
            &&& x < 0 && b > a ==> r == a + if x + (b - a) < 0 { 0 } else { x + (b - a) }
            &&& x == 0 ==> r == a
        }),
{
    lemma_wrap_at(s, sx, c);
    let p = wrap_pos(s, c);
    crate::rope::lemma_breaks_bounded(s, p);
    crate::rope::lemma_line_of(s, p);
    let w = wrap_at(s, sx, c);
    assert(w.line0 == breaks_before(s, p));
    assert(w.lc0 == line_start(s, breaks_before(s, p) as int));
    assert(w.lc1 == line_start(s, breaks_before(s, p) as int + 1));
}

/// `MoveCursorX` moves `dx` characters from `c0`, kept inside the text; when kept to the line
/// of `c0` as well, it stays on that line (on its start when the line is empty).
pub proof fn lemma_move_x_target(s: Seq<char>, sx: int, c0: int, dx: int)
    requires
        sx > 0,
        text_fits(s),
        wrap_arg_ok(s, c0),
    ensures
        ({
            let r = move_x_target(s, sx, c0, dx, false);
            &&& 0 <= r <= s.len()
            &&& 0 <= c0 + dx <= s.len() ==> r == c0 + dx
            &&& c0 + dx < 0 ==> r == 0
            &&& c0 + dx > s.len() ==> r == s.len()
        }),
        ({
            let l = breaks_before(s, wrap_pos(s, c0)) as int;
            let a = line_start(s, l);
            let b = line_start(s, l + 1);
            let free = move_x_target(s, sx, c0, dx, false);
            let r = move_x_target(s, sx, c0, dx, true);
            &&& a <= r
            &&& b > a ==> r < b
            &&& b == a ==> r == a
            &&& a <= free < b ==> r == free
        }),
{
    lemma_wrap_at(s, sx, c0);
    let p = wrap_pos(s, c0);
    crate::rope::lemma_breaks_bounded(s, p);
    crate::rope::lemma_line_of(s, p);
    let w = wrap_at(s, sx, c0);
    assert(w.line0 == breaks_before(s, p));
}

/// `Line` goes to the start of the line it names: a line from `0` to the last is that line
/// (`0` is the first line, at position `0`), a larger number stops at the last line, and a
/// negative number `-k` is the `k`-th line before the last.
pub proof fn lemma_jump_lands_on_line(s: Seq<char>, line: int)
    ensures
        0 <= line < line_count(s) ==> line_start(s, jump_line_spec(s, line)) == line_start(s, line)
            && breaks_before(s, line_start(s, jump_line_spec(s, line))) == line,
        line >= line_count(s) ==> jump_line_spec(s, line) == line_count(s) - 1,
        -(line_count(s) - 1) <= line < 0 ==> jump_line_spec(s, line) == line_count(s) - 1 + line,
        line_start(s, jump_line_spec(s, 0)) == 0,
{
    if 0 <= line < line_count(s) {
        crate::rope::lemma_line_start(s, line);
    }
    crate::rope::lemma_line_start(s, 0);
    assert(breaks_before(s, 0) == 0);
    crate::rope::lemma_line_start(s, 0);
}

/// Stepping one row forward keeps a row made for some position made for some position.
proof fn lemma_steps_next_valid(s: Seq<char>, sx: int, w: Wrap, n: nat)
    requires
        sx > 0,
        text_fits(s),
        wrap_valid(s, sx, w),
    ensures
        wrap_valid(s, sx, steps_next(s, sx, w, n)),
    decreases n,
{
    if n > 0 {
        lemma_valid_next(s, sx, w);
        match next_wrap_spec(s, sx, w) {
            Some(x) => lemma_steps_next_valid(s, sx, x, (n - 1) as nat),
            None => {},
        }
    }
}

/// Stepping back keeps a row made for some position made for some position.
proof fn lemma_steps_prev_valid(s: Seq<char>, sx: int, w: Wrap, n: nat)
    requires
        sx > 0,
        sx <= u16::MAX,
        text_fits(s),
        wrap_valid(s, sx, w),
    ensures
        wrap_valid(s, sx, steps_prev(s, sx, w, n)),
    decreases n,
{
    if n > 0 {
        lemma_valid_prev(s, sx, w);
        match prev_wrap_spec(s, sx, w) {
            Some(x) => lemma_steps_prev_valid(s, sx, x, (n - 1) as nat),
            None => {},
        }
    }
}

/// `MoveCursorY` lands on the line of the row it moves to: with `w` that row, a non-empty line
/// holds the result (`w.lc0 <= r < w.lc1`); the cursor keeps its remembered column `hint` in
/// the row when that column is still inside the line, and otherwise stops on the line's last
/// character; on an empty line (the end of the text) it keeps the column as it is.
pub proof fn lemma_move_y_in_target_line(s: Seq<char>, sx: int, c0: int, dy: int, hint: int)
    requires
        sx > 0,
        sx <= u16::MAX,
        text_fits(s),
        wrap_arg_ok(s, c0),
        hint >= 0,
    ensures
        ({
            let w = delta_wrap_spec(s, sx, c0, dy);
            let r = move_y_spec(s, sx, c0, dy, hint);
            &&& w.lc0 < w.lc1 ==> w.lc0 <= r < w.lc1
            &&& w.c0 + hint < w.lc1 ==> r == w.c0 + hint
            &&& w.lc0 < w.lc1 && w.c0 + hint >= w.lc1 ==> r == w.lc1 - 1
            &&& w.lc0 == w.lc1 ==> r == w.c0 + hint
            &&& w.lc0 == line_start(s, w.line0 as int) && w.lc1 == line_start(s, w.line0 + 1)
        }),
{
    lemma_wrap_at_valid(s, sx, c0);
    let w0 = wrap_at(s, sx, c0);
    if dy > 0 {
        lemma_steps_next_valid(s, sx, w0, dy as nat);
    } else if dy < 0 {
        lemma_steps_prev_valid(s, sx, w0, (-dy) as nat);
    }
    let w = delta_wrap_spec(s, sx, c0, dy);
    lemma_wrap_valid_bounds(s, sx, w);
    let c = choose|c: int| wrap_arg_ok(s, c) && (Wrap { offset: w.offset, ..wrap_at(s, sx, c) }) == w;
    lemma_wrap_at(s, sx, c);
}

impl<'a> SmartBuffer<'a> {
    /// Up to `size` consecutive rows around the row of `c`.
    pub fn wrap_window(&self, sx: u16, c: usize, size: usize, reverse: bool) -> (out: Vec<Wrap>)
        requires
            sx > 0,
            text_fits(self.chars()),
            wrap_arg_ok(self.chars(), c as int),
            size < i32::MAX,
        ensures
            out@ == wrap_window_spec(self.chars(), sx as int, c as int, size as nat, reverse),
    {
        let ghost s = self.chars();
        let mut out: Vec<Wrap> = Vec::new();
        let ow = self.char_to_wrap(sx, c);
        let r: i32 = if reverse {
            -1
        } else {
            1
        };
        if size > 0 {
            let first = ow.unwrap();
            let mut w = first;
            out.push(w);
            let ghost o1 = grow_back(s, sx as int, c as int, r as int, 1, first.c0 as int, seq![first], size as nat);
            assert(out@ =~= seq![first]);
            let mut count: i32 = 1;
            while out.len() < size
                invariant
                    sx > 0,
                    text_fits(s),
                    s == self.chars(),
                    wrap_arg_ok(s, c as int),
                    size < i32::MAX,
                    r == 1 || r == -1,
                    1 <= count <= out.len(),
                    out.len() <= size,
                    grow_back(s, sx as int, c as int, r as int, count as int, w.c0 as int, out@, size as nat) == o1,
                ensures
                    out@ == o1,
                decreases size - out.len(),
            {
                let w0 = self.delta_wrap(sx, c, r * count);
                if w0.c0 == w.c0 {
                    break;
                }
                out.push(w0);
                w = w0;
                count += 1;
            }
            proof {
                lemma_grow_back_len(s, sx as int, c as int, r as int, 1, first.c0 as int, seq![first], size as nat);
            }
            let ghost o2 = grow_front(s, sx as int, c as int, -r as int, 1, first.c0 as int, o1, size as nat);
            w = first;
            count = 1;
            while out.len() < size
                invariant
                    sx > 0,
                    text_fits(s),
                    s == self.chars(),
                    wrap_arg_ok(s, c as int),
                    size < i32::MAX,
                    r == 1 || r == -1,
                    1 <= count <= out.len(),
                    out.len() <= size,
                    grow_front(s, sx as int, c as int, -r as int, count as int, w.c0 as int, out@, size as nat) == o2,
                ensures
                    out@ == o2,
                decreases size - out.len(),
            {
                let w0 = self.delta_wrap(sx, c, -r * count);
                if w0.c0 == w.c0 {
                    break;
                }
                out.insert(0, w0);
                w = w0;
                count += 1;
            }
        }
        if reverse {
            let rev = reversed(&out);
            rev
        } else {
            out
        }
    }

    /// The start of the row `y` rows away from the first row of the view.
    pub fn scroll(&mut self, spec: &ViewSpec, port: &ViewPort, y: i32) -> (c: usize)
        requires
            spec.sx > 0,
            text_fits(old(self).chars()),
            wrap_arg_ok(old(self).chars(), port.char_start as int),
            y > i32::MIN,
        ensures
            c == delta_wrap_spec(old(self).chars(), spec.sx as int, port.char_start as int, y as int).c0,
            *final(self) == *old(self),
    {
        let w = self.delta_wrap(spec.sx, port.char_start, y);
        w.c0
    }

    /// Column `x` of the line of `c` (from the line's end when negative), kept in the line.
    pub fn line_move(&self, sx: u16, c: usize, x: i32) -> (r: usize)
        requires
            sx > 0,
            text_fits(self.chars()),
            wrap_arg_ok(self.chars(), c as int),
            self.chars().len() <= i32::MAX,
        ensures
            r == line_move_spec(self.chars(), sx as int, c as int, x as int),
    {
        let w = self.char_to_wrap(sx, c).unwrap();
        proof {
            lemma_wrap_at(self.chars(), sx as int, c as int);
        }
        let mut lc = x;
        let line_length = w.lc1 - w.lc0;
        if x < 0 {
            lc += line_length as i32;
        }
        if lc < 0 || line_length == 0 {
            lc = 0;
        } else if lc >= line_length as i32 {
            lc = line_length as i32 - 1;
        }
        w.lc0 + lc as usize
    }

    /// The start of line `line`, counted from the last line when negative.
    pub fn jump_to_line(&mut self, line: i64) -> (c: usize)
        requires
            line > i64::MIN,
            line < 0 ==> -line <= line_count(old(self).chars()) - 1,
        ensures
            c == line_start(old(self).chars(), jump_line_spec(old(self).chars(), line as int)),
            *final(self) == *old(self),
    {
        let len_lines = rope_len_lines(&self.text);
        proof {
            assert(line_count(self.chars()) >= 1);
        }
        let lines: usize = len_lines - 1;
        let current: usize;
        if line < 0 {
            let back = (-line) as u64;
            current = lines - back as usize;
        } else if line as u64 > lines as u64 {
            current = lines;
        } else {
            current = line as usize;
        }
        rope_line_to_char(&self.text, current)
    }

    /// The position `dy` rows away from the row of `c0`, at the cursor's remembered column.
    pub fn move_cursor_y(&mut self, sx: u16, c0: usize, cursor: &ViewCursor, dy: i32) -> (c: usize)
        requires
            sx > 0,
            text_fits(old(self).chars()),
            wrap_arg_ok(old(self).chars(), c0 as int),
            dy > i32::MIN,
        ensures
            c == move_y_spec(old(self).chars(), sx as int, c0 as int, dy as int, cursor.spec_x_hint() as int),
            *final(self) == *old(self),
    {
        let w = self.delta_wrap(sx, c0, dy);
        proof {
            lemma_wrap_valid_bounds(self.chars(), sx as int, w);
        }
        let mut c = w.c0 + cursor.x_hint() as usize;
        if c >= w.lc1 && w.lc0 < w.lc1 {
            c = w.lc1 - 1;
        }
        c
    }

    /// The position `dx` characters from `c0`, and its column in its row.
    pub fn move_cursor_x(&mut self, sx: u16, c0: usize, dx: i32) -> (r: (usize, usize))
        requires
            sx > 0,
            text_fits(old(self).chars()),
            old(self).chars().len() <= i32::MAX,
            c0 <= i32::MAX,
            i32::MIN <= c0 + dx <= i32::MAX,
        ensures
            r.0 == move_x_target(old(self).chars(), sx as int, c0 as int, dx as int, false),
            r.1 == r.0 - wrap_at(old(self).chars(), sx as int, r.0 as int).c0,
            *final(self) == *old(self),
    {
        self._move_cursor_x(sx, c0, dx, false)
    }

    /// The position `dx` characters from `c0`, kept in the line of `c0` when `constrain`, and
    /// its column in its row.
    pub fn _move_cursor_x(&mut self, sx: u16, c0: usize, dx: i32, constrain: bool) -> (r: (usize, usize))
        requires
            sx > 0,
            text_fits(old(self).chars()),
            old(self).chars().len() <= i32::MAX,
            c0 <= i32::MAX,
            i32::MIN <= c0 + dx <= i32::MAX,
            constrain ==> wrap_arg_ok(old(self).chars(), c0 as int),
        ensures
            r.0 == move_x_target(old(self).chars(), sx as int, c0 as int, dx as int, constrain),
            r.1 == r.0 - wrap_at(old(self).chars(), sx as int, r.0 as int).c0,
            *final(self) == *old(self),
    {
        let ghost s = self.chars();
        let len = rope_len_chars(&self.text);
        let mut c = c0 as i32 + dx;
        if c < 0 {
            c = 0;
        } else if c > len as i32 {
            c = len as i32;
        }
        let mut c1 = c as usize;
        if constrain {
            let w = self.char_to_wrap(sx, c0).unwrap();
            proof {
                lemma_wrap_at(s, sx as int, c0 as int);
            }
            let line_length = w.lc1 - w.lc0;
            if c1 < w.lc0 {
                c1 = w.lc0;
            } else if c1 >= w.lc1 {
                if line_length > 0 {
                    c1 = w.lc1 - 1;
                } else {
                    c1 = w.lc0;
                }
            }
        }
        let w = self.char_to_wrap(sx, c1).unwrap();
        proof {
            lemma_wrap_at(s, sx as int, c1 as int);
        }
        let hint = c1 - w.c0;
        (c1, hint)
    }
}

/// A row made for some position lies inside the text.
proof fn lemma_wrap_valid_bounds(s: Seq<char>, sx: int, w: Wrap)
    requires
        sx > 0,
        text_fits(s),
        wrap_valid(s, sx, w),
    ensures
        w.lc0 <= w.c0 <= s.len(),
        w.lc0 <= w.lc1 <= s.len(),
{
    let c = choose|c: int| wrap_arg_ok(s, c) && (Wrap { offset: w.offset, ..wrap_at(s, sx, c) }) == w;
    lemma_wrap_at(s, sx, c);
}

/// The rows of `v` in the opposite order.
fn reversed(v: &Vec<Wrap>) -> (r: Vec<Wrap>)
    ensures
        r@ == v@.reverse(),
{
    let mut r: Vec<Wrap> = Vec::new();
    let mut i = v.len();
    while i > 0
        invariant
            i <= v.len(),
            r@ == v@.subrange(i as int, v.len() as int).reverse(),
        decreases i,
    {
        i -= 1;
        r.push(v[i]);
        proof {
            assert(v@.subrange(i as int, v.len() as int).reverse() =~= v@.subrange(i + 1, v.len() as int).reverse().push(v@[i as int]));
        }
    }
    assert(v@.subrange(0, v.len() as int) =~= v@);
    r
}

} // verus!
