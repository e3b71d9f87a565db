use ropey::Rope;
use vstd::prelude::*;

use crate::rope::{rope_char, rope_chars, rope_len_chars};

verus! {

/// Whether a character has Unicode's `White_Space` property (PropList.txt): the controls
/// from tab to carriage return, space, next line, no-break space, ogham space mark, the
/// spaces from en quad to hair space, the line and paragraph separators, narrow no-break
/// space, medium mathematical space and ideographic space.
pub open spec fn white_space(c: char) -> bool {
    let n = c as u32;
    ||| 0x9 <= n <= 0xD
    ||| n == 0x20
    ||| n == 0x85
    ||| n == 0xA0
    ||| n == 0x1680
    ||| 0x2000 <= n <= 0x200A
    ||| n == 0x2028
    ||| n == 0x2029
    ||| n == 0x202F
    ||| n == 0x205F
    ||| n == 0x3000
}

/// Whether a character is alphabetic or numeric in Unicode's sense.
pub uninterp spec fn alphanumeric(c: char) -> bool;

/// Whether `c` has Unicode's `White_Space` property (what `char::is_whitespace` tells).
pub(crate) fn char_is_whitespace(c: char) -> (b: bool)
    ensures
        b == white_space(c),
{
    let n = c as u32;
    (0x9 <= n && n <= 0xD) || n == 0x20 || n == 0x85 || n == 0xA0 || n == 0x1680 || (0x2000 <= n
        && n <= 0x200A) || n == 0x2028 || n == 0x2029 || n == 0x202F || n == 0x205F || n == 0x3000
}

/// `char::is_alphanumeric`: whether `c` is alphabetic or numeric. Unicode's tables are not
/// written out here: the result is named `alphanumeric` of the character.
#[verifier::external_body]
pub(crate) fn char_is_alphanumeric(c: char) -> (b: bool)
    ensures
        b == alphanumeric(c),
{
    c.is_alphanumeric()
}

/// The punctuation that word motions treat like blanks after a word and like part of a word
/// before it.
pub open spec fn special(c: char) -> bool {
    c == ':' || c == ';' || c == '\'' || c == '"' || c == '(' || c == ')' || c == '{' || c == '}'
        || c == '[' || c == ']'
}

/// Whether `ch` is one of the characters `:;'"(){}[]`.
pub fn is_special(ch: &char) -> (b: bool)
    ensures
        b == special(*ch),
{
    let c = *ch;
    c == ':' || c == ';' || c == '\'' || c == '"' || c == '(' || c == ')' || c == '{' || c == '}'
        || c == '[' || c == ']'
}

/// The kinds of characters that a word motion skips over.
#[derive(Debug, Clone, Copy, PartialEq, Eq, Structural)]
pub enum CharClass {
    /// Blanks and punctuation.
    Blank,
    /// Anything but blanks.
    NonBlank,
    /// Letters, digits and punctuation.
    Word,
}

/// `c` belongs to `class`.
pub open spec fn in_class(class: CharClass, c: char) -> bool {
    match class {
        CharClass::Blank => white_space(c) || special(c),
        CharClass::NonBlank => !white_space(c),
        CharClass::Word => alphanumeric(c) || special(c),
    }
}

fn class_holds(class: CharClass, c: char) -> (b: bool)
    ensures
        b == in_class(class, c),
{
    match class {
        CharClass::Blank => char_is_whitespace(c) || is_special(&c),
        CharClass::NonBlank => !char_is_whitespace(c),
        CharClass::Word => char_is_alphanumeric(c) || is_special(&c),
    }
}

/// How many characters from position `c` on belong to `class`; the text's last character is
/// never counted.
pub open spec fn run_forward(s: Seq<char>, c: int, class: CharClass) -> nat
    decreases s.len() - c,
{
    if 0 <= c < s.len() - 1 && in_class(class, s[c]) {
        1 + run_forward(s, c + 1, class)
    } else {
        0
    }
}

/// How many characters before position `c` belong to `class`, going back from `c`.
pub open spec fn run_backward(s: Seq<char>, c: int, class: CharClass) -> nat
    decreases c,
{
    if 0 < c <= s.len() && in_class(class, s[c - 1]) {
        1 + run_backward(s, c - 1, class)
    } else {
        0
    }
}

proof fn lemma_run_forward_bound(s: Seq<char>, c: int, class: CharClass)
    requires
        0 <= c,
    ensures
        run_forward(s, c, class) == 0 || c + run_forward(s, c, class) <= s.len() - 1,
    decreases s.len() - c,
{
    if 0 <= c < s.len() - 1 && in_class(class, s[c]) {
        lemma_run_forward_bound(s, c + 1, class);
    }
}

proof fn lemma_run_backward_bound(s: Seq<char>, c: int, class: CharClass)
    ensures
        run_backward(s, c, class) <= if c > 0 {
            c
        } else {
            0
        },
    decreases c,
{
    if 0 < c <= s.len() && in_class(class, s[c - 1]) {
        lemma_run_backward_bound(s, c - 1, class);
    }
}

/// One word motion from position `c`: backwards, over the blanks and then over a word (or,
/// with `cap`, over everything but blanks); forwards, over a word (or everything but blanks)
/// and then over the blanks after it.
pub open spec fn word_step(s: Seq<char>, c: int, back: bool, cap: bool) -> int {
    let word = if cap {
        CharClass::NonBlank
    } else {
        CharClass::Word
    };
    if back {
        let c1 = c - run_backward(s, c, CharClass::Blank);
        c1 - run_backward(s, c1, word)
    } else {
        let c1 = c + run_forward(s, c, word);
        c1 + run_forward(s, c1, CharClass::Blank)
    }
}

/// The position reached from `c` by `n` word motions.
pub open spec fn word_target(s: Seq<char>, c: int, n: nat, back: bool, cap: bool) -> int
    decreases n,
{
    if n == 0 {
        c
    } else {
        word_target(s, word_step(s, c, back, cap), (n - 1) as nat, back, cap)
    }
}

proof fn lemma_word_step_bound(s: Seq<char>, c: int, back: bool, cap: bool)
    requires
        0 <= c <= s.len(),
    ensures
        0 <= word_step(s, c, back, cap) <= s.len(),
{
    let word = if cap {
        CharClass::NonBlank
    } else {
        CharClass::Word
    };
    if back {
        lemma_run_backward_bound(s, c, CharClass::Blank);
        let c1 = c - run_backward(s, c, CharClass::Blank);
        lemma_run_backward_bound(s, c1, word);
    } else {
        lemma_run_forward_bound(s, c, word);
        let c1 = c + run_forward(s, c, word);
        lemma_run_forward_bound(s, c1, CharClass::Blank);
    }
}

/// A forward word motion never moves back and a backward one never moves forward; either
/// stays within the text.
pub proof fn lemma_word_direction(s: Seq<char>, c: int, n: nat, back: bool, cap: bool)
    requires
        0 <= c <= s.len(),
    ensures
        0 <= word_target(s, c, n, back, cap) <= s.len(),
        back ==> word_target(s, c, n, back, cap) <= c,
        !back ==> word_target(s, c, n, back, cap) >= c,
    decreases n,
{
    if n > 0 {
        lemma_word_step_bound(s, c, back, cap);
        lemma_word_direction(s, word_step(s, c, back, cap), (n - 1) as nat, back, cap);
    }
}

/// Reads a rope's characters one at a time from a position, forwards or backwards.
pub(crate) struct TextIterator<'a> {
    text: &'a Rope,
    reverse: bool,
    c: usize,
}

impl<'a> TextIterator<'a> {
    fn new(text: &'a Rope, c: usize, reverse: bool) -> (it: Self)
        ensures
            it.text == text,
            it.c == c,
            it.reverse == reverse,
    {
        TextIterator { text, reverse, c }
    }

    /// The next character: the one before the position when going back, the one at it when
    /// going forward (the text's last character is never handed out going forward).
    fn next(&mut self) -> (ch: Option<char>)
        requires
            old(self).c <= rope_chars(*old(self).text).len(),
        ensures
            final(self).text == old(self).text,
            final(self).reverse == old(self).reverse,
            ({
                let s = rope_chars(*old(self).text);
                let c = old(self).c as int;
                if old(self).reverse {
                    if s.len() == 0 || c == 0 {
                        ch is None && final(self).c == c
                    } else {
                        ch == Some(s[c - 1]) && final(self).c == c - 1
                    }
                } else {
                    if s.len() == 0 || c >= s.len() - 1 {
                        ch is None && final(self).c == c
                    } else {
                        ch == Some(s[c]) && final(self).c == c + 1
                    }
                }
            }),
    {
        let len = rope_len_chars(self.text);
        if len == 0 {
            None
        } else if self.reverse {
            if self.c == 0 {
                None
            } else {
                self.c = self.c - 1;
                Some(rope_char(self.text, self.c))
            }
        } else {
            if self.c >= len - 1 {
                None
            } else {
                let ch = rope_char(self.text, self.c);
                self.c = self.c + 1;
                Some(ch)
            }
        }
    }

    /// Moves over the characters of `class` next to the position.
    fn take_while1(&mut self, class: CharClass)
        requires
            old(self).c <= rope_chars(*old(self).text).len(),
        ensures
            final(self).text == old(self).text,
            final(self).reverse == old(self).reverse,
            final(self).c == if old(self).reverse {
                old(self).c - run_backward(rope_chars(*old(self).text), old(self).c as int, class)
            } else {
                old(self).c + run_forward(rope_chars(*old(self).text), old(self).c as int, class)
            },
    {
        let ghost s = rope_chars(*self.text);
        let start = self.c;
        let len = rope_len_chars(self.text);
        let mut count: usize = 0;
        loop
            invariant_except_break
                self.reverse ==> count <= start && self.c == start - count && run_backward(
                    s,
                    start as int,
                    class,
                ) == count + run_backward(s, self.c as int, class),
                !self.reverse ==> self.c == start + count && self.c <= s.len() && run_forward(
                    s,
                    start as int,
                    class,
                ) == count + run_forward(s, self.c as int, class),
            invariant
                self.text == old(self).text,
                self.reverse == old(self).reverse,
                start == old(self).c,
                start <= s.len(),
                s == rope_chars(*self.text),
                len == s.len(),
            ensures
                self.reverse ==> count <= start && run_backward(s, start as int, class) == count,
                !self.reverse ==> start + count <= s.len() && run_forward(s, start as int, class)
                    == count,
            decreases
                if self.reverse {
                    self.c as int
                } else {
                    s.len() - self.c
                },
        {
            let before = self.c;
            match self.next() {
                Some(ch) => {
                    if class_holds(class, ch) {
                        count = count + 1;
                    } else {
                        proof {
                            if self.reverse {
                                assert(run_backward(s, before as int, class) == 0);
                            } else {
                                assert(run_forward(s, before as int, class) == 0);
                            }
                        }
                        break ;
                    }
                },
                None => {
                    break ;
                },
            }
        }
        if self.reverse {
            self.c = start - count;
        } else {
            self.c = start + count;
        }
    }
}

/// The number of motions that a signed count asks for.
pub open spec fn motions(d: i32) -> nat {
    if d < 0 {
        (-d) as nat
    } else {
        d as nat
    }
}

/// The position `d` word motions away from `c` (backwards for negative `d`); with `cap`, a
/// word is anything between blanks.
pub(crate) fn word_position(text: &Rope, c: usize, d: i32, cap: bool) -> (r: usize)
    requires
        c <= rope_chars(*text).len(),
        d != i32::MIN,
    ensures
        r == word_target(rope_chars(*text), c as int, motions(d), d < 0, cap),
        r <= rope_chars(*text).len(),
{
    let ghost s = rope_chars(*text);
    let ghost c0 = c as int;
    let d_abs: i32 = if d < 0 {
        -d
    } else {
        d
    };
    let back = d < 0;
    let mut c = c;
    let mut count: i32 = 0;
    while count < d_abs
        invariant
            0 <= count <= d_abs,
            d_abs == motions(d),
            back == (d < 0),
            c <= s.len(),
            s == rope_chars(*text),
            word_target(s, c as int, (d_abs - count) as nat, back, cap) == word_target(
                s,
                c0,
                d_abs as nat,
                back,
                cap,
            ),
        decreases d_abs - count,
    {
        proof {
            lemma_word_step_bound(s, c as int, back, cap);
        }
        let word = if cap {
            CharClass::NonBlank
        } else {
            CharClass::Word
        };
        let mut it = TextIterator::new(text, c, back);
        if back {
            it.take_while1(CharClass::Blank);
            proof {
                lemma_run_backward_bound(s, c as int, CharClass::Blank);
            }
            it.take_while1(word);
        } else {
            it.take_while1(word);
            proof {
                lemma_run_forward_bound(s, c as int, word);
            }
            it.take_while1(CharClass::Blank);
        }
        c = it.c;
        count = count + 1;
    }
    c
}

} // verus!
