use std::hash::{Hash, Hasher};
use vstd::prelude::*;

verus! {

/// `String::push`: appends one character.
#[verifier::external_body]
pub(crate) fn string_push(s: &mut String, c: char)
    ensures
        final(s)@ == old(s)@.push(c),
{
    s.push(c)
}

/// The decimal digits of `n`.
pub open spec fn decimal(n: nat) -> Seq<char>
    decreases n,
{
    if n < 10 {
        seq![(48 + n) as char]
    } else {
        decimal(n / 10).push((48 + n % 10) as char)
    }
}

/// `prefix` followed by the decimal digits of `n`.
pub(crate) fn with_decimal(prefix: &str, n: usize) -> (s: String)
    ensures
        s@ == prefix@ + decimal(n as nat),
{
    let mut s = prefix.to_owned();
    push_decimal(&mut s, n);
    s
}

/// `n` spaces.
pub(crate) fn spaces_string(n: usize) -> (s: String)
    ensures
        s@ == crate::config::spaces(n as nat),
{
    let mut s = String::new();
    let mut i: usize = 0;
    while i < n
        invariant
            i <= n,
            s@ == crate::config::spaces(i as nat),
        decreases n - i,
    {
        string_push(&mut s, ' ');
        i = i + 1;
        assert(s@ =~= crate::config::spaces(i as nat));
    }
    s
}

pub(crate) fn push_decimal(s: &mut String, n: usize)
    ensures
        final(s)@ == old(s)@ + decimal(n as nat),
    decreases n,
{
    if n >= 10 {
        push_decimal(s, n / 10);
    }
    let d = (n % 10) as u8;
    let c = (48u8 + d) as char;
    string_push(s, c);
    proof {
        assert(c == (48 + (n as nat) % 10) as char);
        if n < 10 {
            assert(s@ =~= old(s)@ + decimal(n as nat));
        } else {
            assert(s@ =~= old(s)@ + decimal(n as nat));
        }
    }
}

} // verus!

verus! {

/// What `DefaultHasher` computes for a string: every `DefaultHasher` made by `new` starts
/// from the same state, so the result depends on the string alone.
pub uninterp spec fn default_hash(s: Seq<char>) -> u64;

/// Hashes a string with a fresh `std::collections::hash_map::DefaultHasher`
/// (`Hash::hash` for `String`, then `Hasher::finish`); the result is named
/// `default_hash` of the string's characters.
#[verifier::external_body]
pub(crate) fn string_hash(s: &String) -> (r: u64)
    ensures
        r == default_hash(s@),
{
    let mut h = std::collections::hash_map::DefaultHasher::new();
    s.hash(&mut h);
    h.finish()
}

} // verus!
