use std::collections::VecDeque;
use vstd::prelude::*;

verus! {

/// `VecDeque::front_mut`: a mutable reference to the first element.
#[verifier::external_body]
pub(crate) fn deque_front_mut<T>(v: &mut VecDeque<T>) -> (r: &mut T)
    requires
        old(v)@.len() > 0,
    ensures
        *r == old(v)@[0],
        final(v)@ == old(v)@.update(0, *final(r)),
{
    v.front_mut().unwrap()
}

/// A list of elements whose first element is the current one; it can be rotated in either
/// direction.
#[derive(Debug)]
pub struct RotatingList<T> {
    pub elements: VecDeque<T>,
}

impl<T> View for RotatingList<T> {
    type V = Seq<T>;

    open spec fn view(&self) -> Seq<T> {
        self.elements@
    }
}

/// One step forward: the first element moves to the back.
pub open spec fn rotate_next<T>(s: Seq<T>) -> Seq<T> {
    if s.len() == 0 {
        s
    } else {
        s.subrange(1, s.len() as int).push(s[0])
    }
}

/// One step back: the last element moves to the front.
pub open spec fn rotate_prev<T>(s: Seq<T>) -> Seq<T> {
    if s.len() == 0 {
        s
    } else {
        seq![s.last()] + s.subrange(0, s.len() - 1)
    }
}

impl<T> Default for RotatingList<T> {
    fn default() -> (l: Self)
        ensures
            l@ == Seq::<T>::empty(),
    {
        Self { elements: VecDeque::new() }
    }
}

impl<T> RotatingList<T> {
    /// The current element, for changing.
    pub fn get_mut(&mut self) -> (r: &mut T)
        requires
            old(self)@.len() > 0,
        ensures
            *r == old(self)@[0],
            final(self)@ == old(self)@.update(0, *final(r)),
    {
        deque_front_mut(&mut self.elements)
    }

    /// The current element.
    pub fn get(&mut self) -> (r: &T)
        requires
            old(self)@.len() > 0,
        ensures
            *r == old(self)@[0],
            final(self)@ == old(self)@,
    {
        &self.elements[0]
    }

    /// Adds an element in front; it becomes the current one.
    pub fn add(&mut self, b: T) -> (r: &mut Self)
        ensures
            (*r)@ == seq![b] + old(self)@,
            *final(self) == *final(r),
    {
        self.elements.push_front(b);
        self
    }

    /// Makes the next element the current one.
    pub fn next(&mut self) -> (r: &mut Self)
        ensures
            (*r)@ == rotate_next(old(self)@),
            *final(self) == *final(r),
    {
        if let Some(b) = self.elements.pop_front() {
            self.elements.push_back(b);
        }
        self
    }

    /// Makes the previous element the current one.
    pub fn prev(&mut self) -> (r: &mut Self)
        ensures
            (*r)@ == rotate_prev(old(self)@),
            *final(self) == *final(r),
    {
        if let Some(b) = self.elements.pop_back() {
            self.elements.push_front(b);
        }
        self
    }
}

/// Stepping forward and then back leaves the list as it was.
pub proof fn lemma_next_then_prev<T>(s: Seq<T>)
    ensures
        rotate_prev(rotate_next(s)) == s,
{
    if s.len() > 0 {
        assert(rotate_prev(rotate_next(s)) =~= s);
    }
}

/// Stepping back and then forward leaves the list as it was.
pub proof fn lemma_prev_then_next<T>(s: Seq<T>)
    ensures
        rotate_next(rotate_prev(s)) == s,
{
    if s.len() > 0 {
        assert(rotate_next(rotate_prev(s)) =~= s);
    }
}

/// Stepping forward as many times as the list is long leaves the list as it was.
pub proof fn lemma_full_rotation<T>(s: Seq<T>)
    ensures
        rotate_next_n(s, s.len()) == s,
{
    lemma_rotate_next_n(s, s.len());
    if s.len() > 0 {
        assert(s.subrange(s.len() as int, s.len() as int) + s.subrange(0, s.len() as int) =~= s);
    }
}

/// `n` steps forward.
pub open spec fn rotate_next_n<T>(s: Seq<T>, n: nat) -> Seq<T>
    decreases n,
{
    if n == 0 {
        s
    } else {
        rotate_next(rotate_next_n(s, (n - 1) as nat))
    }
}

proof fn lemma_rotate_next_n<T>(s: Seq<T>, n: nat)
    requires
        n <= s.len(),
    ensures
        rotate_next_n(s, n) == s.subrange(n as int, s.len() as int) + s.subrange(0, n as int),
    decreases n,
{
    if n == 0 {
        assert(s.subrange(0, s.len() as int) + s.subrange(0, 0) =~= s);
    } else {
        lemma_rotate_next_n(s, (n - 1) as nat);
        let prev = rotate_next_n(s, (n - 1) as nat);
        assert(prev.len() == s.len());
        assert(rotate_next(prev) =~= s.subrange(n as int, s.len() as int) + s.subrange(0, n as int));
    }
}

} // verus!
