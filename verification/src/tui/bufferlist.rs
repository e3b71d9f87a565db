use std::collections::VecDeque;
use vstd::prelude::*;

use crate::text::bufferlist::{deque_front_mut, rotate_next, rotate_prev};

verus! {

/// A non-empty list of elements whose first element is the current one; it can be rotated
/// in either direction.
#[derive(Debug)]
pub struct RotatingList<T> {
    pub elements: VecDeque<T>,
}

impl<T> View for RotatingList<T> {
    type V = Seq<T>;

    open spec fn view(&self) -> Seq<T> {
        self.elements@
    }
}

impl<T> RotatingList<T> {
    /// A list holding just `t`.
    pub fn new(t: T) -> (l: Self)
        ensures
            l@ == seq![t],
    {
        let mut elements = VecDeque::new();
        elements.push_back(t);
        Self { elements }
    }

    /// The current element, for changing.
    pub fn get_mut(&mut self) -> (r: &mut T)
        requires
            old(self)@.len() > 0,
        ensures
            *r == old(self)@[0],
            final(self)@ == old(self)@.update(0, *final(r)),
    {
        deque_front_mut(&mut self.elements)
    }

    /// The current element.
    pub fn get(&mut self) -> (r: &T)
        requires
            old(self)@.len() > 0,
        ensures
            *r == old(self)@[0],
            final(self)@ == old(self)@,
    {
        &self.elements[0]
    }

    /// Adds an element in front; it becomes the current one.
    pub fn add(&mut self, b: T) -> (r: &mut Self)
        ensures
            (*r)@ == seq![b] + old(self)@,
            *final(self) == *final(r),
    {
        self.elements.push_front(b);
        self
    }

    /// Makes the next element the current one.
    pub fn next(&mut self) -> (r: &mut Self)
        ensures
            (*r)@ == rotate_next(old(self)@),
            *final(self) == *final(r),
    {
        if let Some(b) = self.elements.pop_front() {
            self.elements.push_back(b);
        }
        self
    }

    /// Makes the previous element the current one.
    pub fn prev(&mut self) -> (r: &mut Self)
        ensures
            (*r)@ == rotate_prev(old(self)@),
            *final(self) == *final(r),
    {
        if let Some(b) = self.elements.pop_back() {
            self.elements.push_front(b);
        }
        self
    }
}

} // verus!
