//! A growable stack with a hard capacity ceiling, used both for each
//! frame's operand stack and for the machine's call stack.

use vstd::prelude::*;

verus! {

/// The hard ceiling on the number of elements a [`Stack`] may hold.
pub const STACK_CAPACITY: u16 = 65534;

/// A last-in-first-out sequence of at most [`STACK_CAPACITY`] elements.
///
/// Popping from an empty stack and pushing onto a full one are internal
/// invariant violations, so both are ruled out by precondition rather than
/// handled at run time.
pub struct Stack<T> {
    vec: Vec<T>,
}

impl<T> View for Stack<T> {
    type V = Seq<T>;

    closed spec fn view(&self) -> Seq<T> {
        self.vec@
    }
}

impl<T> Stack<T> {
    /// The capacity invariant: the element count never exceeds the ceiling.
    pub open spec fn inv(&self) -> bool {
        self@.len() <= STACK_CAPACITY
    }

    pub fn new() -> (s: Stack<T>)
        ensures
            s@ == Seq::<T>::empty(),
            s.inv(),
    {
        Stack { vec: Vec::new() }
    }

    pub fn is_empty(&self) -> (r: bool)
        requires
            self.inv(),
        ensures
            r == (self@.len() == 0),
    {
        self.size() == 0
    }

    pub fn size(&self) -> (r: u16)
        requires
            self.inv(),
        ensures
            r == self@.len(),
    {
        self.vec.len() as u16
    }

    pub fn is_full(&self) -> (r: bool)
        requires
            self.inv(),
        ensures
            r == (self@.len() == STACK_CAPACITY),
    {
        self.size() == STACK_CAPACITY
    }

    pub fn pop(&mut self) -> (v: T)
        requires
            old(self).inv(),
            old(self)@.len() > 0,
        ensures
            final(self).inv(),
            final(self)@ == old(self)@.drop_last(),
            v == old(self)@.last(),
    {
        self.vec.pop().unwrap()
    }

    pub fn push(&mut self, val: T)
        requires
            old(self).inv(),
            old(self)@.len() < STACK_CAPACITY,
        ensures
            final(self).inv(),
            final(self)@ == old(self)@.push(val),
    {
        self.vec.push(val);
    }

    /// Reads the element `depth` positions below the top without removing it.
    pub(crate) fn peek(&self, depth: u16) -> (v: &T)
        requires
            self.inv(),
            depth < self@.len(),
        ensures
            *v == self@[self@.len() - 1 - depth],
    {
        let n = self.size();
        &self.vec[(n - 1 - depth) as usize]
    }
}

} // verus!
