use super::Stack;
use vstd::prelude::*;

verus! {

/// An iterator over a stack from the bottom to the top.
pub struct StackRevIter<'a, T, const STACK_SIZE: usize> {
    stack: &'a Stack<T, STACK_SIZE>,
    index: usize,
}

impl<'a, T, const STACK_SIZE: usize> StackRevIter<'a, T, STACK_SIZE> {
    /// The stack being walked.
    pub closed spec fn stack(&self) -> &'a Stack<T, STACK_SIZE> {
        self.stack
    }

    /// The index of the next element to hand out.
    pub closed spec fn position(&self) -> int {
        self.index as int
    }

    pub fn new(stack: &'a Stack<T, STACK_SIZE>) -> (it: Self)
        ensures
            it.stack() == stack,
            it.position() == 0,
    {
        Self { stack, index: 0 }
    }

    /// The next element towards the top, or `None` once the top has been passed.
    pub fn next(&mut self) -> (r: Option<&'a T>)
        ensures
            final(self).stack() == old(self).stack(),
            old(self).position() >= old(self).stack()@.len() ==> r is None && final(self).position()
                == old(self).position(),
            old(self).position() < old(self).stack()@.len() ==> r == Some(
                &old(self).stack()@[old(self).position()],
            ) && final(self).position() == old(self).position() + 1,
    {
        if self.index >= self.stack.count() {
            return None;
        }
        let item = self.stack.get_ref_at(self.index);
        self.index = self.index + 1;
        Some(item)
    }
}

} // verus!
