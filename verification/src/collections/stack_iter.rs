use super::Stack;
use vstd::prelude::*;

verus! {

/// An iterator over a stack from the top to the bottom.
pub struct StackIter<'a, T, const STACK_SIZE: usize> {
    stack: &'a Stack<T, STACK_SIZE>,
    index: isize,
}

impl<'a, T, const STACK_SIZE: usize> StackIter<'a, T, STACK_SIZE> {
    /// The stack being walked.
    pub closed spec fn stack(&self) -> &'a Stack<T, STACK_SIZE> {
        self.stack
    }

    /// The index of the next element to hand out; below 0 once the walk is over.
    pub closed spec fn position(&self) -> int {
        self.index as int
    }

    pub fn new(stack: &'a Stack<T, STACK_SIZE>) -> (it: Self)
        requires
            stack@.len() <= isize::MAX,
        ensures
            it.stack() == stack,
            it.position() == stack@.len() - 1,
    {
        Self { stack, index: stack.count() as isize - 1 }
    }

    /// The next element towards the bottom, or `None` once the bottom has been passed.
    pub fn next(&mut self) -> (r: Option<&'a T>)
        requires
            old(self).position() < old(self).stack()@.len(),
        ensures
            final(self).stack() == old(self).stack(),
            old(self).position() < 0 ==> r is None && final(self).position() == old(self).position(),
            old(self).position() >= 0 ==> r == Some(&old(self).stack()@[old(self).position()])
                && final(self).position() == old(self).position() - 1,
    {
        if self.index < 0 {
            return None;
        }
        let item = self.stack.get_ref_at(self.index as usize);
        self.index = self.index - 1;
        Some(item)
    }
}

} // verus!
