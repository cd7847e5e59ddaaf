use super::Stack;
use vstd::prelude::*;

verus! {

/// A window on a stack whose indices count from a base slot.
pub struct StackOffset<'stack, T, const STACK_SIZE: usize> {
    stack: &'stack mut Stack<T, STACK_SIZE>,
    base_offset: usize,
}

impl<'stack, T, const STACK_SIZE: usize> StackOffset<'stack, T, STACK_SIZE> {
    /// The stack this window looks at.
    pub closed spec fn stack(&self) -> &'stack mut Stack<T, STACK_SIZE> {
        self.stack
    }

    /// The slot that index 0 of this window stands for.
    pub closed spec fn base_offset(&self) -> usize {
        self.base_offset
    }

    pub fn new(stack: &'stack mut Stack<T, STACK_SIZE>, base_offset: usize) -> (o: Self)
        ensures
            *o.stack() == *old(stack),
            *final(o.stack()) == *final(stack),
            o.base_offset() == base_offset,
    {
        Self { stack, base_offset }
    }

    /// Writes `value` into the slot `index` places above the base (see `Stack::set_at`).
    pub fn set_at(&mut self, index: usize, value: T)
        requires
            old(self).stack().wf(),
            old(self).base_offset() + index < STACK_SIZE,
        ensures
            final(self).stack().wf(),
            final(self).base_offset() == old(self).base_offset(),
            final(self).stack()@ == (if old(self).base_offset() + index < old(self).stack()@.len() {
                old(self).stack()@.update(old(self).base_offset() + index, value)
            } else {
                old(self).stack()@
            }),
    {
        self.stack.set_at(self.base_offset + index, value)
    }

    pub fn get_mut_at(&mut self, index: usize) -> (r: &mut T)
        requires
            old(self).base_offset() + index < old(self).stack()@.len(),
            old(self).base_offset() + index <= usize::MAX,
        ensures
            final(self).base_offset() == old(self).base_offset(),
            *r == old(self).stack()@[old(self).base_offset() + index],
            final(self).stack()@ == old(self).stack()@.update(
                old(self).base_offset() + index,
                *final(r),
            ),
    {
        self.stack.get_mut_at(self.base_offset + index)
    }

    pub fn get_ref_at(&self, index: usize) -> (r: &T)
        requires
            self.base_offset() + index < self.stack()@.len(),
        ensures
            *r == self.stack()@[self.base_offset() + index],
    {
        let _count = self.stack.count();
        self.stack.get_ref_at(self.base_offset + index)
    }
}

impl<'stack, T: Copy, const STACK_SIZE: usize> StackOffset<'stack, T, STACK_SIZE> {
    /// A copy of the element `index` places above the base.
    pub fn get_at(&self, index: usize) -> (v: T)
        requires
            self.base_offset() + index < self.stack()@.len(),
        ensures
            v == self.stack()@[self.base_offset() + index],
    {
        let _count = self.stack.count();
        self.stack.get_at(self.base_offset + index)
    }
}

} // verus!
