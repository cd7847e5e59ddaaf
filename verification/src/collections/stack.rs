use super::{stack_iter::StackIter, stack_offset::StackOffset, stack_rev_iter::StackRevIter};
use vstd::prelude::*;

verus! {

/// The number of slots of a stack when the program asks for no other size.
pub const DEFAULT_STACK_SIZE: usize = 1024;

/// A bounded stack of at most `STACK_SIZE` elements.
#[derive(Debug)]
pub struct Stack<T, const STACK_SIZE: usize> {
    stack: Vec<T>,
}

impl<T, const STACK_SIZE: usize> View for Stack<T, STACK_SIZE> {
    type V = Seq<T>;

    /// The elements from the bottom (index 0) to the top.
    closed spec fn view(&self) -> Seq<T> {
        self.stack@
    }
}

impl<T, const STACK_SIZE: usize> Stack<T, STACK_SIZE> {
    /// The stack never holds more elements than it has slots.
    pub open spec fn wf(&self) -> bool {
        self@.len() <= STACK_SIZE
    }

    pub fn new() -> (s: Self)
        requires
            STACK_SIZE > 0,
        ensures
            s.wf(),
            s@ == Seq::<T>::empty(),
    {
        Self { stack: Vec::new() }
    }

    pub fn stack_size(&self) -> (n: usize)
        ensures
            n == STACK_SIZE,
    {
        STACK_SIZE
    }

    pub fn count(&self) -> (n: usize)
        ensures
            n == self@.len(),
    {
        self.stack.len()
    }

    pub fn push(&mut self, val: T)
        requires
            old(self).wf(),
            old(self)@.len() < STACK_SIZE,
        ensures
            final(self).wf(),
            final(self)@ == old(self)@.push(val),
    {
        self.stack.push(val);
    }

    /// Writes `value` into slot `index`. A slot below the top is overwritten; a slot above
    /// it is not part of the stack, so the stack is left as it was.
    pub fn set_at(&mut self, index: usize, value: T)
        requires
            old(self).wf(),
            index < STACK_SIZE,
        ensures
            final(self).wf(),
            final(self)@ == (if index < old(self)@.len() {
                old(self)@.update(index as int, value)
            } else {
                old(self)@
            }),
    {
        if index < self.stack.len() {
            self.stack.set(index, value);
        }
    }

    pub fn pop(&mut self) -> (v: T)
        requires
            old(self).wf(),
            old(self)@.len() > 0,
        ensures
            final(self).wf(),
            v == old(self)@.last(),
            final(self)@ == old(self)@.drop_last(),
    {
        self.stack.pop().unwrap()
    }

    /// Removes the top `n` elements and returns them, from the lowest to the top one.
    pub fn pop_n(&mut self, n: usize) -> (popped: Vec<T>)
        requires
            old(self).wf(),
            n <= old(self)@.len(),
        ensures
            final(self).wf(),
            final(self)@ == old(self)@.subrange(0, old(self)@.len() - n),
            popped@ == old(self)@.subrange(old(self)@.len() - n, old(self)@.len() as int),
    {
        let count = self.stack.len();
        let popped = self.stack.split_off(count - n);
        popped
    }

    pub fn get_ref_at(&self, index: usize) -> (r: &T)
        requires
            index < self@.len(),
        ensures
            *r == self@[index as int],
    {
        &self.stack[index]
    }

    pub fn get_mut_at(&mut self, index: usize) -> (r: &mut T)
        requires
            index < old(self)@.len(),
        ensures
            *r == old(self)@[index as int],
            final(self)@ == old(self)@.update(index as int, *final(r)),
    {
        &mut self.stack[index]
    }

    pub fn top_ref(&self) -> (r: &T)
        requires
            self@.len() > 0,
        ensures
            *r == self@.last(),
    {
        self.get_ref_at(self.stack.len() - 1)
    }

    pub fn top_mut(&mut self) -> (r: &mut T)
        requires
            old(self)@.len() > 0,
        ensures
            *r == old(self)@.last(),
            final(self)@ == old(self)@.update(old(self)@.len() - 1, *final(r)),
    {
        let i = self.stack.len() - 1;
        self.get_mut_at(i)
    }

    pub fn top_mut_offset(&mut self, offset_from_top: usize) -> (r: &mut T)
        requires
            offset_from_top < old(self)@.len(),
        ensures
            *r == old(self)@[old(self)@.len() - 1 - offset_from_top],
            final(self)@ == old(self)@.update(
                old(self)@.len() - 1 - offset_from_top,
                *final(r),
            ),
    {
        let i = self.stack.len() - 1 - offset_from_top;
        self.get_mut_at(i)
    }

    /// The element `offset_from_top` places below the top.
    pub fn peek(&self, offset_from_top: usize) -> (r: &T)
        requires
            offset_from_top < self@.len(),
        ensures
            *r == self@[self@.len() - 1 - offset_from_top],
    {
        self.get_ref_at(self.stack.len() - 1 - offset_from_top)
    }

    /// An iterator from the top of the stack to the bottom.
    pub fn iter<'a>(&'a self) -> (it: StackIter<'a, T, STACK_SIZE>)
        requires
            self@.len() <= isize::MAX,
        ensures
            it.stack() == self,
            it.position() == self@.len() - 1,
    {
        StackIter::new(self)
    }

    /// An iterator from the bottom of the stack to the top.
    pub fn rev_iter<'a>(&'a self) -> (it: StackRevIter<'a, T, STACK_SIZE>)
        ensures
            it.stack() == self,
            it.position() == 0,
    {
        StackRevIter::new(self)
    }

    /// A view of the stack whose indices count from `offset_from_base`.
    pub fn offset<'a>(&'a mut self, offset_from_base: usize) -> (o: StackOffset<'a, T, STACK_SIZE>)
        ensures
            o.base_offset() == offset_from_base,
            *o.stack() == *old(self),
            *final(self) == *final(o.stack()),
    {
        StackOffset::new(self, offset_from_base)
    }
}

impl<T: Copy, const STACK_SIZE: usize> Stack<T, STACK_SIZE> {
    /// A copy of the element at `index`, counted from the bottom.
    pub fn get_at(&self, index: usize) -> (v: T)
        requires
            index < self@.len(),
        ensures
            v == self@[index as int],
    {
        self.stack[index]
    }

    /// A copy of the element `offset_from_top` places below the top.
    pub fn top_offset(&self, offset_from_top: usize) -> (v: T)
        requires
            offset_from_top < self@.len(),
        ensures
            v == self@[self@.len() - 1 - offset_from_top],
    {
        self.get_at(self.stack.len() - 1 - offset_from_top)
    }
}

} // verus!
