use vstd::prelude::*;

verus! {

/// The number of slots of a light stack.
pub const STACK_MAX: usize = 1024;

/// A stack of at most `STACK_MAX` copyable values in a fixed block of slots.
pub struct LightStack<T> {
    stack: Vec<T>,
    stack_top: usize,
}

impl<T: Default + Copy> LightStack<T> {
    /// The values on the stack, from the bottom to the top.
    pub closed spec fn values(&self) -> Seq<T> {
        self.stack@.subrange(0, self.stack_top as int)
    }

    /// The block has its `STACK_MAX` slots and the top lies in it.
    pub closed spec fn wf(&self) -> bool {
        &&& self.stack@.len() == STACK_MAX
        &&& self.stack_top <= STACK_MAX
    }

    /// A stack whose slots all hold the default value, with nothing on it.
    pub fn new() -> (s: Self)
        ensures
            s.wf(),
            s.values() == Seq::<T>::empty(),
    {
        let val = T::default();
        let mut stack: Vec<T> = Vec::new();
        let mut i: usize = 0;
        while i < STACK_MAX
            invariant
                0 <= i <= STACK_MAX,
                stack@.len() == i,
            decreases STACK_MAX - i,
        {
            stack.push(val);
            i = i + 1;
        }
        Self { stack, stack_top: 0 }
    }

    /// The number of values on the stack.
    pub fn count(&self) -> (n: isize)
        requires
            self.wf(),
        ensures
            n == self.values().len(),
    {
        self.stack_top as isize
    }

    /// Prepares the stack for use: it is emptied.
    pub fn init(&mut self)
        requires
            old(self).wf(),
        ensures
            final(self).wf(),
            final(self).values() == Seq::<T>::empty(),
    {
        self.reset()
    }

    /// Empties the stack.
    pub fn reset(&mut self)
        requires
            old(self).wf(),
        ensures
            final(self).wf(),
            final(self).values() == Seq::<T>::empty(),
    {
        self.stack_top = 0;
    }

    /// The top value, for changing in place.
    pub fn get_top_mut_ref(&mut self) -> (r: &mut T)
        requires
            old(self).wf(),
            old(self).values().len() > 0,
        ensures
            *r == old(self).values().last(),
            final(self).wf(),
            final(self).values() == old(self).values().update(
                old(self).values().len() - 1,
                *final(r),
            ),
    {
        let i = self.stack_top - 1;
        &mut self.stack[i]
    }

    pub fn push(&mut self, val: T)
        requires
            old(self).wf(),
            old(self).values().len() < STACK_MAX,
        ensures
            final(self).wf(),
            final(self).values() == old(self).values().push(val),
    {
        self.stack.set(self.stack_top, val);
        self.stack_top = self.stack_top + 1;
        assert(self.values() =~= old(self).values().push(val));
    }

    pub fn pop(&mut self) -> (v: T)
        requires
            old(self).wf(),
            old(self).values().len() > 0,
        ensures
            final(self).wf(),
            v == old(self).values().last(),
            final(self).values() == old(self).values().drop_last(),
    {
        self.stack_top = self.stack_top - 1;
        let v = self.stack[self.stack_top];
        assert(self.values() =~= old(self).values().drop_last());
        v
    }
}

} // verus!
