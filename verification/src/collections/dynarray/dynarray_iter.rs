use crate::collections::DynArray;
use vstd::prelude::*;

verus! {

/// An iterator that takes ownership of an array and hands its elements out one by one,
/// from the first to the last.
pub struct DynArrayIter<T> {
    inner: DynArray<T>,
    index: usize,
}

impl<T> View for DynArrayIter<T> {
    type V = Seq<T>;

    /// The elements that are still to be handed out, in order.
    closed spec fn view(&self) -> Seq<T> {
        self.inner@
    }
}

impl<T> DynArrayIter<T> {
    pub fn new(inner: DynArray<T>) -> (it: Self)
        ensures
            it@ == inner@,
    {
        Self { inner, index: 0 }
    }

    /// The next element, or `None` once every element has been handed out.
    pub fn next(&mut self) -> (r: Option<T>)
        ensures
            old(self)@.len() == 0 ==> r is None && final(self)@ == old(self)@,
            old(self)@.len() > 0 ==> r == Some(old(self)@[0]) && final(self)@ == old(
                self,
            )@.subrange(1, old(self)@.len() as int),
    {
        if self.inner.get_count() == 0 {
            return None;
        }
        let v = self.inner.remove_at(0);
        self.index = self.index.wrapping_add(1);
        assert(old(self)@.remove(0) =~= old(self)@.subrange(1, old(self)@.len() as int));
        Some(v)
    }
}

} // verus!
