use vstd::prelude::*;

verus! {

/// An iterator that hands out copies of the first `count` elements of a buffer it owns.
#[derive(Debug)]
pub struct OwnedPtrIter<T> {
    data: Vec<T>,
    count: usize,
    index: usize,
}

impl<T> OwnedPtrIter<T> {
    /// The elements still to be handed out, in order.
    pub closed spec fn remaining(&self) -> Seq<T> {
        self.data@.subrange(self.index as int, self.count as int)
    }

    /// Fewer than `count` elements are never read.
    pub closed spec fn wf(&self) -> bool {
        self.index <= self.count <= self.data@.len()
    }

    pub fn new(data: Vec<T>, count: usize) -> (it: Self)
        requires
            count <= data@.len(),
        ensures
            it.wf(),
            it.remaining() == data@.subrange(0, count as int),
    {
        Self { data, count, index: 0 }
    }
}

impl<T: Copy> OwnedPtrIter<T> {
    /// The next element, or `None` once `count` elements have been handed out.
    pub fn next(&mut self) -> (r: Option<T>)
        requires
            old(self).wf(),
        ensures
            final(self).wf(),
            old(self).remaining().len() == 0 ==> r is None && final(self).remaining() == old(
                self,
            ).remaining(),
            old(self).remaining().len() > 0 ==> r == Some(old(self).remaining()[0])
                && final(self).remaining() == old(self).remaining().drop_first(),
    {
        if self.index < self.count {
            let item = self.data[self.index];
            self.index = self.index + 1;
            assert(self.remaining() =~= old(self).remaining().drop_first());
            Some(item)
        } else {
            None
        }
    }
}

} // verus!
