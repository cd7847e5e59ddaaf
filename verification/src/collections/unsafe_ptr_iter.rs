use vstd::prelude::*;

verus! {

/// An iterator that lends out the first `len` elements of a buffer that lives for the
/// whole run of the program.
pub struct UnsafePtrIter<T: 'static> {
    data: &'static [T],
    len: usize,
    index: usize,
}

impl<T: 'static> UnsafePtrIter<T> {
    /// The elements still to be handed out, in order.
    pub closed spec fn remaining(&self) -> Seq<T> {
        self.data@.subrange(self.index as int, self.len as int)
    }

    /// Fewer than `len` elements are never read.
    pub closed spec fn wf(&self) -> bool {
        self.index <= self.len <= self.data@.len()
    }

    pub fn new(data: &'static [T], len: usize) -> (it: Self)
        requires
            len <= data@.len(),
        ensures
            it.wf(),
            it.remaining() == data@.subrange(0, len as int),
    {
        Self { data, len, index: 0 }
    }

    /// The next element, or `None` once `len` elements have been handed out.
    pub fn next(&mut self) -> (r: Option<&'static T>)
        requires
            old(self).wf(),
        ensures
            final(self).wf(),
            old(self).remaining().len() == 0 ==> r is None && final(self).remaining() == old(
                self,
            ).remaining(),
            old(self).remaining().len() > 0 ==> r == Some(&old(self).remaining()[0])
                && final(self).remaining() == old(self).remaining().drop_first(),
    {
        if self.index >= self.len {
            return None;
        }
        let val = &self.data[self.index];
        self.index = self.index + 1;
        assert(self.remaining() =~= old(self).remaining().drop_first());
        Some(val)
    }
}

} // verus!
