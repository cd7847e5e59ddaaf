use vstd::prelude::*;

verus! {

/// An iterator that lends out the elements of a slice, from the first to the last.
#[derive(Debug)]
pub struct BorrowedIter<'a, T> {
    data: &'a [T],
    index: usize,
}

impl<'a, T> BorrowedIter<'a, T> {
    /// The slice being walked.
    pub closed spec fn data(&self) -> Seq<T> {
        self.data@
    }

    /// The index of the next element to hand out.
    pub closed spec fn position(&self) -> nat {
        self.index as nat
    }

    pub fn new(data: &'a [T]) -> (it: Self)
        ensures
            it.data() == data@,
            it.position() == 0,
    {
        Self { data, index: 0 }
    }

    /// The next element, or `None` once the end of the slice has been reached.
    pub fn next(&mut self) -> (r: Option<&'a T>)
        ensures
            final(self).data() == old(self).data(),
            old(self).position() >= old(self).data().len() ==> r is None && final(self).position()
                == old(self).position(),
            old(self).position() < old(self).data().len() ==> r == Some(
                &old(self).data()[old(self).position() as int],
            ) && final(self).position() == old(self).position() + 1,
    {
        if self.index < self.data.len() {
            let item = &self.data[self.index];
            self.index = self.index + 1;
            Some(item)
        } else {
            None
        }
    }
}

} // verus!
