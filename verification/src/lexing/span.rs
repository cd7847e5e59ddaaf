use crate::hashing::{fnv1a_spec, GlobalHashMethod, HashMethod};
use vstd::prelude::*;

verus! {

/// The place of a lexeme in the source: a range of byte indices and the hash of the bytes,
/// which lets a lexeme be checked against the source it is read from.
#[derive(Clone, Copy, Debug)]
pub struct Span {
    start_index: usize,
    end_index: usize,
    hash: u32,
}

impl Span {
    pub closed spec fn start(&self) -> usize {
        self.start_index
    }

    pub closed spec fn end(&self) -> usize {
        self.end_index
    }

    pub closed spec fn spec_hash(&self) -> u32 {
        self.hash
    }

    /// The span lies in `source` and its hash is the hash of the bytes it covers.
    pub open spec fn fits(&self, source: Seq<u8>) -> bool {
        &&& self.start() <= self.end() <= source.len()
        &&& self.spec_hash() == fnv1a_spec(source.subrange(self.start() as int, self.end() as int))
    }

    pub fn new(start_index: usize, end_index: usize, hash: u32) -> (s: Self)
        ensures
            s.start() == start_index,
            s.end() == end_index,
            s.spec_hash() == hash,
    {
        Self { start_index, end_index, hash }
    }

    /// The bytes of the lexeme in `source`, after checking that the span belongs to it.
    pub fn get_str<'a>(&self, source: &'a [u8]) -> (r: &'a [u8])
        requires
            self.fits(source@),
        ensures
            r@ == source@.subrange(self.start() as int, self.end() as int),
    {
        let byte_slice = vstd::slice::slice_subrange(source, self.start_index, self.end_index);
        byte_slice
    }
}

} // verus!
