use vstd::prelude::*;

verus! {

/// A hash function over raw bytes.
pub trait HashMethod {
    /// The hash of a byte sequence, as a mathematical function.
    spec fn spec_hash(data: Seq<u8>) -> u32;

    fn hash(data: &[u8]) -> (h: u32)
        ensures
            h == Self::spec_hash(data@),
    ;
}

} // verus!
