use vstd::prelude::*;

verus! {

/// A simplified alternative to the `Hash` trait from the standard library:
/// a value that knows its own 32-bit hash.
pub trait Hashable {
    /// The hash of the value, as a mathematical function of the value.
    spec fn spec_hash(&self) -> u32;

    fn get_hash(&self) -> (h: u32)
        ensures
            h == self.spec_hash(),
    ;
}

} // verus!
