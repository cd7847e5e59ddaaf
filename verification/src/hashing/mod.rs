mod fnv1a;
mod hash_method;
mod hashable;

pub use fnv1a::{fnv1a_offset_basis, fnv1a_prime, fnv1a_spec, fnv1a_step, FNV1a};
pub use hash_method::HashMethod;
pub use hashable::Hashable;

use vstd::prelude::*;

verus! {

/// The hashing method used throughout the interpreter.
pub type GlobalHashMethod = FNV1a;

} // verus!
