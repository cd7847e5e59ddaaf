mod borrowed_ptr_iter;
mod dynarray;
mod encoded_dynarray;
mod hash_table;
mod owned_ptr_iter;
mod stack;
mod stack_iter;
mod stack_offset;
mod stack_rev_iter;
mod unsafe_ptr_iter;

pub use borrowed_ptr_iter::BorrowedIter;
pub use dynarray::{DynArray, DynArrayIter};
pub use encoded_dynarray::EncodedDynArray;
pub use hash_table::{Bucket, Entry, HashTable};
pub use owned_ptr_iter::OwnedPtrIter;
pub use stack::{Stack, DEFAULT_STACK_SIZE};
pub use stack_iter::StackIter;
pub use stack_offset::StackOffset;
pub use stack_rev_iter::StackRevIter;
pub use unsafe_ptr_iter::UnsafePtrIter;
