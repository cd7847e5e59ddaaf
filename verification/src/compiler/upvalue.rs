use vstd::prelude::*;

verus! {

/// A variable captured by a closure: a local slot of the enclosing function when
/// `is_local`, else an upvalue of the enclosing function.
#[derive(Debug, Clone, Copy)]
pub struct Upvalue {
    pub is_local: bool,
    pub index: u16,
}

} // verus!
