use vstd::prelude::*;

verus! {

/// A thing with a fixed name that identifies it.
pub trait Identifiable {
    fn get_identifier(&self) -> &'static str;
}

} // verus!
