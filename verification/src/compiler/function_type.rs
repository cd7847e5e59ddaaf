use vstd::prelude::*;

verus! {

/// Whether the code being compiled is a function body or the top-level script.
#[derive(Debug, PartialEq, Eq, Structural, Clone, Copy)]
pub enum FunctionType {
    Function,
    Script,
}

} // verus!
