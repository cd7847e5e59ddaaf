use crate::lexing::token::Token;
use vstd::prelude::*;

verus! {

/// A local variable of the function being compiled.
#[derive(Debug, Clone, Copy)]
pub struct Local {
    name: Option<Token>,
    depth: i32,
    is_captured: bool,
}

impl Local {
    /// The name token; none for a reserved slot.
    pub closed spec fn spec_name(&self) -> Option<Token> {
        self.name
    }

    /// The scope depth the variable was declared in; -1 while it is uninitialised.
    pub closed spec fn spec_depth(&self) -> i32 {
        self.depth
    }

    /// Whether a closure captures the variable.
    pub closed spec fn spec_captured(&self) -> bool {
        self.is_captured
    }

    pub fn new(name: Token, depth: i32) -> (l: Self)
        ensures
            l.spec_name() == Some(name),
            l.spec_depth() == depth,
            !l.spec_captured(),
    {
        Self { name: Some(name), depth, is_captured: false }
    }

    /// A local with no name, used to reserve a stack slot.
    pub fn dummy() -> (l: Self)
        ensures
            l.spec_name() is None,
            l.spec_depth() == -1,
            !l.spec_captured(),
    {
        Self { name: None, depth: -1, is_captured: false }
    }

    pub fn get_name(&self) -> (n: Option<&Token>)
        ensures
            match n {
                Some(t) => self.spec_name() == Some(*t),
                None => self.spec_name() is None,
            },
    {
        self.name.as_ref()
    }

    pub fn get_depth(&self) -> (d: i32)
        ensures
            d == self.spec_depth(),
    {
        self.depth
    }

    pub fn capture(&mut self)
        ensures
            final(self).spec_captured(),
            final(self).spec_name() == old(self).spec_name(),
            final(self).spec_depth() == old(self).spec_depth(),
    {
        self.is_captured = true;
    }

    pub fn is_captured(&self) -> (b: bool)
        ensures
            b == self.spec_captured(),
    {
        self.is_captured
    }

    pub fn initialize(&mut self, depth: i32)
        ensures
            final(self).spec_depth() == depth,
            final(self).spec_name() == old(self).spec_name(),
            final(self).spec_captured() == old(self).spec_captured(),
    {
        self.depth = depth;
    }

    /// Whether the variable has been given its value: an uninitialised local has depth -1.
    pub fn is_initialized(&self) -> (b: bool)
        ensures
            b == (self.spec_depth() != -1),
    {
        self.depth != -1
    }
}

} // verus!
