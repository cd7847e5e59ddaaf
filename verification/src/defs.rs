use crate::value::Value;
use vstd::prelude::*;

verus! {

/// A named variable and its value.
#[derive(Debug)]
pub struct Variable {
    pub name: String,
    pub value: Value,
}

/// A named argument of a call and its value.
#[derive(Debug)]
pub struct Argument {
    pub name: String,
    pub value: Value,
}

/// The source text of a function's body.
#[derive(Debug)]
pub struct FunctionBody {
    pub code: String,
}

/// A function of the statement language: its name, arguments, body and return value.
#[derive(Debug)]
pub struct Function {
    pub name: String,
    pub args: Vec<Argument>,
    pub body: FunctionBody,
    pub ret_val: Value,
}

} // verus!
