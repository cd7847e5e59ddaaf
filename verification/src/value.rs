use crate::compiler::chunk::Chunk;
use crate::compiler::upvalue::Upvalue;
use vstd::prelude::*;

verus! {

/// A value of the language as the compiler stores it among a chunk's constants.
#[derive(Debug)]
pub enum Value {
    Bool(bool),
    /// A number, kept as the digits of its literal; the machine that runs the code reads them.
    Number(Vec<u8>),
    Object(Object),
}

/// A value that lives on the heap of the machine that runs the code.
#[derive(Debug)]
pub enum Object {
    /// A string, by its bytes.
    String(Vec<u8>),
    Function(Box<Function>),
}

/// A compiled function: its arity, its code, its name (none for the top-level script), the
/// number of variables it captures from enclosing functions and which ones they are.
#[derive(Debug)]
pub struct Function {
    pub arity: u8,
    pub chunk: Chunk,
    pub name: Option<Vec<u8>>,
    pub upvalue_count: u16,
    /// The captured variables, in the order of their upvalue indices.
    pub upvalues: Vec<Upvalue>,
}

impl Function {
    /// A function with no parameters, no code and no captured variables.
    pub fn new(name: Option<Vec<u8>>) -> (f: Self)
        ensures
            f.arity == 0,
            f.chunk.wf(),
            f.chunk.code() == Seq::<u8>::empty(),
            f.chunk.constants().len() == 0,
            f.name == name,
            f.upvalue_count == 0,
            f.upvalues@.len() == 0,
    {
        Function { arity: 0, chunk: Chunk::new(), name, upvalue_count: 0, upvalues: Vec::new() }
    }
}

} // verus!
