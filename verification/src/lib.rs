use vstd::prelude::*;

pub mod chunk;
pub mod code_reader;
pub mod collections;
pub mod compiler;
pub mod debug;
pub mod defs;
pub mod encoding;
pub mod error;
pub mod hashing;
pub mod identifiable;
pub mod keyword;
pub mod lexing;
pub mod light_stack;
pub mod utils;
pub mod value;
pub mod vm;

verus! {

} // verus!
