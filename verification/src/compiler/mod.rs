pub mod chunk;
mod compiler;
mod function_type;
pub mod local;
pub mod upvalue;

pub use compiler::{Compiler, Diagnostic, ErrorPlace, JumpIndecies};
pub use function_type::FunctionType;
