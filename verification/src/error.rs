use vstd::prelude::*;

verus! {

/// An error met while compiling or running a program, with its message.
#[derive(Debug)]
pub enum Error {
    Runtime(String),
    CompileTime(String),
}

impl Error {
    /// The message of the error.
    pub fn message(&self) -> (m: &str)
        ensures
            m@ == match self {
                Error::Runtime(s) => s@,
                Error::CompileTime(s) => s@,
            },
    {
        match self {
            Error::Runtime(s) => s.as_str(),
            Error::CompileTime(s) => s.as_str(),
        }
    }
}

} // verus!
