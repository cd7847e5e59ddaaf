use vstd::prelude::*;

verus! {

/// An error met while scanning, with its message.
#[derive(Debug)]
pub struct ScannerError {
    message: String,
}

impl ScannerError {
    pub closed spec fn spec_message(&self) -> Seq<char> {
        self.message@
    }

    pub fn new(message: String) -> (e: Self)
        ensures
            e.spec_message() == message@,
    {
        Self { message }
    }

    pub fn get_message(&self) -> (m: &str)
        ensures
            m@ == self.spec_message(),
    {
        self.message.as_str()
    }
}

} // verus!
