pub mod scanner;
pub mod scanner_error;
pub mod span;
pub mod token;
