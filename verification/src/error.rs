//! The error of every fallible operation.
use vstd::prelude::*;

use crate::text::owned;

verus! {

/// Why an operation was refused, as the message shown to whoever asked for it.
#[derive(Debug)]
pub struct Error {
    pub message: String,
}

impl View for Error {
    type V = Seq<char>;

    open spec fn view(&self) -> Seq<char> {
        self.message@
    }
}

impl Error {
    /// The error with the given message.
    pub fn new(message: String) -> (r: Error)
        ensures
            r@ == message@,
    {
        Error { message }
    }

    /// The error whose message is a fixed text.
    pub fn fixed(message: &str) -> (r: Error)
        ensures
            r@ == message@,
    {
        Error { message: owned(message) }
    }
}

} // verus!
