//! The error that tools report: one line of text for the person who asked.

use crate::text::owned;
use vstd::prelude::*;

verus! {

/// A failure, told in words.
#[derive(Debug)]
pub struct Error {
    pub message: String,
}

impl View for Error {
    type V = Seq<char>;

    open spec fn view(&self) -> Seq<char> {
        self.message@
    }
}

impl Error {
    pub fn new(message: String) -> (r: Error)
        ensures
            r@ == message@,
    {
        Error { message }
    }

    pub fn of(message: &str) -> (r: Error)
        ensures
            r@ == message@,
    {
        Error { message: owned(message) }
    }

    /// The words of the error.
    pub fn to_string(&self) -> (r: String)
        ensures
            r@ == self@,
    {
        self.message.clone()
    }
}

} // verus!
