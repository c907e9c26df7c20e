//! The library's error: a message that says what was wrong with the input.

use vstd::prelude::*;
use crate::text::owned;

verus! {

/// An error with a human-readable message.
#[derive(Debug, Clone)]
pub struct ReformatError {
    message: String,
}

impl View for ReformatError {
    type V = Seq<char>;

    closed spec fn view(&self) -> Seq<char> {
        self.message@
    }
}

impl ReformatError {
    /// An error carrying `message`.
    pub fn new(message: String) -> (r: ReformatError)
        ensures
            r@ == message@,
    {
        ReformatError { message }
    }

    /// The message.
    pub fn message(&self) -> (r: &str)
        ensures
            r@ == self@,
    {
        self.message.as_str()
    }

    /// The message, owned.
    pub fn to_string(&self) -> (r: String)
        ensures
            r@ == self@,
    {
        owned(self.message.as_str())
    }
}

} // verus!
