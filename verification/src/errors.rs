//! Error values surfaced by the fallible operations of the core.

use vstd::prelude::*;

verus! {

/// The condition that made an operation fail.
#[derive(Clone, Copy, PartialEq, Eq, Structural, Debug)]
pub enum Code {
    /// No free area can satisfy the requested size at the requested
    /// alignment.
    NoSpace,
}

/// A typed error returned to the caller of a fallible operation.
#[derive(Clone, Copy, PartialEq, Eq, Structural, Debug)]
pub struct Error {
    pub code: Code,
}

impl Error {
    pub fn new(code: Code) -> (r: Error)
        ensures
            r.code == code,
    {
        Error { code }
    }

    pub fn code(&self) -> (r: Code)
        ensures
            r == self.code,
    {
        self.code
    }
}

} // verus!
