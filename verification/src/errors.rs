//! The closed set of failures the transition engine can report. Every error
//! is returned synchronously as a value; no operation panics or partially
//! commits.

use vstd::prelude::*;

verus! {

#[derive(Debug, Clone, Copy, PartialEq, Eq)]
pub enum MyCustomError {
    /// An item or profile whose existence the operation requires is absent.
    NotFound,
    /// A profile already exists for the identity that tried to register.
    AlreadyRegistered,
    /// The funds check failed: too small an amount, or the wrong
    /// denomination.
    InsufficientFunds,
    /// Malformed genesis parameters.
    InvalidInput,
}

impl MyCustomError {
    /// A human-readable description of the failure, for the dispatcher to
    /// surface beside the error kind.
    pub fn message(&self) -> (r: &'static str)
        ensures
            self is NotFound ==> r@ == "not found"@,
            self is AlreadyRegistered ==> r@ == "a gardener with the sender address already exists"@,
            self is InsufficientFunds ==> r@ == "insufficient funds"@,
            self is InvalidInput ==> r@ == "invalid input"@,
    {
        match self {
            MyCustomError::NotFound => "not found",
            MyCustomError::AlreadyRegistered => "a gardener with the sender address already exists",
            MyCustomError::InsufficientFunds => "insufficient funds",
            MyCustomError::InvalidInput => "invalid input",
        }
    }
}

} // verus!
