//! Failure taxonomy of the change-feed core.
//!
//! A malformed key on decode is fatal to the current read and never retried;
//! a failure of the storage collaborator is propagated verbatim and never
//! masked.  No operation partially succeeds.

use vstd::prelude::*;

verus! {

/// What can go wrong inside the change-feed core.
#[derive(Clone, Copy, Debug, PartialEq, Eq, Structural)]
pub enum Error {
    /// A malformed key was met while decoding.
    Encoding,
    /// The storage collaborator failed.
    Store,
    /// The oracle could not produce a fresh value.
    Clock,
    /// An argument lay outside a function's domain.
    Invalid,
}

impl Error {
    /// A short human-readable name of the failure class.
    pub fn text(&self) -> (r: &'static str)
        ensures
            self is Encoding ==> r@ == "encoding error"@,
            self is Store ==> r@ == "store error"@,
            self is Clock ==> r@ == "clock error"@,
            self is Invalid ==> r@ == "invalid argument"@,
    {
        match self {
            Error::Encoding => "encoding error",
            Error::Store => "store error",
            Error::Clock => "clock error",
            Error::Invalid => "invalid argument",
        }
    }
}

} // verus!
