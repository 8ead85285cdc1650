//! The closed set of conditions under which a request ends without a
//! handler's own answer.

use vstd::prelude::*;

verus! {

/// A terminal error of the API. Each one is rendered as the HTTP status
/// given by [`Error::status`], without any further detail.
#[derive(Clone, Copy, Debug, PartialEq, Eq, Structural)]
pub enum Error {
    /// No route matched, or a static file lookup failed.
    NotFound,
    /// A handler rejected the caller's credential.
    Unauthorized,
}

impl Error {
    /// The HTTP status that stands for this error.
    pub open spec fn status_code(self) -> u16 {
        match self {
            Error::NotFound => 404,
            Error::Unauthorized => 401,
        }
    }

    /// The HTTP status that stands for this error.
    pub fn status(&self) -> (code: u16)
        ensures
            code == self.status_code(),
    {
        match self {
            Error::NotFound => 404,
            Error::Unauthorized => 401,
        }
    }
}

/// Run when no route could be found for a request.
pub fn not_found() -> (e: Error)
    ensures
        e == Error::NotFound,
{
    Error::NotFound
}

/// Run when a handler turned the caller's credential down.
pub fn unauthorized() -> (e: Error)
    ensures
        e == Error::Unauthorized,
{
    Error::Unauthorized
}

} // verus!
