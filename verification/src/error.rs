//! The application error type. Today the request paths are infallible (content
//! is in memory), so the variants are foundational. The HTTP mapping keeps full
//! detail server-side and gives the client only an opaque status.

use vstd::prelude::*;

verus! {

/// An application error.
#[derive(Debug)]
pub enum Error {
    /// A requested entity does not exist.
    NotFound { entity: &'static str },
    /// The caller is not permitted to perform the action.
    Unauthorized,
    /// An unexpected internal failure (DB, IO, …) - never surfaced to clients.
    Internal(String),
}

impl Error {
    /// The HTTP status the error is answered with: 404, 401, or 500; the body
    /// is empty whatever the detail.
    pub fn status_code(&self) -> (code: u16)
        ensures
            code == match self {
                Error::NotFound { .. } => 404u16,
                Error::Unauthorized => 401u16,
                Error::Internal(_) => 500u16,
            },
    {
        match self {
            Error::NotFound { .. } => 404,
            Error::Unauthorized => 401,
            Error::Internal(_) => 500,
        }
    }
}

} // verus!
