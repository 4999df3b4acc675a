use vstd::prelude::*;

verus! {

/// The errors that the core hands back to its callers.
///
/// Failures inside hashing or signing are reported as `Server`, with a text
/// that carries no detail of the failure.
#[derive(Debug, PartialEq, Eq)]
pub enum Error {
    NotFound(String),
    AlreadyExisting(String),
    WeakPassword(String),
    InvalidCredentials,
    BadRequest(String),
    Unauthorized(String),
    Server(String),
}

impl Error {
    /// The HTTP status that reports this error: 404 for a missing entity,
    /// 401 for a refused session, 500 for an internal failure, and 400 for
    /// the rest.
    pub fn status_code(&self) -> (r: u16)
        ensures
            self is NotFound ==> r == 404,
            self is Unauthorized ==> r == 401,
            self is Server ==> r == 500,
            self is AlreadyExisting || self is WeakPassword || self is InvalidCredentials
                || self is BadRequest ==> r == 400,
    {
        match self {
            Error::NotFound(_) => 404,
            Error::Unauthorized(_) => 401,
            Error::Server(_) => 500,
            _ => 400,
        }
    }
}

} // verus!
