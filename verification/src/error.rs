//! Caller-facing error taxonomy shared by every operation of the core.

use vstd::prelude::*;

verus! {

/// Why an operation was refused.
///
/// - `Unauthorized`: bad or missing credentials, or a role mismatch.
/// - `NotFound`: unknown session or participant.
/// - `Conflict`: delete while occupied, duplicate registration, or a stale
///   state transition.
/// - `BadRequest`: malformed payload.
/// - `Internal`: storage or transport failure.
#[derive(Clone, Copy, Debug, PartialEq, Eq, Structural)]
pub enum HttpError {
    Unauthorized,
    NotFound,
    Conflict,
    BadRequest,
    Internal,
}

impl HttpError {
    /// The HTTP status code each variant maps to.
    pub open spec fn spec_status_code(self) -> u16 {
        match self {
            HttpError::Unauthorized => 401,
            HttpError::NotFound => 404,
            HttpError::Conflict => 409,
            HttpError::BadRequest => 400,
            HttpError::Internal => 500,
        }
    }

    /// HTTP status code for this error.
    pub fn status_code(&self) -> (code: u16)
        ensures
            code == self.spec_status_code(),
    {
        match self {
            HttpError::Unauthorized => 401,
            HttpError::NotFound => 404,
            HttpError::Conflict => 409,
            HttpError::BadRequest => 400,
            HttpError::Internal => 500,
        }
    }
}

} // verus!
