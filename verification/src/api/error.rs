//! Errors of the HTTP surface.

use crate::error::Error;
use vstd::prelude::*;

verus! {

/// An error with the HTTP status it is answered with.
#[derive(Debug, Clone)]
pub struct ApiError {
    pub status: u16,
    pub message: String,
}

/// HTTP status of a request that cannot be served as it is.
pub const BAD_REQUEST: u16 = 400;

/// HTTP status of something that does not exist.
pub const NOT_FOUND: u16 = 404;

/// HTTP status of a failure of the server.
pub const INTERNAL: u16 = 500;

/// The HTTP status that an error of the library is answered with: 404 for
/// a model that is not there, 400 for a configuration that is wrong, 500
/// for everything else.
pub open spec fn spec_status_of(error: Error) -> u16 {
    match error {
        Error::ModelNotFound(_) => 404,
        Error::ConfigError(_) => 400,
        _ => 500,
    }
}

impl ApiError {
    pub fn bad_request(message: String) -> (error: Self)
        ensures
            error.status == 400,
            error.message == message,
    {
        ApiError { status: BAD_REQUEST, message }
    }

    pub fn not_found(message: String) -> (error: Self)
        ensures
            error.status == 404,
            error.message == message,
    {
        ApiError { status: NOT_FOUND, message }
    }

    pub fn internal(message: String) -> (error: Self)
        ensures
            error.status == 500,
            error.message == message,
    {
        ApiError { status: INTERNAL, message }
    }

    /// The error that the HTTP surface answers with to an error of the
    /// library.
    pub fn from_error(error: &Error) -> (api_error: Self)
        ensures
            api_error.status == spec_status_of(*error),
            api_error.message@ == error.spec_prefix() + error.spec_cause(),
    {
        match error {
            Error::ModelNotFound(_) => ApiError::not_found(error.message()),
            Error::ConfigError(_) => ApiError::bad_request(error.message()),
            _ => ApiError::internal(error.message()),
        }
    }
}

} // verus!
