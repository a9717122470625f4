//! The error taxonomy of the core, and its mapping to an HTTP-style
//! status-and-message response.

use vstd::prelude::*;

verus! {

/// Errors surfaced by the repository, the remote adapter and the sync engine.
///
/// `NotFound` is a missed local lookup. `BadRequest` is a malformed or
/// missing required field, fatal to one push but scoped to one record during
/// a fetch. `Conflict` is a key collision in the local store.
/// `InternalServerError` stands for a transient failure of the remote
/// service; a sync run it aborts is safe to retry.
#[derive(Clone, Debug, PartialEq)]
pub enum AppError {
    NotFound,
    BadRequest(String),
    Conflict(String),
    InternalServerError,
}

/// The response body reported for a failed request.
#[derive(Clone, Debug, PartialEq)]
pub struct ErrorResponse {
    pub error: String,
    pub message: String,
}

impl AppError {
    /// The HTTP status code this error maps to.
    pub fn status_code(&self) -> (r: u16)
        ensures
            r == (match self {
                AppError::NotFound => 404u16,
                AppError::BadRequest(_) => 400u16,
                AppError::Conflict(_) => 409u16,
                AppError::InternalServerError => 500u16,
            }),
    {
        match self {
            AppError::NotFound => 404,
            AppError::BadRequest(_) => 400,
            AppError::Conflict(_) => 409,
            AppError::InternalServerError => 500,
        }
    }

    /// The response body for this error: the status line as the error field,
    /// and the human-readable message.
    pub fn to_response(&self) -> (r: ErrorResponse)
        ensures
            match self {
                AppError::NotFound => r.error@ == "404 Not Found"@ && r.message@
                    == "Not Found"@,
                AppError::BadRequest(m) => r.error@ == "400 Bad Request"@ && r.message@ == m@,
                AppError::Conflict(m) => r.error@ == "409 Conflict"@ && r.message@ == m@,
                AppError::InternalServerError => r.error@ == "500 Internal Server Error"@
                    && r.message@ == "Internal server error"@,
            },
    {
        match self {
            AppError::NotFound => ErrorResponse {
                error: "404 Not Found".to_owned(),
                message: "Not Found".to_owned(),
            },
            AppError::BadRequest(m) => ErrorResponse {
                error: "400 Bad Request".to_owned(),
                message: m.clone(),
            },
            AppError::Conflict(m) => ErrorResponse {
                error: "409 Conflict".to_owned(),
                message: m.clone(),
            },
            AppError::InternalServerError => ErrorResponse {
                error: "500 Internal Server Error".to_owned(),
                message: "Internal server error".to_owned(),
            },
        }
    }
}

} // verus!
