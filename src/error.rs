//! The errors of the request logic, and the responses they turn into.
use vstd::prelude::*;

verus! {

/// What went wrong while handling a request.
#[derive(Debug, Clone)]
pub enum AppError {
    /// The caller's input is invalid.
    BadRequest(String),
    /// The endpoint does not serve this request, or the resource is absent.
    NotFound(String),
    /// An unexpected failure; the detail is for the server log only.
    InternalServerError(String),
}

impl AppError {
    pub fn bad_request(message: &str) -> (r: AppError)
        ensures
            r matches AppError::BadRequest(m) && m@ == message@,
    {
        AppError::BadRequest(String::from_str(message))
    }

    pub fn not_found(message: &str) -> (r: AppError)
        ensures
            r matches AppError::NotFound(m) && m@ == message@,
    {
        AppError::NotFound(String::from_str(message))
    }

    pub fn internal(detail: &str) -> (r: AppError)
        ensures
            r matches AppError::InternalServerError(m) && m@ == detail@,
    {
        AppError::InternalServerError(String::from_str(detail))
    }

    /// The HTTP status and the message that the caller sees. An internal
    /// error shows a fixed message and never its detail.
    pub fn status_and_message(&self) -> (r: (u16, String))
        ensures
            r.0 == match self {
                AppError::BadRequest(_) => 400u16,
                AppError::NotFound(_) => 404u16,
                AppError::InternalServerError(_) => 500u16,
            },
            r.1@ == match self {
                AppError::BadRequest(m) => m@,
                AppError::NotFound(m) => m@,
                AppError::InternalServerError(_) => "Internal server error"@,
            },
    {
        match self {
            AppError::BadRequest(m) => (400, m.clone()),
            AppError::NotFound(m) => (404, m.clone()),
            AppError::InternalServerError(_) => (500, String::from_str("Internal server error")),
        }
    }
}

} // verus!
