//! The error taxonomy shared by every component.
//!
//! Kinds, not shapes: `NotFound` (no record matches a key or query),
//! `Conflict` (uniqueness violation), `BadRequest` (malformed caller
//! input), `Unauthorized` (missing, invalid or expired credential, failed
//! CSRF check, failed signature), `Forbidden` (valid credential, wrong
//! scope of use) and `Internal` (unexpected decode or transport failure).

use vstd::prelude::*;

verus! {

/// The kind of a failure, which the HTTP layer would translate to a
/// status code.
#[derive(Clone, Copy, Debug, PartialEq, Eq, Structural)]
pub enum ErrorKind {
    NotFound,
    Conflict,
    BadRequest,
    Unauthorized,
    Forbidden,
    Internal,
}

/// An error of the library: a kind plus a human-readable message.
#[derive(Clone, Debug)]
pub struct AppError {
    pub kind: ErrorKind,
    pub message: String,
}

impl AppError {
    pub fn not_found(message: &str) -> (r: AppError)
        ensures
            r.kind == ErrorKind::NotFound,
    {
        AppError { kind: ErrorKind::NotFound, message: message.to_owned() }
    }

    pub fn conflict(message: &str) -> (r: AppError)
        ensures
            r.kind == ErrorKind::Conflict,
    {
        AppError { kind: ErrorKind::Conflict, message: message.to_owned() }
    }

    pub fn bad_request(message: &str) -> (r: AppError)
        ensures
            r.kind == ErrorKind::BadRequest,
    {
        AppError { kind: ErrorKind::BadRequest, message: message.to_owned() }
    }

    pub fn unauthorized(message: &str) -> (r: AppError)
        ensures
            r.kind == ErrorKind::Unauthorized,
    {
        AppError { kind: ErrorKind::Unauthorized, message: message.to_owned() }
    }

    pub fn forbidden(message: &str) -> (r: AppError)
        ensures
            r.kind == ErrorKind::Forbidden,
    {
        AppError { kind: ErrorKind::Forbidden, message: message.to_owned() }
    }

    pub fn internal_server_error(message: &str) -> (r: AppError)
        ensures
            r.kind == ErrorKind::Internal,
    {
        AppError { kind: ErrorKind::Internal, message: message.to_owned() }
    }
}

} // verus!
