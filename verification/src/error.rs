//! The service error type and its HTTP projection.

use vstd::prelude::*;
use crate::text::concat;

verus! {

/// Service-level errors.  Each variant carries a human-readable
/// message; the variant decides the HTTP status and error code of the
/// response.
#[derive(Debug, Clone)]
pub enum Error {
    NotFound(String),
    BadRequest(String),
    Unauthorized(String),
    Forbidden(String),
    Conflict(String),
    InternalServer(String),
    Database(String),
    Validation(String),
    InvalidInput(String),
}

/// The message carried by an error.
pub open spec fn spec_message(e: Error) -> Seq<char> {
    match e {
        Error::NotFound(m) => m@,
        Error::BadRequest(m) => m@,
        Error::Unauthorized(m) => m@,
        Error::Forbidden(m) => m@,
        Error::Conflict(m) => m@,
        Error::InternalServer(m) => m@,
        Error::Database(m) => m@,
        Error::Validation(m) => m@,
        Error::InvalidInput(m) => m@,
    }
}

/// The display prefix of an error variant.
pub open spec fn spec_prefix(e: Error) -> Seq<char> {
    match e {
        Error::NotFound(_) => "Not found: "@,
        Error::BadRequest(_) => "Bad request: "@,
        Error::Unauthorized(_) => "Unauthorized: "@,
        Error::Forbidden(_) => "Forbidden: "@,
        Error::Conflict(_) => "Conflict: "@,
        Error::InternalServer(_) => "Internal server error: "@,
        Error::Database(_) => "Database error: "@,
        Error::Validation(_) => "Validation error: "@,
        Error::InvalidInput(_) => "Invalid input: "@,
    }
}

impl Error {
    /// The HTTP status this error maps to.
    pub fn status_code(&self) -> (s: u16)
        ensures
            s == (match self {
                Error::NotFound(_) => 404u16,
                Error::BadRequest(_) => 400u16,
                Error::Unauthorized(_) => 401u16,
                Error::Forbidden(_) => 403u16,
                Error::Conflict(_) => 409u16,
                Error::InternalServer(_) => 500u16,
                Error::Database(_) => 500u16,
                Error::Validation(_) => 400u16,
                Error::InvalidInput(_) => 400u16,
            }),
    {
        match self {
            Error::NotFound(_) => 404,
            Error::BadRequest(_) => 400,
            Error::Unauthorized(_) => 401,
            Error::Forbidden(_) => 403,
            Error::Conflict(_) => 409,
            Error::InternalServer(_) => 500,
            Error::Database(_) => 500,
            Error::Validation(_) => 400,
            Error::InvalidInput(_) => 400,
        }
    }

    /// The machine-readable error code this error maps to.
    pub fn error_code(&self) -> (c: &'static str)
        ensures
            c@ == (match self {
                Error::NotFound(_) => "NOT_FOUND"@,
                Error::BadRequest(_) => "BAD_REQUEST"@,
                Error::Unauthorized(_) => "UNAUTHORIZED"@,
                Error::Forbidden(_) => "FORBIDDEN"@,
                Error::Conflict(_) => "CONFLICT"@,
                Error::InternalServer(_) => "INTERNAL_ERROR"@,
                Error::Database(_) => "DATABASE_ERROR"@,
                Error::Validation(_) => "VALIDATION_ERROR"@,
                Error::InvalidInput(_) => "INVALID_INPUT"@,
            }),
    {
        match self {
            Error::NotFound(_) => "NOT_FOUND",
            Error::BadRequest(_) => "BAD_REQUEST",
            Error::Unauthorized(_) => "UNAUTHORIZED",
            Error::Forbidden(_) => "FORBIDDEN",
            Error::Conflict(_) => "CONFLICT",
            Error::InternalServer(_) => "INTERNAL_ERROR",
            Error::Database(_) => "DATABASE_ERROR",
            Error::Validation(_) => "VALIDATION_ERROR",
            Error::InvalidInput(_) => "INVALID_INPUT",
        }
    }

    /// The message carried by this error.
    pub fn message(&self) -> (m: &String)
        ensures
            m@ == spec_message(*self),
    {
        match self {
            Error::NotFound(m) => m,
            Error::BadRequest(m) => m,
            Error::Unauthorized(m) => m,
            Error::Forbidden(m) => m,
            Error::Conflict(m) => m,
            Error::InternalServer(m) => m,
            Error::Database(m) => m,
            Error::Validation(m) => m,
            Error::InvalidInput(m) => m,
        }
    }

    /// The full display text of this error: its variant prefix followed
    /// by its message.
    pub fn describe(&self) -> (d: String)
        ensures
            d@ == spec_prefix(*self) + spec_message(*self),
    {
        let prefix: &'static str = match self {
            Error::NotFound(_) => "Not found: ",
            Error::BadRequest(_) => "Bad request: ",
            Error::Unauthorized(_) => "Unauthorized: ",
            Error::Forbidden(_) => "Forbidden: ",
            Error::Conflict(_) => "Conflict: ",
            Error::InternalServer(_) => "Internal server error: ",
            Error::Database(_) => "Database error: ",
            Error::Validation(_) => "Validation error: ",
            Error::InvalidInput(_) => "Invalid input: ",
        };
        concat(prefix, self.message().as_str())
    }
}

} // verus!
