//! Errors of the HTTP API and the status each one is answered with.
use vstd::prelude::*;

verus! {

pub const STATUS_BAD_REQUEST: u16 = 400;
pub const STATUS_UNAUTHORIZED: u16 = 401;
pub const STATUS_NOT_FOUND: u16 = 404;
pub const STATUS_INTERNAL_SERVER_ERROR: u16 = 500;

/// Why an API request failed.
#[derive(Debug, PartialEq, Eq)]
pub enum Error {
    NotFound,
    Unathorized,
    WrongImage,
    InvalidUsername,
    InvalidLogin,
    InvalidPassword,
    InvalidTimeframe,
    InvalidCoverKey,
    InvalidKey,
    TooManyCharacters { field: String, maximum_length: u64 },
    /// A failure inside the server; the cause is logged, not shown.
    InternalError,
    /// A request body that is not the JSON expected; holds the reason.
    JsonRejection(String),
}

/// The HTTP status of each error: bad logins and missing authorisation are
/// 401, a missing resource 404, a failure inside the server 500, and every
/// malformed request 400.
pub open spec fn status_of(e: Error) -> u16 {
    match e {
        Error::InvalidLogin | Error::InvalidPassword | Error::Unathorized => STATUS_UNAUTHORIZED,
        Error::NotFound => STATUS_NOT_FOUND,
        Error::InternalError => STATUS_INTERNAL_SERVER_ERROR,
        _ => STATUS_BAD_REQUEST,
    }
}

impl Error {
    pub fn status_code(&self) -> (r: u16)
        ensures
            r == status_of(*self),
    {
        match self {
            Error::InvalidLogin | Error::InvalidPassword | Error::Unathorized => STATUS_UNAUTHORIZED,
            Error::NotFound => STATUS_NOT_FOUND,
            Error::InternalError => STATUS_INTERNAL_SERVER_ERROR,
            Error::WrongImage | Error::InvalidUsername | Error::InvalidTimeframe
            | Error::InvalidCoverKey | Error::InvalidKey | Error::TooManyCharacters { .. }
            | Error::JsonRejection(_) => STATUS_BAD_REQUEST,
        }
    }
}

} // verus!
