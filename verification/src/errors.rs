//! Shared error taxonomy for registration and polling, with the HTTP status
//! each externally visible failure maps to.

use vstd::prelude::*;

verus! {

/// Why a registration payload is rejected by validation, before anything is
/// persisted.
#[derive(Debug, Clone, PartialEq, Eq)]
pub enum RegistrationError {
    /// The unique key has four code points or fewer.
    UniqueKeyTooShort { actual_length: usize },
    /// The unique key contains a non-ASCII character; carries the key.
    UniqueKeyNonAscii(String),
    /// The requested response status code is outside the representable range.
    InvalidHttpStatusCode(u16),
}

impl RegistrationError {
    /// Every validation failure is a client error.
    pub fn http_status(&self) -> (s: u16)
        ensures
            s == 400,
    {
        400
    }
}

/// Why a validated registration still fails to persist.
#[derive(Debug, Clone, PartialEq, Eq)]
pub enum RegistrationFailure {
    /// Some field of the record is already present in the store.
    KeyAlreadyExists,
    /// A configuration could not be serialized; defensive, cannot arise from
    /// the encoder of this crate.
    EncodingFailure,
    /// The store could not be reached or misbehaved; carries its message.
    BackendError(String),
}

/// HTTP status of a registration failure: conflicts are surfaced as 405,
/// encoding problems as client errors, store trouble as 500.
pub open spec fn registration_failure_status(e: RegistrationFailure) -> u16 {
    match e {
        RegistrationFailure::KeyAlreadyExists => 405,
        RegistrationFailure::EncodingFailure => 400,
        RegistrationFailure::BackendError(_) => 500,
    }
}

impl RegistrationFailure {
    pub fn http_status(&self) -> (s: u16)
        ensures
            s == registration_failure_status(*self),
    {
        match self {
            RegistrationFailure::KeyAlreadyExists => 405,
            RegistrationFailure::EncodingFailure => 400,
            RegistrationFailure::BackendError(_) => 500,
        }
    }
}

/// Why a poll is turned away, one variant per externally distinguishable
/// outcome.
#[derive(Debug, Clone, PartialEq, Eq)]
pub enum ResponseErrors {
    /// The key is not registered at all.
    NotFound,
    /// The stored method differs from the incoming one.
    MethodNotAllowed { expected: String, actual: String },
    /// A registered header is absent from the incoming request; carries the
    /// registered name.
    MissingHeader(String),
    /// A registered header is present but its value differs; carries the
    /// registered name.
    HeaderMismatch(String),
    /// The stored request template has no header map.
    MissingInformation,
    /// The key exists but its record is absent or undecodable.
    BackendInconsistency,
    /// The store could not be reached or misbehaved; carries its message.
    BackendError(String),
}

/// HTTP status of a poll failure: unknown keys and missing headers are 404,
/// a method mismatch is 405, a wrong header value is 400, everything that
/// points at the backend or at corrupted data is 500.
pub open spec fn response_error_status(e: ResponseErrors) -> u16 {
    match e {
        ResponseErrors::NotFound => 404,
        ResponseErrors::MethodNotAllowed { .. } => 405,
        ResponseErrors::MissingHeader(_) => 404,
        ResponseErrors::HeaderMismatch(_) => 400,
        ResponseErrors::MissingInformation => 500,
        ResponseErrors::BackendInconsistency => 500,
        ResponseErrors::BackendError(_) => 500,
    }
}

impl ResponseErrors {
    pub fn http_status(&self) -> (s: u16)
        ensures
            s == response_error_status(*self),
    {
        match self {
            ResponseErrors::NotFound => 404,
            ResponseErrors::MethodNotAllowed { .. } => 405,
            ResponseErrors::MissingHeader(_) => 404,
            ResponseErrors::HeaderMismatch(_) => 400,
            ResponseErrors::MissingInformation => 500,
            ResponseErrors::BackendInconsistency => 500,
            ResponseErrors::BackendError(_) => 500,
        }
    }
}

} // verus!
