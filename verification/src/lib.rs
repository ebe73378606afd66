//! Registration-and-matching engine of a programmable HTTP mock server.
//!
//! A client registers an expected request shape (method, header template,
//! optional body) together with a canned response under a unique key; later
//! polls are validated against the stored registration and, on a full match,
//! the canned response is replayed verbatim.
//!
//! The engine itself is pure: every store read or write is performed by the
//! surrounding application, which feeds the observed values into the decision
//! functions of this crate.

pub mod codec;
pub mod errors;
pub mod headers;
pub mod matcher;
pub mod registration;
pub mod store;
pub mod text;
