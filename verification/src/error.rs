//! The failure kinds of store operations.

use vstd::prelude::*;

verus! {

/// The failure of `serde_json` to decode a text. Trusted: nothing but
/// that the type exists; the store looks at no part of it.
#[verifier::external_type_specification]
#[verifier::external_body]
pub struct ExJsonError(serde_json::Error);

/// The failure of `rusqlite` to read or write the database file.
/// Trusted: nothing but that the type exists; the store looks at no part
/// of it.
#[verifier::external_type_specification]
#[verifier::external_body]
pub struct ExSqliteError(rusqlite::Error);

/// Why a store operation failed.
#[derive(Clone, Copy, Debug, PartialEq, Eq, Structural)]
pub enum DbError {
    /// The referenced id is absent.
    NotFound,
    /// The request itself is unusable: nothing to update, or a tag list
    /// that names a tag twice.
    InvalidRequest,
    /// A uniqueness or reference rule would be broken.
    Conflict,
    /// The store cannot take the write, or the storage behind it failed.
    StorageUnavailable,
    /// Exchanged text could not be decoded.
    SerializationError,
}

impl DbError {
    /// A short English description, for callers that report failures as text.
    pub fn message(&self) -> (r: &'static str)
        ensures
            r@ == self.message_spec(),
    {
        match self {
            DbError::NotFound => "not found",
            DbError::InvalidRequest => "invalid request",
            DbError::Conflict => "conflict",
            DbError::StorageUnavailable => "storage unavailable",
            DbError::SerializationError => "serialization error",
        }
    }

    /// The text of [`DbError::message`].
    pub open spec fn message_spec(&self) -> Seq<char> {
        match self {
            DbError::NotFound => "not found"@,
            DbError::InvalidRequest => "invalid request"@,
            DbError::Conflict => "conflict"@,
            DbError::StorageUnavailable => "storage unavailable"@,
            DbError::SerializationError => "serialization error"@,
        }
    }
}

} // verus!
