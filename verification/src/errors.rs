//! The error taxonomy shared by the coordinator and the listing operations,
//! and its mapping to transport-level status codes.

use vstd::prelude::*;

verus! {

/// One labeled error kind per way a coordinator or listing call can fail.
/// The connection registry never surfaces errors: delivery is best-effort.
#[derive(Clone, Copy, Debug, PartialEq, Eq, Structural)]
pub enum ApiError {
    /// A referenced chat, message or user is absent.
    NotFound,
    /// An authorization or ownership rule was violated.
    Forbidden,
    /// A request value is malformed (empty body, unknown role or visibility).
    InvalidInput,
    /// The operation is not allowed in the message's current state
    /// (editing a deleted message).
    InvalidState,
    /// The message was already soft-deleted.
    AlreadyDeleted,
    /// The row to insert already exists (duplicate membership).
    Conflict,
    /// The storage collaborator failed.
    StorageUnavailable,
    /// The id-generation collaborator failed.
    IdGenerationFailed,
}

impl ApiError {
    /// The HTTP status code a request handler maps this kind to.
    pub open spec fn spec_status_code(self) -> u16 {
        match self {
            ApiError::NotFound => 404,
            ApiError::Forbidden => 403,
            ApiError::InvalidInput => 400,
            ApiError::InvalidState => 400,
            ApiError::AlreadyDeleted => 410,
            ApiError::Conflict => 409,
            ApiError::StorageUnavailable => 500,
            ApiError::IdGenerationFailed => 500,
        }
    }

    pub fn status_code(&self) -> (code: u16)
        ensures
            code == self.spec_status_code(),
    {
        match self {
            ApiError::NotFound => 404,
            ApiError::Forbidden => 403,
            ApiError::InvalidInput => 400,
            ApiError::InvalidState => 400,
            ApiError::AlreadyDeleted => 410,
            ApiError::Conflict => 409,
            ApiError::StorageUnavailable => 500,
            ApiError::IdGenerationFailed => 500,
        }
    }
}

} // verus!
