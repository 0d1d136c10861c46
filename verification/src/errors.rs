//! The error taxonomy shared by the codecs, the storage port and the
//! scoring engine. Every failure surfaces as one of these variants; nothing
//! is reported as a bare message.

use vstd::prelude::*;

verus! {

/// A typed failure of the codec, storage or scoring layers.
#[derive(Clone, Copy, PartialEq, Eq, Structural, Debug)]
pub enum StoreError {
    /// A required attribute was absent from a record.
    MissingField,
    /// An attribute was present but carried the wrong tag or an
    /// unparseable payload for the requested shape.
    TypeMismatch,
    /// A pagination token could not be decoded.
    InvalidCursor,
    /// A conditional create found the key already present.
    ItemAlreadyExists,
    /// A conditional update or delete found the key absent.
    ItemNotFound,
    /// A conditional write declared a version that disagrees with the
    /// stored one.
    VersionMismatch,
    /// A request shape the engine does not recognise.
    UnsupportedOperation,
    /// An aggregation named a requirement id with no stored record.
    RequirementNotFound,
    /// The backing store misbehaved; raised only by plumbing around a
    /// real network-backed implementation.
    BackendUnavailable,
}

impl StoreError {
    /// A stable text form of the error, for transport layers to render.
    pub fn message(&self) -> (r: &'static str)
        ensures
            r@ == self.spec_message(),
    {
        match self {
            StoreError::MissingField => "missing field",
            StoreError::TypeMismatch => "type mismatch",
            StoreError::InvalidCursor => "invalid cursor",
            StoreError::ItemAlreadyExists => "item already exists",
            StoreError::ItemNotFound => "item not found",
            StoreError::VersionMismatch => "version mismatch",
            StoreError::UnsupportedOperation => "unsupported operation",
            StoreError::RequirementNotFound => "requirement not found",
            StoreError::BackendUnavailable => "backend unavailable",
        }
    }

    pub open spec fn spec_message(&self) -> Seq<char> {
        match self {
            StoreError::MissingField => "missing field"@,
            StoreError::TypeMismatch => "type mismatch"@,
            StoreError::InvalidCursor => "invalid cursor"@,
            StoreError::ItemAlreadyExists => "item already exists"@,
            StoreError::ItemNotFound => "item not found"@,
            StoreError::VersionMismatch => "version mismatch"@,
            StoreError::UnsupportedOperation => "unsupported operation"@,
            StoreError::RequirementNotFound => "requirement not found"@,
            StoreError::BackendUnavailable => "backend unavailable"@,
        }
    }

    /// An HTTP-free classification: true exactly for the conditions that a
    /// transport layer maps to a "missing resource" response.
    pub fn is_not_found(&self) -> (r: bool)
        ensures
            r == (*self == StoreError::ItemNotFound || *self == StoreError::RequirementNotFound),
    {
        match self {
            StoreError::ItemNotFound => true,
            StoreError::RequirementNotFound => true,
            _ => false,
        }
    }
}

/// A transport-facing failure body: the error's text form.
#[derive(Debug)]
pub struct ErrorResponse {
    pub error: String,
}

impl ErrorResponse {
    /// Wraps an error's stable text.
    pub fn of(e: &StoreError) -> (r: ErrorResponse)
        ensures
            r.error@ == e.spec_message(),
    {
        ErrorResponse { error: e.message().to_owned() }
    }
}

} // verus!
