//! The error kinds that the pipeline surfaces.

use vstd::prelude::*;

verus! {

/// One kind for each way a workflow can fail.
///
/// - `InvalidInput`: a malformed identifier or an invalid chunking
///   configuration (overlap not smaller than the window size).
/// - `NotFound`: a referenced session, chat, turn or chatbot is absent
///   or soft-deleted.
/// - `StorageFailure`: the relational store is unreachable or violated a
///   constraint.
/// - `IndexFailure`: the vector index is unreachable, a collection was
///   made with another dimension, or an upsert was partial.
/// - `ProviderUnavailable`: the embedding or generation backend is
///   unreachable or returned a malformed payload.
/// - `Timeout`: an external call exceeded its bound.
#[derive(Clone, Copy, Debug, PartialEq, Eq, Structural)]
pub enum RagError {
    InvalidInput,
    NotFound,
    StorageFailure,
    IndexFailure,
    ProviderUnavailable,
    Timeout,
}

impl RagError {
    /// A stable, human-readable description of the error kind.
    pub fn message(&self) -> (r: &'static str)
        ensures
            *self is InvalidInput ==> r@ == "invalid input"@,
            *self is NotFound ==> r@ == "not found"@,
            *self is StorageFailure ==> r@ == "storage failure"@,
            *self is IndexFailure ==> r@ == "index failure"@,
            *self is ProviderUnavailable ==> r@ == "provider unavailable"@,
            *self is Timeout ==> r@ == "timeout"@,
    {
        match self {
            RagError::InvalidInput => "invalid input",
            RagError::NotFound => "not found",
            RagError::StorageFailure => "storage failure",
            RagError::IndexFailure => "index failure",
            RagError::ProviderUnavailable => "provider unavailable",
            RagError::Timeout => "timeout",
        }
    }
}

} // verus!
