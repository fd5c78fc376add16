//! The closed error taxonomy shared by every component of the layer.
//!
//! Callers select retry, abort, or escalate strictly by kind: transport and
//! storage failures are retryable, while exhausted retry budgets, payload
//! corruption, and startup failures (migration) are not.

use vstd::prelude::*;

verus! {

/// A failure kind of the indexer persistence layer.
///
/// Storage, RPC, I/O, serialization and network failures carry the message
/// of the underlying driver as plain text; the slot-gap signal carries the
/// missing bounds and the retry-exhaustion signal the abandoned slot.
#[derive(Debug, Clone, PartialEq, Eq)]
pub enum IndexerError {
    /// Failure of the storage driver, including a pool acquire timeout.
    Database(String),
    /// Failure reported by the upstream RPC node.
    Rpc(String),
    /// Local I/O failure.
    IO(String),
    /// Payload (de)serialization failure.
    Serde(String),
    /// Network/transport failure, distinct from storage failures so that
    /// backoff policy can differ between the two.
    Network(String),
    /// A gap in the slot sequence, carrying the inclusive missing bounds.
    SlotGap(i64, i64),
    /// The retry budget for the carried slot is exhausted.
    MaxRetriesExceeded(i64),
    /// Breakage of an internal coordination primitive (queue or channel).
    Channel(String),
    /// Schema migration failure; fatal at startup.
    Migration(String),
}

/// Which failure kinds a caller may retry: transient transport and storage
/// failures are retryable, everything else calls for abort or escalation.
pub open spec fn spec_retryable(e: IndexerError) -> bool {
    match e {
        IndexerError::Database(_) => true,
        IndexerError::Rpc(_) => true,
        IndexerError::IO(_) => true,
        IndexerError::Network(_) => true,
        IndexerError::Serde(_) => false,
        IndexerError::SlotGap(_, _) => false,
        IndexerError::MaxRetriesExceeded(_) => false,
        IndexerError::Channel(_) => false,
        IndexerError::Migration(_) => false,
    }
}

impl IndexerError {
    /// Whether a caller should retry the failed operation.
    pub fn is_retryable(&self) -> (r: bool)
        ensures
            r == spec_retryable(*self),
    {
        match self {
            IndexerError::Database(_) => true,
            IndexerError::Rpc(_) => true,
            IndexerError::IO(_) => true,
            IndexerError::Network(_) => true,
            IndexerError::Serde(_) => false,
            IndexerError::SlotGap(_, _) => false,
            IndexerError::MaxRetriesExceeded(_) => false,
            IndexerError::Channel(_) => false,
            IndexerError::Migration(_) => false,
        }
    }
}

} // verus!
