//! Persistence-and-recovery layer of a blockchain block indexer.
//!
//! The library models the durable state the indexer relies on: an
//! append-only, idempotent store of raw blocks, a dead-letter queue with
//! bounded retry bookkeeping, a monotonic ingestion cursor, and a bounded
//! connection pool. Every operation carries a contract that pins down the
//! resulting state, and the cross-call guarantees (idempotence, upsert
//! merging, retry eligibility, cleanup policy, cursor monotonicity) are
//! proved as lemmas.

pub mod clock;
pub mod config;
pub mod cursor;
pub mod dlq;
pub mod error;
pub mod models;
pub mod pool;
pub mod raw_block;
pub mod seq_lemmas;
