//! The persisted and transient value types of the layer.
//!
//! Slots are held canonically as `i64`, the storage engine's native width;
//! real chain slots lie far below the signed ceiling, and any conversion to
//! an unsigned external representation happens at the caller's boundary.
//! Timestamps are milliseconds since the Unix epoch, also as `i64`. The
//! opaque block payload travels as its serialized text. Each type with
//! text fields carries a mathematical view for use in contracts.

use vstd::prelude::*;

verus! {

/// One durable row per chain slot: the fetched block and its linkage.
#[derive(Debug, Clone, PartialEq, Eq)]
pub struct RawBlock {
    pub slot: i64,
    /// Serialized block payload; opaque to this layer.
    pub block_data: String,
    pub block_hash: String,
    pub parent_slot: Option<i64>,
    pub parent_hash: Option<String>,
    pub processed_at: i64,
    pub processing_duration_ms: Option<i32>,
    pub created_at: i64,
    pub updated_at: i64,
}

/// Mathematical view of a [`RawBlock`].
#[verifier::ext_equal]
pub ghost struct RawBlockV {
    pub slot: i64,
    pub block_data: Seq<char>,
    pub block_hash: Seq<char>,
    pub parent_slot: Option<i64>,
    pub parent_hash: Option<Seq<char>>,
    pub processed_at: i64,
    pub processing_duration_ms: Option<i32>,
    pub created_at: i64,
    pub updated_at: i64,
}

impl View for RawBlock {
    type V = RawBlockV;

    open spec fn view(&self) -> RawBlockV {
        RawBlockV {
            slot: self.slot,
            block_data: self.block_data@,
            block_hash: self.block_hash@,
            parent_slot: self.parent_slot,
            parent_hash: match self.parent_hash {
                Some(h) => Some(h@),
                None => None,
            },
            processed_at: self.processed_at,
            processing_duration_ms: self.processing_duration_ms,
            created_at: self.created_at,
            updated_at: self.updated_at,
        }
    }
}

impl RawBlock {
    /// An exact copy of the row.
    pub fn duplicate(&self) -> (r: RawBlock)
        ensures
            r@ == self@,
    {
        let r = RawBlock {
            slot: self.slot,
            block_data: self.block_data.clone(),
            block_hash: self.block_hash.clone(),
            parent_slot: self.parent_slot,
            parent_hash: match &self.parent_hash {
                Some(h) => Some(h.clone()),
                None => None,
            },
            processed_at: self.processed_at,
            processing_duration_ms: self.processing_duration_ms,
            created_at: self.created_at,
            updated_at: self.updated_at,
        };
        proof {
            assert(r@ =~= self@);
        }
        r
    }
}

/// The payload of a new block insertion; the store fills in timestamps.
#[derive(Debug, Clone, PartialEq, Eq)]
pub struct CreateRawBlock {
    pub slot: i64,
    /// Serialized block payload; opaque to this layer.
    pub data: String,
    pub block_hash: String,
    pub parent_slot: Option<i64>,
    pub parent_hash: Option<String>,
    pub processing_duration_ms: Option<i32>,
}

/// Mathematical view of a [`CreateRawBlock`].
#[verifier::ext_equal]
pub ghost struct CreateRawBlockV {
    pub slot: i64,
    pub data: Seq<char>,
    pub block_hash: Seq<char>,
    pub parent_slot: Option<i64>,
    pub parent_hash: Option<Seq<char>>,
    pub processing_duration_ms: Option<i32>,
}

impl View for CreateRawBlock {
    type V = CreateRawBlockV;

    open spec fn view(&self) -> CreateRawBlockV {
        CreateRawBlockV {
            slot: self.slot,
            data: self.data@,
            block_hash: self.block_hash@,
            parent_slot: self.parent_slot,
            parent_hash: match self.parent_hash {
                Some(h) => Some(h@),
                None => None,
            },
            processing_duration_ms: self.processing_duration_ms,
        }
    }
}

/// One outstanding failure record per currently-failing slot.
#[derive(Debug, Clone, PartialEq, Eq)]
pub struct DeadLetterQueueEntry {
    /// Opaque identifier, unique within the queue.
    pub id: u128,
    pub slot: i64,
    pub error: String,
    pub retry_count: u32,
    pub last_retry: Option<i64>,
    pub created_at: i64,
    pub failed_at: i64,
}

/// Mathematical view of a [`DeadLetterQueueEntry`].
#[verifier::ext_equal]
pub ghost struct DeadLetterQueueEntryV {
    pub id: u128,
    pub slot: i64,
    pub error: Seq<char>,
    pub retry_count: u32,
    pub last_retry: Option<i64>,
    pub created_at: i64,
    pub failed_at: i64,
}

impl View for DeadLetterQueueEntry {
    type V = DeadLetterQueueEntryV;

    open spec fn view(&self) -> DeadLetterQueueEntryV {
        DeadLetterQueueEntryV {
            id: self.id,
            slot: self.slot,
            error: self.error@,
            retry_count: self.retry_count,
            last_retry: self.last_retry,
            created_at: self.created_at,
            failed_at: self.failed_at,
        }
    }
}

impl DeadLetterQueueEntry {
    /// An exact copy of the entry.
    pub fn duplicate(&self) -> (r: DeadLetterQueueEntry)
        ensures
            r@ == self@,
    {
        let r = DeadLetterQueueEntry {
            id: self.id,
            slot: self.slot,
            error: self.error.clone(),
            retry_count: self.retry_count,
            last_retry: self.last_retry,
            created_at: self.created_at,
            failed_at: self.failed_at,
        };
        proof {
            assert(r@ =~= self@);
        }
        r
    }
}

/// The payload of a dead-letter upsert: the failing slot and its error text.
#[derive(Debug, Clone, PartialEq, Eq)]
pub struct CreateDlqEntry {
    pub slot: i64,
    pub error: String,
}

/// The singleton high-water-mark of ingestion progress.
#[derive(Debug, Clone, Copy, PartialEq, Eq, Structural)]
pub struct SlotCursor {
    /// Fixed identifier of the singleton row.
    pub id: i16,
    pub last_finalized_slot: i64,
    pub last_updated: i64,
}

/// A request to fetch one slot, with its retry budget spent so far.
#[derive(Debug, Clone, Copy, PartialEq, Eq, Structural)]
pub struct FetchRequest {
    pub slot: i64,
    pub retry_count: u32,
}

/// An ordered batch of fetch results headed for the raw block store:
/// `slots[i]` is the slot of `blocks[i]`.
#[derive(Debug, Clone, PartialEq, Eq)]
pub struct BlockBatch {
    pub slots: Vec<i64>,
    pub blocks: Vec<RawBlock>,
}

impl BlockBatch {
    /// The batch pairs each listed slot with the block fetched for it.
    pub open spec fn wf(&self) -> bool {
        &&& self.slots@.len() == self.blocks@.len()
        &&& forall|i: int|
            0 <= i < self.blocks@.len() ==> self.blocks@[i].slot == self.slots@[i]
    }

    /// Checks that every block in the batch sits at its listed slot.
    pub fn is_well_formed(&self) -> (r: bool)
        ensures
            r == self.wf(),
    {
        if self.slots.len() != self.blocks.len() {
            return false;
        }
        let n = self.blocks.len();
        let mut i: usize = 0;
        while i < n
            invariant
                n == self.blocks@.len(),
                self.slots@.len() == self.blocks@.len(),
                0 <= i <= n,
                forall|j: int| 0 <= j < i ==> self.blocks@[j].slot == self.slots@[j],
            decreases n - i,
        {
            if self.blocks[i].slot != self.slots[i] {
                return false;
            }
            i += 1;
        }
        true
    }
}

} // verus!
