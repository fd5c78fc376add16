//! The ingestion progress cursor: a singleton high-water-mark that never
//! regresses.
//!
//! The guarded write updates the stored slot only when the new value is
//! strictly greater, so a coordinator restarting with a stale view cannot
//! drag the cursor backwards and trigger a reprocessing storm.

use vstd::prelude::*;

use crate::clock::now_millis;
use crate::models::SlotCursor;

verus! {

/// Fixed identifier of the singleton cursor row.
pub const CURSOR_ROW_ID: i16 = 1;

/// The cursor row after a guarded write of `slot` at time `t`: the stored
/// slot moves only strictly upward.
pub open spec fn advanced_cursor(prev: Option<SlotCursor>, slot: i64, t: i64) -> Option<
    SlotCursor,
> {
    match prev {
        None => Some(SlotCursor { id: CURSOR_ROW_ID, last_finalized_slot: slot, last_updated: t }),
        Some(c) => if slot > c.last_finalized_slot {
            Some(SlotCursor { id: c.id, last_finalized_slot: slot, last_updated: t })
        } else {
            Some(c)
        },
    }
}

/// The persisted last-finalized-slot high-water-mark.
pub struct CursorStore {
    row: Option<SlotCursor>,
}

impl View for CursorStore {
    type V = Option<SlotCursor>;

    closed spec fn view(&self) -> Option<SlotCursor> {
        self.row
    }
}

impl CursorStore {
    /// The row carries the fixed singleton identifier.
    pub open spec fn wf(&self) -> bool {
        match self@ {
            Some(c) => c.id == CURSOR_ROW_ID,
            None => true,
        }
    }

    /// The stored high-water-mark, if any.
    pub open spec fn spec_slot(&self) -> Option<i64> {
        match self@ {
            Some(c) => Some(c.last_finalized_slot),
            None => None,
        }
    }

    /// An empty cursor: no slot has been finalized yet.
    pub fn new() -> (s: Self)
        ensures
            s.wf(),
            s@ is None,
    {
        CursorStore { row: None }
    }

    /// The current cursor row, or explicit absence.
    pub fn get(&self) -> (r: Option<SlotCursor>)
        ensures
            r == self@,
    {
        self.row
    }

    /// Guarded write at time `now_ms`: the stored slot moves only strictly
    /// upward; a write with a lower or equal slot is a no-op and is reported
    /// as not advanced. The cursor therefore never regresses.
    pub fn advance_at(&mut self, slot: i64, now_ms: i64) -> (advanced: bool)
        requires
            old(self).wf(),
        ensures
            final(self).wf(),
            final(self)@ == advanced_cursor(old(self)@, slot, now_ms),
            advanced == match old(self)@ {
                None => true,
                Some(c) => slot > c.last_finalized_slot,
            },
            match (old(self).spec_slot(), final(self).spec_slot()) {
                (Some(s0), Some(s1)) => s1 >= s0,
                (None, Some(_)) => true,
                _ => false,
            },
    {
        match &self.row {
            None => {
                self.row = Some(
                    SlotCursor { id: CURSOR_ROW_ID, last_finalized_slot: slot, last_updated: now_ms },
                );
                true
            },
            Some(c) => {
                if slot > c.last_finalized_slot {
                    self.row = Some(
                        SlotCursor { id: c.id, last_finalized_slot: slot, last_updated: now_ms },
                    );
                    true
                } else {
                    false
                }
            },
        }
    }

    /// Guarded write stamped with the current wall clock; apart from the
    /// update timestamp this behaves as [`CursorStore::advance_at`].
    pub fn advance(&mut self, slot: i64) -> (advanced: bool)
        requires
            old(self).wf(),
        ensures
            final(self).wf(),
            exists|t: i64| final(self)@ == advanced_cursor(old(self)@, slot, t),
            advanced == match old(self)@ {
                None => true,
                Some(c) => slot > c.last_finalized_slot,
            },
            match (old(self).spec_slot(), final(self).spec_slot()) {
                (Some(s0), Some(s1)) => s1 >= s0,
                (None, Some(_)) => true,
                _ => false,
            },
    {
        let now_ms = now_millis();
        let advanced = self.advance_at(slot, now_ms);
        proof {
            assert(self@ == advanced_cursor(old(self)@, slot, now_ms));
        }
        advanced
    }
}

} // verus!
