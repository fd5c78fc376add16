//! Append-only, idempotent store of fetched blocks, keyed by slot.
//!
//! The store keeps exactly one row per slot, in ascending slot order. An
//! insert for a slot already present is absorbed — it changes nothing and
//! reports zero affected rows — which is what lets concurrent writers for
//! the same slot converge without locking. Point, latest and range queries
//! serve the coordinator's resume and gap-detection logic.

use vstd::prelude::*;

use crate::clock::now_millis;
use crate::models::CreateRawBlock;
use crate::models::CreateRawBlockV;
use crate::models::RawBlock;
use crate::models::RawBlockV;
use crate::seq_lemmas::lemma_filter_pairwise;
use crate::seq_lemmas::lemma_filter_push;
use crate::seq_lemmas::lemma_filter_sub;
use crate::seq_lemmas::pairwise;

verus! {

/// The mathematical content of a sequence of stored rows.
pub open spec fn blocks_view(s: Seq<RawBlock>) -> Seq<RawBlockV> {
    s.map_values(|b: RawBlock| b@)
}

/// Some row of `rows` sits at `slot`.
pub open spec fn contains_slot(rows: Seq<RawBlockV>, slot: i64) -> bool {
    exists|i: int| 0 <= i < rows.len() && rows[i].slot == slot
}

/// Strict ascending slot order; implies that slots are unique.
pub open spec fn slot_order() -> spec_fn(RawBlockV, RawBlockV) -> bool {
    |a: RawBlockV, b: RawBlockV| a.slot < b.slot
}

/// The rows are sorted by strictly ascending slot.
pub open spec fn sorted_by_slot(rows: Seq<RawBlockV>) -> bool {
    pairwise(rows, slot_order())
}

/// The row is within the inclusive slot range.
pub open spec fn range_pred(start_slot: i64, end_slot: i64) -> spec_fn(RawBlockV) -> bool {
    |b: RawBlockV| start_slot <= b.slot && b.slot <= end_slot
}

/// The row that an insertion of `b` at time `now_ms` persists.
pub open spec fn row_of(b: CreateRawBlockV, now_ms: i64) -> RawBlockV {
    RawBlockV {
        slot: b.slot,
        block_data: b.data,
        block_hash: b.block_hash,
        parent_slot: b.parent_slot,
        parent_hash: b.parent_hash,
        processed_at: now_ms,
        processing_duration_ms: b.processing_duration_ms,
        created_at: now_ms,
        updated_at: now_ms,
    }
}

/// Insertion into a slot-sorted sequence, keeping the order.
pub open spec fn sorted_insert(rows: Seq<RawBlockV>, row: RawBlockV) -> Seq<RawBlockV>
    decreases rows.len(),
{
    if rows.len() == 0 {
        seq![row]
    } else if row.slot < rows.first().slot {
        seq![row] + rows
    } else {
        seq![rows.first()] + sorted_insert(rows.drop_first(), row)
    }
}

/// The state transition of an idempotent insert: a new slot is added in
/// order, an existing slot leaves the store untouched.
pub open spec fn spec_insert(rows: Seq<RawBlockV>, row: RawBlockV) -> Seq<RawBlockV> {
    if contains_slot(rows, row.slot) {
        rows
    } else {
        sorted_insert(rows, row)
    }
}

/// The position where a fresh slot lands in a slot-sorted sequence.
pub open spec fn insert_pos(rows: Seq<RawBlockV>, slot: i64) -> int
    decreases rows.len(),
{
    if rows.len() == 0 {
        0
    } else if slot <= rows.first().slot {
        0
    } else {
        1 + insert_pos(rows.drop_first(), slot)
    }
}

proof fn lemma_insert_pos_props(rows: Seq<RawBlockV>, slot: i64)
    requires
        sorted_by_slot(rows),
        !contains_slot(rows, slot),
    ensures
        0 <= insert_pos(rows, slot) <= rows.len(),
        forall|m: int| 0 <= m < insert_pos(rows, slot) ==> rows[m].slot < slot,
        insert_pos(rows, slot) < rows.len() ==> slot < rows[insert_pos(rows, slot)].slot,
    decreases rows.len(),
{
    if rows.len() > 0 {
        let k = insert_pos(rows, slot);
        if slot <= rows.first().slot {
            assert(rows[0].slot != slot);
        } else {
            let sub = rows.drop_first();
            assert(sorted_by_slot(sub));
            assert(!contains_slot(sub, slot)) by {
                if contains_slot(sub, slot) {
                    let i = choose|i: int| 0 <= i < sub.len() && sub[i].slot == slot;
                    assert(rows[i + 1].slot == slot);
                }
            }
            lemma_insert_pos_props(sub, slot);
            assert forall|m: int| 0 <= m < k implies rows[m].slot < slot by {
                if m > 0 {
                    assert(sub[m - 1].slot < slot);
                }
            }
        }
    }
}

proof fn lemma_insert_keeps_sorted(rows: Seq<RawBlockV>, row: RawBlockV, k: int)
    requires
        sorted_by_slot(rows),
        0 <= k <= rows.len(),
        forall|m: int| 0 <= m < k ==> rows[m].slot < row.slot,
        k < rows.len() ==> row.slot < rows[k].slot,
    ensures
        sorted_by_slot(rows.insert(k, row)),
{
    let once = rows.insert(k, row);
    assert(once.len() == rows.len() + 1);
    assert forall|i: int, j: int| 0 <= i < j < once.len() implies #[trigger] slot_order()(
        once[i],
        once[j],
    ) by {
        if j < k {
            assert(once[i] == rows[i]);
            assert(once[j] == rows[j]);
            assert(slot_order()(rows[i], rows[j]));
        } else if j == k {
            assert(once[j] == row);
            assert(once[i] == rows[i]);
            assert(rows[i].slot < row.slot);
        } else {
            assert(once[j] == rows[j - 1]);
            assert(k <= j - 1 < rows.len());
            assert(row.slot < rows[k].slot);
            if j - 1 > k {
                assert(slot_order()(rows[k], rows[j - 1]));
            }
            if i < k {
                assert(once[i] == rows[i]);
                assert(rows[i].slot < row.slot);
            } else if i == k {
                assert(once[i] == row);
            } else {
                assert(once[i] == rows[i - 1]);
                assert(slot_order()(rows[i - 1], rows[j - 1]));
            }
        }
    }
}

proof fn lemma_sorted_insert_at(rows: Seq<RawBlockV>, row: RawBlockV, k: int)
    requires
        0 <= k <= rows.len(),
        forall|m: int| 0 <= m < k ==> rows[m].slot < row.slot,
        k < rows.len() ==> row.slot < rows[k].slot,
    ensures
        sorted_insert(rows, row) == rows.insert(k, row),
    decreases rows.len(),
{
    if rows.len() == 0 {
        assert(sorted_insert(rows, row) =~= rows.insert(0, row));
    } else if k == 0 {
        assert(row.slot < rows[0].slot);
        assert(seq![row] + rows =~= rows.insert(0, row));
    } else {
        assert(rows[0].slot < row.slot);
        let sub = rows.drop_first();
        lemma_sorted_insert_at(sub, row, k - 1);
        assert(seq![rows.first()] + sub.insert(k - 1, row) =~= rows.insert(k, row));
    }
}

/// Inserting a block for a slot already stored leaves the store unchanged,
/// so two inserts of the same slot leave exactly one row for it, whatever
/// the stored timestamps; with the exec contract of
/// [`RawBlockRepository::insert`], the second call reports zero affected
/// rows.
pub proof fn lemma_insert_idempotent(rows: Seq<RawBlockV>, b: CreateRawBlockV, t1: i64, t2: i64)
    requires
        sorted_by_slot(rows),
    ensures
        contains_slot(spec_insert(rows, row_of(b, t1)), b.slot),
        spec_insert(spec_insert(rows, row_of(b, t1)), row_of(b, t2)) == spec_insert(
            rows,
            row_of(b, t1),
        ),
        sorted_by_slot(spec_insert(rows, row_of(b, t1))),
        forall|i: int, j: int|
            0 <= i < j < spec_insert(rows, row_of(b, t1)).len() ==> #[trigger] spec_insert(
                rows,
                row_of(b, t1),
            )[i].slot != #[trigger] spec_insert(rows, row_of(b, t1))[j].slot,
{
    let row = row_of(b, t1);
    let once = spec_insert(rows, row);
    if contains_slot(rows, b.slot) {
        assert(once == rows);
    } else {
        let k = insert_pos(rows, b.slot);
        lemma_insert_pos_props(rows, b.slot);
        lemma_sorted_insert_at(rows, row, k);
        assert(once == rows.insert(k, row));
        assert(once.len() == rows.len() + 1);
        assert(once[k] == row);
        assert(contains_slot(once, b.slot));
        lemma_insert_keeps_sorted(rows, row, k);
    }
    assert(sorted_by_slot(once));
    assert forall|i: int, j: int| 0 <= i < j < once.len() implies once[i].slot != once[j].slot by {
        assert(slot_order()(once[i], once[j]));
    }
}

/// Idempotent, append-only storage of raw blocks, ordered by slot.
pub struct RawBlockRepository {
    rows: Vec<RawBlock>,
}

impl View for RawBlockRepository {
    type V = Seq<RawBlockV>;

    closed spec fn view(&self) -> Seq<RawBlockV> {
        blocks_view(self.rows@)
    }
}

impl RawBlockRepository {
    /// The store keeps exactly one row per slot, in ascending slot order.
    pub open spec fn wf(&self) -> bool {
        sorted_by_slot(self@)
    }

    /// An empty store.
    pub fn new() -> (s: Self)
        ensures
            s.wf(),
            s@ == Seq::<RawBlockV>::empty(),
    {
        let s = RawBlockRepository { rows: Vec::new() };
        proof {
            assert(s@ =~= Seq::<RawBlockV>::empty());
        }
        s
    }

    /// Idempotent insert stamped at `now_ms`: a fresh slot is stored (one
    /// row affected); a slot already present is absorbed without touching
    /// the existing row (zero rows affected, no error).
    pub fn insert_at(&mut self, block: &CreateRawBlock, now_ms: i64) -> (r: u64)
        requires
            old(self).wf(),
        ensures
            final(self).wf(),
            final(self)@ == spec_insert(old(self)@, row_of(block@, now_ms)),
            r == if contains_slot(old(self)@, block@.slot) {
                0u64
            } else {
                1u64
            },
            contains_slot(final(self)@, block@.slot),
    {
        let n = self.rows.len();
        let mut i: usize = 0;
        while i < n && self.rows[i].slot < block.slot
            invariant
                self.rows@ == old(self).rows@,
                n == self.rows@.len(),
                0 <= i <= n,
                forall|m: int| 0 <= m < i ==> self@[m].slot < block@.slot,
            decreases n - i,
        {
            i += 1;
        }
        if i < n && self.rows[i].slot == block.slot {
            proof {
                assert(self@[i as int].slot == block@.slot);
                assert(contains_slot(self@, block@.slot));
            }
            return 0;
        }
        proof {
            assert(i < n ==> block@.slot < self@[i as int].slot);
            assert forall|j: int| 0 <= j < n implies self@[j].slot != block@.slot by {
                if j >= i && i < n {
                    if j > i {
                        assert(slot_order()(self@[i as int], self@[j]));
                    }
                }
            }
            assert(!contains_slot(self@, block@.slot));
        }
        let row = RawBlock {
            slot: block.slot,
            block_data: block.data.clone(),
            block_hash: block.block_hash.clone(),
            parent_slot: block.parent_slot,
            parent_hash: match &block.parent_hash {
                Some(h) => Some(h.clone()),
                None => None,
            },
            processed_at: now_ms,
            processing_duration_ms: block.processing_duration_ms,
            created_at: now_ms,
            updated_at: now_ms,
        };
        proof {
            assert(row@ =~= row_of(block@, now_ms));
        }
        let ghost before = self@;
        self.rows.insert(i, row);
        proof {
            let rowv = row_of(block@, now_ms);
            assert(self@ =~= before.insert(i as int, rowv));
            lemma_sorted_insert_at(before, rowv, i as int);
            assert(self@ == sorted_insert(before, rowv));
            assert(self@[i as int] == rowv);
            assert(contains_slot(self@, block@.slot));
            lemma_insert_keeps_sorted(before, rowv, i as int);
        }
        1
    }

    /// Idempotent insert stamped with the current wall clock; apart from
    /// the timestamps this behaves as [`RawBlockRepository::insert_at`].
    pub fn insert(&mut self, block: &CreateRawBlock) -> (r: u64)
        requires
            old(self).wf(),
        ensures
            final(self).wf(),
            exists|t: i64| final(self)@ == spec_insert(old(self)@, row_of(block@, t)),
            r == if contains_slot(old(self)@, block@.slot) {
                0u64
            } else {
                1u64
            },
            contains_slot(final(self)@, block@.slot),
    {
        let now_ms = now_millis();
        let r = self.insert_at(block, now_ms);
        proof {
            assert(self@ == spec_insert(old(self)@, row_of(block@, now_ms)));
        }
        r
    }

    /// Point lookup: the unique row at `slot`, or explicit absence.
    pub fn get_by_slot(&self, slot: i64) -> (r: Option<RawBlock>)
        requires
            self.wf(),
        ensures
            match r {
                Some(b) => b@.slot == slot && contains_slot(self@, slot) && forall|i: int|
                    0 <= i < self@.len() && self@[i].slot == slot ==> self@[i] == b@,
                None => !contains_slot(self@, slot),
            },
    {
        let n = self.rows.len();
        let mut i: usize = 0;
        while i < n
            invariant
                n == self.rows@.len(),
                0 <= i <= n,
                self.wf(),
                forall|m: int| 0 <= m < i ==> self@[m].slot != slot,
            decreases n - i,
        {
            if self.rows[i].slot == slot {
                let b = self.rows[i].duplicate();
                proof {
                    assert(self@[i as int].slot == slot);
                    assert forall|j: int|
                        0 <= j < self@.len() && self@[j].slot == slot implies self@[j] == b@ by {
                        if j < i {
                            assert(slot_order()(self@[j], self@[i as int]));
                        }
                        if j > i {
                            assert(slot_order()(self@[i as int], self@[j]));
                        }
                    }
                }
                return Some(b);
            }
            i += 1;
        }
        None
    }

    /// The row with the maximum slot, used to resume ingestion, or explicit
    /// absence when the store is empty.
    pub fn get_latest_block(&self) -> (r: Option<RawBlock>)
        requires
            self.wf(),
        ensures
            match r {
                Some(b) => self@.len() > 0 && b@ == self@.last() && forall|i: int|
                    0 <= i < self@.len() ==> self@[i].slot <= b@.slot,
                None => self@.len() == 0,
            },
    {
        let n = self.rows.len();
        if n == 0 {
            return None;
        }
        let b = self.rows[n - 1].duplicate();
        proof {
            assert(b@ == self@.last());
            assert forall|i: int| 0 <= i < self@.len() implies self@[i].slot <= b@.slot by {
                if i < self@.len() - 1 {
                    assert(slot_order()(self@[i], self@[self@.len() - 1]));
                }
            }
        }
        Some(b)
    }

    /// All rows with `start_slot <= slot <= end_slot`, in ascending slot
    /// order. The caller diffs the returned slots against the expected
    /// contiguous range to find gaps: a slot of the range is in the result
    /// exactly when the store holds it.
    pub fn get_blocks_in_range(&self, start_slot: i64, end_slot: i64) -> (r: Vec<RawBlock>)
        requires
            self.wf(),
        ensures
            blocks_view(r@) == self@.filter(range_pred(start_slot, end_slot)),
            sorted_by_slot(blocks_view(r@)),
            forall|s: i64|
                contains_slot(blocks_view(r@), s) <==> (contains_slot(self@, s) && start_slot <= s
                    <= end_slot),
    {
        let ghost pred = range_pred(start_slot, end_slot);
        let n = self.rows.len();
        let mut out: Vec<RawBlock> = Vec::new();
        let mut i: usize = 0;
        proof {
            assert(blocks_view(out@) =~= self@.subrange(0, 0).filter(pred));
        }
        while i < n
            invariant
                n == self.rows@.len(),
                0 <= i <= n,
                self.wf(),
                pred == range_pred(start_slot, end_slot),
                blocks_view(out@) == self@.subrange(0, i as int).filter(pred),
            decreases n - i,
        {
            let ghost prefix = self@.subrange(0, i as int);
            proof {
                lemma_filter_push(prefix, pred, self@[i as int]);
                assert(self@.subrange(0, i as int + 1) =~= prefix.push(self@[i as int]));
            }
            if start_slot <= self.rows[i].slot && self.rows[i].slot <= end_slot {
                proof {
                    assert(pred(self@[i as int]));
                }
                let b = self.rows[i].duplicate();
                let ghost old_out = out@;
                out.push(b);
                proof {
                    assert(blocks_view(out@) =~= blocks_view(old_out).push(self@[i as int]));
                }
            } else {
                proof {
                    assert(!pred(self@[i as int]));
                }
            }
            i += 1;
        }
        proof {
            assert(self@.subrange(0, n as int) =~= self@);
            let res = blocks_view(out@);
            assert(res == self@.filter(pred));
            lemma_filter_pairwise(self@, pred, slot_order());
            lemma_filter_sub(self@, pred);
            assert forall|s: i64|
                contains_slot(res, s) <==> (contains_slot(self@, s) && start_slot <= s
                    <= end_slot) by {
                if contains_slot(res, s) {
                    let k = choose|k: int| 0 <= k < res.len() && res[k].slot == s;
                    assert(pred(res[k]));
                    let m = choose|m: int| 0 <= m < self@.len() && self@[m] == res[k];
                    assert(contains_slot(self@, s));
                }
                if contains_slot(self@, s) && start_slot <= s <= end_slot {
                    let m = choose|m: int| 0 <= m < self@.len() && self@[m].slot == s;
                    assert(pred(self@[m]));
                    self@.lemma_filter_contains(pred, m);
                    let k = choose|k: int| 0 <= k < res.len() && res[k] == self@[m];
                    assert(res[k].slot == s);
                }
            }
        }
        out
    }

    /// Presence check without fetching the payload.
    pub fn slot_exists(&self, slot: i64) -> (r: bool)
        ensures
            r == contains_slot(self@, slot),
    {
        let n = self.rows.len();
        let mut i: usize = 0;
        while i < n
            invariant
                n == self.rows@.len(),
                0 <= i <= n,
                forall|m: int| 0 <= m < i ==> self@[m].slot != slot,
            decreases n - i,
        {
            if self.rows[i].slot == slot {
                proof {
                    assert(self@[i as int].slot == slot);
                }
                return true;
            }
            i += 1;
        }
        false
    }

    /// Total number of stored rows.
    pub fn count(&self) -> (r: u64)
        ensures
            r == self@.len(),
    {
        self.rows.len() as u64
    }
}

} // verus!
