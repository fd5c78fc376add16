//! Dead-letter store: at most one outstanding failure record per slot.
//!
//! A failure for a fresh slot creates an entry with the retry count at its
//! initial value; a repeated failure for the same slot merges into the
//! existing entry — the retry count rises by exactly one, the error text and
//! the failure timestamps refresh, and the creation timestamp stays — so
//! concurrent writers converge on one record per slot. Entries are kept
//! oldest-created-first, which gives the coordinator its fairness order, and
//! a retention sweep removes only entries that both exhausted their retry
//! budget and aged past the window.

use vstd::prelude::*;

use crate::clock::now_millis;
use crate::models::DeadLetterQueueEntry;
use crate::models::DeadLetterQueueEntryV;
use crate::seq_lemmas::lemma_filter_pairwise;
use crate::seq_lemmas::lemma_filter_push;
use crate::seq_lemmas::lemma_insert_keeps_pairwise;
use crate::seq_lemmas::pairwise;

verus! {

/// Retry count at which an entry counts as permanently abandoned, making it
/// eligible for the retention sweep.
pub const EXHAUSTED_RETRIES: u32 = 5;

/// Milliseconds in one day, for the retention window.
pub const MS_PER_DAY: i64 = 86400000;

/// The mathematical content of a sequence of stored entries.
pub open spec fn entries_view(s: Seq<DeadLetterQueueEntry>) -> Seq<DeadLetterQueueEntryV> {
    s.map_values(|e: DeadLetterQueueEntry| e@)
}

/// Some entry of `rows` sits at `slot`.
pub open spec fn contains_slot(rows: Seq<DeadLetterQueueEntryV>, slot: i64) -> bool {
    exists|i: int| 0 <= i < rows.len() && rows[i].slot == slot
}

/// Oldest-created-first order.
pub open spec fn created_order() -> spec_fn(DeadLetterQueueEntryV, DeadLetterQueueEntryV) -> bool {
    |a: DeadLetterQueueEntryV, b: DeadLetterQueueEntryV| a.created_at <= b.created_at
}

/// Slots are pairwise distinct.
pub open spec fn distinct_slots() -> spec_fn(DeadLetterQueueEntryV, DeadLetterQueueEntryV) -> bool {
    |a: DeadLetterQueueEntryV, b: DeadLetterQueueEntryV| a.slot != b.slot
}

/// One record per slot, kept oldest-created-first.
pub open spec fn wf_entries(rows: Seq<DeadLetterQueueEntryV>) -> bool {
    pairwise(rows, created_order()) && pairwise(rows, distinct_slots())
}

/// The entry is still within the given retry budget.
pub open spec fn retry_pred(max_retries: u32) -> spec_fn(DeadLetterQueueEntryV) -> bool {
    |e: DeadLetterQueueEntryV| e.retry_count < max_retries
}

/// The entry does not sit at `slot`.
pub open spec fn other_slot_pred(slot: i64) -> spec_fn(DeadLetterQueueEntryV) -> bool {
    |e: DeadLetterQueueEntryV| e.slot != slot
}

/// An entry falls to the retention sweep only when its retry budget is
/// exhausted and its last failure lies beyond the retention window.
pub open spec fn spec_swept(e: DeadLetterQueueEntryV, now_ms: i64, retention_days: i32) -> bool {
    e.retry_count >= EXHAUSTED_RETRIES && (e.failed_at as int) < now_ms - retention_days
        * MS_PER_DAY
}

/// The entry survives a retention sweep at `now_ms`.
pub open spec fn retained_pred(now_ms: i64, retention_days: i32) -> spec_fn(
    DeadLetterQueueEntryV,
) -> bool {
    |e: DeadLetterQueueEntryV| !spec_swept(e, now_ms, retention_days)
}

/// The merge a repeated failure performs on the existing entry: the retry
/// count rises by one (saturating at the width limit), the error text is
/// replaced, the retry/failure timestamps refresh, and identity, slot and
/// creation timestamp stay.
pub open spec fn merged(e: DeadLetterQueueEntryV, error: Seq<char>, now_ms: i64) -> DeadLetterQueueEntryV {
    DeadLetterQueueEntryV {
        id: e.id,
        slot: e.slot,
        error: error,
        retry_count: if e.retry_count == u32::MAX {
            e.retry_count
        } else {
            (e.retry_count + 1) as u32
        },
        last_retry: Some(now_ms),
        created_at: e.created_at,
        failed_at: now_ms,
    }
}

/// The entry a first failure for a slot creates.
pub open spec fn fresh_entry(id: u128, slot: i64, error: Seq<char>, now_ms: i64) -> DeadLetterQueueEntryV {
    DeadLetterQueueEntryV {
        id: id,
        slot: slot,
        error: error,
        retry_count: 0,
        last_retry: None,
        created_at: now_ms,
        failed_at: now_ms,
    }
}

/// The entry has the given identifier.
pub open spec fn id_match_pred(id: u128) -> spec_fn(DeadLetterQueueEntryV) -> bool {
    |e: DeadLetterQueueEntryV| e.id == id
}

/// What a full-row write-back replaces: the caller-managed retry
/// bookkeeping (retry count, last-retry timestamp, error text); identity,
/// slot and creation/failure metadata stay.
pub open spec fn replaced(
    e: DeadLetterQueueEntryV,
    n: DeadLetterQueueEntryV,
) -> DeadLetterQueueEntryV {
    DeadLetterQueueEntryV {
        id: e.id,
        slot: e.slot,
        error: n.error,
        retry_count: n.retry_count,
        last_retry: n.last_retry,
        created_at: e.created_at,
        failed_at: e.failed_at,
    }
}

/// Index of the entry at `slot`; meaningful when the slot is present.
pub open spec fn slot_index(rows: Seq<DeadLetterQueueEntryV>, slot: i64) -> int
    decreases rows.len(),
{
    if rows.len() == 0 {
        0
    } else if rows.first().slot == slot {
        0
    } else {
        1 + slot_index(rows.drop_first(), slot)
    }
}

/// The entry at `slot`; meaningful when the slot is present.
pub open spec fn entry_at(rows: Seq<DeadLetterQueueEntryV>, slot: i64) -> DeadLetterQueueEntryV {
    rows[slot_index(rows, slot)]
}

/// Insertion into a creation-ordered sequence, after all entries created no
/// later than the new one.
pub open spec fn sorted_insert_created(
    rows: Seq<DeadLetterQueueEntryV>,
    e: DeadLetterQueueEntryV,
) -> Seq<DeadLetterQueueEntryV>
    decreases rows.len(),
{
    if rows.len() == 0 {
        seq![e]
    } else if e.created_at < rows.first().created_at {
        seq![e] + rows
    } else {
        seq![rows.first()] + sorted_insert_created(rows.drop_first(), e)
    }
}

/// The state transition of the dead-letter upsert.
pub open spec fn spec_create(
    rows: Seq<DeadLetterQueueEntryV>,
    fresh_id: u128,
    slot: i64,
    error: Seq<char>,
    now_ms: i64,
) -> Seq<DeadLetterQueueEntryV> {
    if contains_slot(rows, slot) {
        rows.update(slot_index(rows, slot), merged(entry_at(rows, slot), error, now_ms))
    } else {
        sorted_insert_created(rows, fresh_entry(fresh_id, slot, error, now_ms))
    }
}

/// The identifier a fresh entry receives after the current one.
pub open spec fn next_id_after(cur: u128) -> u128 {
    if cur == u128::MAX {
        0
    } else {
        (cur + 1) as u128
    }
}

proof fn lemma_slot_index_of(rows: Seq<DeadLetterQueueEntryV>, slot: i64, i: int)
    requires
        0 <= i < rows.len(),
        rows[i].slot == slot,
        forall|m: int| 0 <= m < i ==> rows[m].slot != slot,
    ensures
        slot_index(rows, slot) == i,
        entry_at(rows, slot) == rows[i],
    decreases rows.len(),
{
    if rows.first().slot == slot {
        assert(rows[0].slot == slot);
        assert(i == 0);
    } else {
        let sub = rows.drop_first();
        assert(rows[0].slot != slot);
        assert(i > 0);
        lemma_slot_index_of(sub, slot, i - 1);
    }
}

proof fn lemma_sorted_insert_created_at(
    rows: Seq<DeadLetterQueueEntryV>,
    e: DeadLetterQueueEntryV,
    k: int,
)
    requires
        0 <= k <= rows.len(),
        forall|m: int| 0 <= m < k ==> rows[m].created_at <= e.created_at,
        k < rows.len() ==> e.created_at < rows[k].created_at,
    ensures
        sorted_insert_created(rows, e) == rows.insert(k, e),
    decreases rows.len(),
{
    if rows.len() == 0 {
        assert(sorted_insert_created(rows, e) =~= rows.insert(0, e));
    } else if k == 0 {
        assert(e.created_at < rows[0].created_at);
        assert(seq![e] + rows =~= rows.insert(0, e));
    } else {
        assert(rows[0].created_at <= e.created_at);
        let sub = rows.drop_first();
        lemma_sorted_insert_created_at(sub, e, k - 1);
        assert(seq![rows.first()] + sub.insert(k - 1, e) =~= rows.insert(k, e));
    }
}

/// Two successive failures for the same fresh slot leave exactly one entry
/// for it: the first create stores a fresh record with the retry count at
/// zero, the second merges into that record — its retry count rises to one,
/// its error text and failure timestamps refresh, and its identity and
/// creation timestamp stay untouched.
pub proof fn lemma_create_merges(
    rows: Seq<DeadLetterQueueEntryV>,
    id1: u128,
    id2: u128,
    slot: i64,
    e1: Seq<char>,
    e2: Seq<char>,
    t1: i64,
    t2: i64,
)
    requires
        wf_entries(rows),
        !contains_slot(rows, slot),
    ensures
        ({
            let once = spec_create(rows, id1, slot, e1, t1);
            let twice = spec_create(once, id2, slot, e2, t2);
            &&& wf_entries(once)
            &&& contains_slot(once, slot)
            &&& once.len() == rows.len() + 1
            &&& entry_at(once, slot) == fresh_entry(id1, slot, e1, t1)
            &&& twice.len() == once.len()
            &&& contains_slot(twice, slot)
            &&& entry_at(twice, slot).retry_count == 1
            &&& entry_at(twice, slot).created_at == t1
            &&& entry_at(twice, slot).failed_at == t2
            &&& entry_at(twice, slot).last_retry == Some(t2)
            &&& entry_at(twice, slot).error == e2
            &&& entry_at(twice, slot).id == id1
        }),
{
    let fresh = fresh_entry(id1, slot, e1, t1);
    let k = spec_insert_pos_created(rows, t1);
    lemma_insert_pos_created_props(rows, t1);
    lemma_sorted_insert_created_at(rows, fresh, k);
    let once = spec_create(rows, id1, slot, e1, t1);
    assert(once == rows.insert(k, fresh));
    assert(once[k] == fresh);
    assert(contains_slot(once, slot));
    assert forall|m: int| 0 <= m < k implies once[m].slot != slot by {
        assert(once[m] == rows[m]);
    }
    lemma_slot_index_of(once, slot, k);
    assert(entry_at(once, slot) == fresh);
    assert forall|m: int| 0 <= m < k implies created_order()(rows[m], fresh) by {}
    assert forall|m: int| k <= m < rows.len() implies created_order()(fresh, rows[m]) by {
        if m > k {
            assert(created_order()(rows[k], rows[m]));
        }
    }
    assert forall|m: int| 0 <= m < k implies distinct_slots()(rows[m], fresh) by {}
    assert forall|m: int| k <= m < rows.len() implies distinct_slots()(fresh, rows[m]) by {}
    lemma_insert_keeps_pairwise(rows, fresh, k, created_order());
    lemma_insert_keeps_pairwise(rows, fresh, k, distinct_slots());
    assert(wf_entries(once));
    let twice = spec_create(once, id2, slot, e2, t2);
    assert(twice == once.update(k, merged(fresh, e2, t2)));
    assert(twice[k] == merged(fresh, e2, t2));
    assert forall|m: int| 0 <= m < k implies twice[m].slot != slot by {
        assert(twice[m] == once[m]);
    }
    lemma_slot_index_of(twice, slot, k);
    assert(entry_at(twice, slot) == merged(fresh, e2, t2));
}

/// The position where an entry created at `t` lands: after every entry
/// created no later than `t`.
pub open spec fn spec_insert_pos_created(rows: Seq<DeadLetterQueueEntryV>, t: i64) -> int
    decreases rows.len(),
{
    if rows.len() == 0 {
        0
    } else if t < rows.first().created_at {
        0
    } else {
        1 + spec_insert_pos_created(rows.drop_first(), t)
    }
}

proof fn lemma_insert_pos_created_props(rows: Seq<DeadLetterQueueEntryV>, t: i64)
    requires
        pairwise(rows, created_order()),
    ensures
        0 <= spec_insert_pos_created(rows, t) <= rows.len(),
        forall|m: int| 0 <= m < spec_insert_pos_created(rows, t) ==> rows[m].created_at <= t,
        spec_insert_pos_created(rows, t) < rows.len() ==> t < rows[spec_insert_pos_created(
            rows,
            t,
        )].created_at,
    decreases rows.len(),
{
    if rows.len() > 0 {
        let k = spec_insert_pos_created(rows, t);
        if t < rows.first().created_at {
        } else {
            let sub = rows.drop_first();
            assert forall|i: int, j: int|
                0 <= i < j < sub.len() implies #[trigger] created_order()(sub[i], sub[j]) by {
                assert(created_order()(rows[i + 1], rows[j + 1]));
            }
            lemma_insert_pos_created_props(sub, t);
            assert forall|m: int| 0 <= m < k implies rows[m].created_at <= t by {
                if m > 0 {
                    assert(sub[m - 1].created_at <= t);
                }
            }
        }
    }
}

/// Durable bookkeeping of failed slots with bounded retry.
pub struct DlqRepository {
    rows: Vec<DeadLetterQueueEntry>,
    next_id: u128,
}

impl View for DlqRepository {
    type V = Seq<DeadLetterQueueEntryV>;

    closed spec fn view(&self) -> Seq<DeadLetterQueueEntryV> {
        entries_view(self.rows@)
    }
}

impl DlqRepository {
    /// At most one entry per slot, kept oldest-created-first.
    pub open spec fn wf(&self) -> bool {
        wf_entries(self@)
    }

    /// The identifier the next fresh entry will receive.
    pub closed spec fn spec_next_id(&self) -> u128 {
        self.next_id
    }

    /// An empty queue.
    pub fn new() -> (s: Self)
        ensures
            s.wf(),
            s@ == Seq::<DeadLetterQueueEntryV>::empty(),
            s.spec_next_id() == 0,
    {
        let s = DlqRepository { rows: Vec::new(), next_id: 0 };
        proof {
            assert(s@ =~= Seq::<DeadLetterQueueEntryV>::empty());
        }
        s
    }

    /// Upsert keyed by slot, stamped at `now_ms`: the first failure for a
    /// slot creates an entry with the retry count at zero; a repeated
    /// failure merges into the existing entry, raising its retry count by
    /// exactly one, replacing the error, and refreshing the retry/failure
    /// timestamps while the creation timestamp stays.
    pub fn create_at(&mut self, slot: i64, error: &str, now_ms: i64)
        requires
            old(self).wf(),
        ensures
            final(self).wf(),
            final(self)@ == spec_create(old(self)@, old(self).spec_next_id(), slot, error@, now_ms),
            final(self).spec_next_id() == if contains_slot(old(self)@, slot) {
                old(self).spec_next_id()
            } else {
                next_id_after(old(self).spec_next_id())
            },
            contains_slot(final(self)@, slot),
    {
        let n = self.rows.len();
        let mut i: usize = 0;
        while i < n && self.rows[i].slot != slot
            invariant
                self.rows@ == old(self).rows@,
                self.next_id == old(self).next_id,
                n == self.rows@.len(),
                0 <= i <= n,
                forall|m: int| 0 <= m < i ==> self@[m].slot != slot,
            decreases n - i,
        {
            i += 1;
        }
        if i < n {
            proof {
                assert(self@[i as int].slot == slot);
                assert(contains_slot(self@, slot));
                lemma_slot_index_of(self@, slot, i as int);
            }
            let ghost before = self@;
            let e = self.rows.remove(i);
            let newe = DeadLetterQueueEntry {
                id: e.id,
                slot: e.slot,
                error: error.to_owned(),
                retry_count: if e.retry_count == u32::MAX {
                    e.retry_count
                } else {
                    e.retry_count + 1
                },
                last_retry: Some(now_ms),
                created_at: e.created_at,
                failed_at: now_ms,
            };
            self.rows.insert(i, newe);
            proof {
                assert(newe@ =~= merged(before[i as int], error@, now_ms));
                assert(self@ =~= before.update(i as int, merged(before[i as int], error@, now_ms)));
                assert(self@ == spec_create(before, old(self).spec_next_id(), slot, error@, now_ms));
                assert(self@[i as int].slot == slot);
                assert(contains_slot(self@, slot));
                let after = self@;
                assert forall|a: int, c: int|
                    0 <= a < c < after.len() implies #[trigger] created_order()(
                    after[a],
                    after[c],
                ) by {
                    assert(created_order()(before[a], before[c]));
                    assert(after[a].created_at == before[a].created_at);
                    assert(after[c].created_at == before[c].created_at);
                }
                assert forall|a: int, c: int|
                    0 <= a < c < after.len() implies #[trigger] distinct_slots()(
                    after[a],
                    after[c],
                ) by {
                    assert(distinct_slots()(before[a], before[c]));
                    assert(after[a].slot == before[a].slot);
                    assert(after[c].slot == before[c].slot);
                }
            }
        } else {
            proof {
                assert(!contains_slot(self@, slot));
            }
            let ghost before = self@;
            let m = self.rows.len();
            let mut j: usize = 0;
            while j < m && self.rows[j].created_at <= now_ms
                invariant
                    self.rows@ == old(self).rows@,
                    self.next_id == old(self).next_id,
                    m == self.rows@.len(),
                    0 <= j <= m,
                    forall|p: int| 0 <= p < j ==> self@[p].created_at <= now_ms,
                decreases m - j,
            {
                j += 1;
            }
            let id = self.next_id;
            self.next_id = if id == u128::MAX {
                0
            } else {
                id + 1
            };
            let newe = DeadLetterQueueEntry {
                id: id,
                slot: slot,
                error: error.to_owned(),
                retry_count: 0,
                last_retry: None,
                created_at: now_ms,
                failed_at: now_ms,
            };
            self.rows.insert(j, newe);
            proof {
                let fresh = fresh_entry(id, slot, error@, now_ms);
                assert(newe@ =~= fresh);
                assert(self@ =~= before.insert(j as int, fresh));
                lemma_sorted_insert_created_at(before, fresh, j as int);
                assert(self@ == spec_create(before, id, slot, error@, now_ms));
                assert(self@[j as int] == fresh);
                assert(contains_slot(self@, slot));
                assert forall|p: int| 0 <= p < j implies created_order()(before[p], fresh) by {}
                assert forall|p: int| j <= p < before.len() implies created_order()(
                    fresh,
                    before[p],
                ) by {
                    if p > j {
                        assert(created_order()(before[j as int], before[p]));
                    }
                }
                assert forall|p: int| 0 <= p < j implies distinct_slots()(before[p], fresh) by {}
                assert forall|p: int| j <= p < before.len() implies distinct_slots()(
                    fresh,
                    before[p],
                ) by {}
                lemma_insert_keeps_pairwise(before, fresh, j as int, created_order());
                lemma_insert_keeps_pairwise(before, fresh, j as int, distinct_slots());
            }
        }
    }

    /// Upsert keyed by slot, stamped with the current wall clock; apart
    /// from the timestamps this behaves as [`DlqRepository::create_at`].
    pub fn create(&mut self, slot: i64, error: &str)
        requires
            old(self).wf(),
        ensures
            final(self).wf(),
            exists|t: i64|
                final(self)@ == spec_create(
                    old(self)@,
                    old(self).spec_next_id(),
                    slot,
                    error@,
                    t,
                ),
            contains_slot(final(self)@, slot),
    {
        let now_ms = now_millis();
        self.create_at(slot, error, now_ms);
        proof {
            assert(self@ == spec_create(
                old(self)@,
                old(self).spec_next_id(),
                slot,
                error@,
                now_ms,
            ));
        }
    }

    /// Point lookup for eligibility checks: the unique entry at `slot`, or
    /// explicit absence.
    pub fn get_by_slot(&self, slot: i64) -> (r: Option<DeadLetterQueueEntry>)
        requires
            self.wf(),
        ensures
            match r {
                Some(e) => e@.slot == slot && contains_slot(self@, slot) && forall|i: int|
                    0 <= i < self@.len() && self@[i].slot == slot ==> self@[i] == e@,
                None => !contains_slot(self@, slot),
            },
    {
        let n = self.rows.len();
        let mut i: usize = 0;
        while i < n
            invariant
                n == self.rows@.len(),
                0 <= i <= n,
                self.wf(),
                forall|m: int| 0 <= m < i ==> self@[m].slot != slot,
            decreases n - i,
        {
            if self.rows[i].slot == slot {
                let e = self.rows[i].duplicate();
                proof {
                    assert(self@[i as int].slot == slot);
                    assert forall|p: int|
                        0 <= p < self@.len() && self@[p].slot == slot implies self@[p] == e@ by {
                        if p < i {
                            assert(distinct_slots()(self@[p], self@[i as int]));
                        }
                        if p > i {
                            assert(distinct_slots()(self@[i as int], self@[p]));
                        }
                    }
                }
                return Some(e);
            }
            i += 1;
        }
        None
    }

    /// The entries still within the retry budget, oldest-created-first, so
    /// that the oldest failures are re-driven first. No returned entry has
    /// reached `max_retries`.
    pub fn get_retryable(&self, max_retries: u32) -> (r: Vec<DeadLetterQueueEntry>)
        requires
            self.wf(),
        ensures
            entries_view(r@) == self@.filter(retry_pred(max_retries)),
            forall|i: int| 0 <= i < r@.len() ==> #[trigger] entries_view(r@)[i].retry_count
                < max_retries,
            forall|i: int, j: int|
                0 <= i < j < r@.len() ==> #[trigger] entries_view(r@)[i].created_at
                    <= #[trigger] entries_view(r@)[j].created_at,
    {
        let ghost pred = retry_pred(max_retries);
        let n = self.rows.len();
        let mut out: Vec<DeadLetterQueueEntry> = Vec::new();
        let mut i: usize = 0;
        proof {
            assert(entries_view(out@) =~= self@.subrange(0, 0).filter(pred));
        }
        while i < n
            invariant
                n == self.rows@.len(),
                0 <= i <= n,
                self.wf(),
                pred == retry_pred(max_retries),
                entries_view(out@) == self@.subrange(0, i as int).filter(pred),
            decreases n - i,
        {
            let ghost prefix = self@.subrange(0, i as int);
            proof {
                lemma_filter_push(prefix, pred, self@[i as int]);
                assert(self@.subrange(0, i as int + 1) =~= prefix.push(self@[i as int]));
            }
            if self.rows[i].retry_count < max_retries {
                let e = self.rows[i].duplicate();
                let ghost old_out = out@;
                out.push(e);
                proof {
                    assert(entries_view(out@) =~= entries_view(old_out).push(self@[i as int]));
                }
            } else {
                proof {
                    assert(!pred(self@[i as int]));
                }
            }
            i += 1;
        }
        proof {
            assert(self@.subrange(0, n as int) =~= self@);
            let res = entries_view(out@);
            assert(res == self@.filter(pred));
            lemma_filter_pairwise(self@, pred, created_order());
            assert forall|k: int| 0 <= k < res.len() implies #[trigger] res[k].retry_count
                < max_retries by {
                self@.lemma_filter_pred(pred, k);
            }
            assert forall|a: int, c: int|
                0 <= a < c < res.len() implies #[trigger] res[a].created_at
                    <= #[trigger] res[c].created_at by {
                assert(created_order()(res[a], res[c]));
            }
        }
        out
    }

    /// Full write-back of the caller-managed retry bookkeeping of the entry
    /// whose identifier matches: retry count, last-retry timestamp and error
    /// text are taken from `entry`; identity, slot and creation metadata
    /// stay. Reports how many entries matched.
    pub fn update(&mut self, entry: &DeadLetterQueueEntry) -> (r: u64)
        requires
            old(self).wf(),
        ensures
            final(self).wf(),
            final(self)@.len() == old(self)@.len(),
            forall|i: int|
                0 <= i < old(self)@.len() ==> #[trigger] final(self)@[i] == (if old(
                    self,
                )@[i].id == entry@.id {
                    replaced(old(self)@[i], entry@)
                } else {
                    old(self)@[i]
                }),
            r == old(self)@.filter(id_match_pred(entry@.id)).len(),
    {
        let ghost predid = id_match_pred(entry@.id);
        let n = self.rows.len();
        let mut i: usize = 0;
        let mut matched: usize = 0;
        proof {
            assert(old(self)@.subrange(0, 0).filter(predid) =~= Seq::<
                DeadLetterQueueEntryV,
            >::empty());
        }
        while i < n
            invariant
                n == self.rows@.len(),
                0 <= i <= n,
                matched <= i,
                self.rows@.len() == old(self).rows@.len(),
                predid == id_match_pred(entry@.id),
                matched == old(self)@.subrange(0, i as int).filter(predid).len(),
                forall|m: int| i <= m < n ==> #[trigger] self@[m] == old(self)@[m],
                forall|m: int|
                    0 <= m < i ==> #[trigger] self@[m] == (if old(self)@[m].id == entry@.id {
                        replaced(old(self)@[m], entry@)
                    } else {
                        old(self)@[m]
                    }),
            decreases n - i,
        {
            let ghost prefix = old(self)@.subrange(0, i as int);
            proof {
                lemma_filter_push(prefix, predid, old(self)@[i as int]);
                assert(old(self)@.subrange(0, i as int + 1) =~= prefix.push(old(self)@[i as int]));
                prefix.lemma_filter_len(predid);
            }
            if self.rows[i].id == entry.id {
                let ghost before = self@;
                let e = self.rows.remove(i);
                let newe = DeadLetterQueueEntry {
                    id: e.id,
                    slot: e.slot,
                    error: entry.error.clone(),
                    retry_count: entry.retry_count,
                    last_retry: entry.last_retry,
                    created_at: e.created_at,
                    failed_at: e.failed_at,
                };
                self.rows.insert(i, newe);
                matched += 1;
                proof {
                    assert(e@ == before[i as int]);
                    assert(before[i as int] == old(self)@[i as int]);
                    assert(before[i as int].id == entry@.id);
                    assert(predid(old(self)@[i as int]));
                    assert forall|m: int| 0 <= m < n && m != i implies #[trigger] self@[m]
                        == before[m] by {
                        assert(self@[m] == entries_view(self.rows@)[m]);
                    }
                    assert(self.rows@[i as int] == newe);
                    assert(self@[i as int] == newe@);
                    assert(newe@ =~= replaced(old(self)@[i as int], entry@));
                }
            } else {
                proof {
                    assert(self@[i as int] == old(self)@[i as int]);
                    assert(self@[i as int].id != entry@.id);
                    assert(!predid(old(self)@[i as int]));
                }
            }
            i += 1;
        }
        proof {
            assert(old(self)@.subrange(0, n as int) =~= old(self)@);
        }
        let r = matched as u64;
        proof {
            let after = self@;
            let bef = old(self)@;
            assert forall|a: int, c: int|
                0 <= a < c < after.len() implies #[trigger] created_order()(after[a], after[c]) by {
                assert(created_order()(bef[a], bef[c]));
                assert(after[a].created_at == bef[a].created_at);
                assert(after[c].created_at == bef[c].created_at);
            }
            assert forall|a: int, c: int|
                0 <= a < c < after.len() implies #[trigger] distinct_slots()(after[a], after[c]) by {
                assert(distinct_slots()(bef[a], bef[c]));
                assert(after[a].slot == bef[a].slot);
                assert(after[c].slot == bef[c].slot);
            }
        }
        r
    }

    /// Removes the entry at `slot` once the slot is finally ingested, so
    /// that membership always reflects currently outstanding failures.
    /// Reports how many entries were removed.
    pub fn delete_by_slot(&mut self, slot: i64) -> (r: u64)
        requires
            old(self).wf(),
        ensures
            final(self).wf(),
            final(self)@ == old(self)@.filter(other_slot_pred(slot)),
            !contains_slot(final(self)@, slot),
            r == old(self)@.len() - final(self)@.len(),
    {
        let ghost pred = other_slot_pred(slot);
        let n = self.rows.len();
        let mut kept: Vec<DeadLetterQueueEntry> = Vec::new();
        let mut i: usize = 0;
        proof {
            assert(entries_view(kept@) =~= self@.subrange(0, 0).filter(pred));
        }
        while i < n
            invariant
                n == self.rows@.len(),
                0 <= i <= n,
                kept@.len() <= i,
                pred == other_slot_pred(slot),
                entries_view(kept@) == self@.subrange(0, i as int).filter(pred),
            decreases n - i,
        {
            let ghost prefix = self@.subrange(0, i as int);
            proof {
                lemma_filter_push(prefix, pred, self@[i as int]);
                assert(self@.subrange(0, i as int + 1) =~= prefix.push(self@[i as int]));
            }
            if self.rows[i].slot != slot {
                let e = self.rows[i].duplicate();
                let ghost old_kept = kept@;
                kept.push(e);
                proof {
                    assert(entries_view(kept@) =~= entries_view(old_kept).push(self@[i as int]));
                }
            } else {
                proof {
                    assert(!pred(self@[i as int]));
                }
            }
            i += 1;
        }
        let removed = (n - kept.len()) as u64;
        let ghost before = self@;
        self.rows = kept;
        proof {
            assert(before.subrange(0, n as int) =~= before);
            assert(self@ == before.filter(pred));
            before.lemma_filter_len(pred);
            lemma_filter_pairwise(before, pred, created_order());
            lemma_filter_pairwise(before, pred, distinct_slots());
            assert forall|k: int| 0 <= k < self@.len() implies self@[k].slot != slot by {
                before.lemma_filter_pred(pred, k);
            }
        }
        removed
    }

    /// Retention sweep: removes exactly the entries whose retry budget is
    /// exhausted and whose last failure lies beyond the retention window;
    /// entries still within the retry budget are kept regardless of age.
    /// Reports how many entries were removed.
    pub fn cleanup_old_entries(&mut self, retention_days: i32, now_ms: i64) -> (r: u64)
        requires
            old(self).wf(),
            retention_days >= 0,
        ensures
            final(self).wf(),
            final(self)@ == old(self)@.filter(retained_pred(now_ms, retention_days)),
            r == old(self)@.len() - final(self)@.len(),
    {
        let ghost pred = retained_pred(now_ms, retention_days);
        let window: i64 = (retention_days as i64) * MS_PER_DAY;
        let cutoff: Option<i64> = if now_ms >= i64::MIN + window {
            Some(now_ms - window)
        } else {
            None
        };
        let n = self.rows.len();
        let mut kept: Vec<DeadLetterQueueEntry> = Vec::new();
        let mut i: usize = 0;
        proof {
            assert(entries_view(kept@) =~= self@.subrange(0, 0).filter(pred));
        }
        while i < n
            invariant
                n == self.rows@.len(),
                0 <= i <= n,
                kept@.len() <= i,
                pred == retained_pred(now_ms, retention_days),
                window == retention_days * MS_PER_DAY,
                match cutoff {
                    Some(c) => c == now_ms - window,
                    None => now_ms - window < i64::MIN,
                },
                entries_view(kept@) == self@.subrange(0, i as int).filter(pred),
            decreases n - i,
        {
            let ghost prefix = self@.subrange(0, i as int);
            proof {
                lemma_filter_push(prefix, pred, self@[i as int]);
                assert(self@.subrange(0, i as int + 1) =~= prefix.push(self@[i as int]));
            }
            let swept = self.rows[i].retry_count >= EXHAUSTED_RETRIES && match cutoff {
                Some(c) => self.rows[i].failed_at < c,
                None => false,
            };
            proof {
                assert(swept == spec_swept(self@[i as int], now_ms, retention_days));
            }
            if !swept {
                let e = self.rows[i].duplicate();
                let ghost old_kept = kept@;
                kept.push(e);
                proof {
                    assert(entries_view(kept@) =~= entries_view(old_kept).push(self@[i as int]));
                }
            }
            i += 1;
        }
        let removed = (n - kept.len()) as u64;
        let ghost before = self@;
        self.rows = kept;
        proof {
            assert(before.subrange(0, n as int) =~= before);
            assert(self@ == before.filter(pred));
            before.lemma_filter_len(pred);
            lemma_filter_pairwise(before, pred, created_order());
            lemma_filter_pairwise(before, pred, distinct_slots());
        }
        removed
    }

    /// Total number of outstanding entries.
    pub fn count(&self) -> (r: u64)
        ensures
            r == self@.len(),
    {
        self.rows.len() as u64
    }
}

} // verus!
