use solana_indexer::dlq::DlqRepository;
use solana_indexer::dlq::MS_PER_DAY;

#[test]
fn first_failure_creates_an_entry_with_zero_retries() {
    let mut dlq = DlqRepository::new();
    dlq.create_at(100, "timeout", 1_000);
    let e = dlq.get_by_slot(100).expect("entry must exist");
    assert_eq!(e.slot, 100);
    assert_eq!(e.error, "timeout");
    assert_eq!(e.retry_count, 0);
    assert_eq!(e.last_retry, None);
    assert_eq!(e.created_at, 1_000);
    assert_eq!(e.failed_at, 1_000);
    assert_eq!(dlq.count(), 1);
}

#[test]
fn repeated_failure_merges_and_keeps_creation_time() {
    let mut dlq = DlqRepository::new();
    dlq.create_at(100, "timeout", 1_000);
    dlq.create_at(100, "timeout", 2_000);
    let e = dlq.get_by_slot(100).expect("entry must exist");
    assert_eq!(e.retry_count, 1);
    assert_eq!(e.created_at, 1_000);
    assert_eq!(e.failed_at, 2_000);
    assert_eq!(e.last_retry, Some(2_000));
    assert_eq!(dlq.count(), 1);

    dlq.create_at(100, "connection reset", 3_000);
    let e2 = dlq.get_by_slot(100).expect("entry must exist");
    assert_eq!(e2.retry_count, 2);
    assert_eq!(e2.error, "connection reset");
    assert_eq!(e2.created_at, 1_000);
    assert_eq!(e2.failed_at, 3_000);
    assert_eq!(e2.last_retry, Some(3_000));
    assert_eq!(e2.id, e.id);
    assert_eq!(dlq.count(), 1);
}

#[test]
fn create_with_wall_clock_records_the_slot() {
    let mut dlq = DlqRepository::new();
    dlq.create(42, "timeout");
    let e = dlq.get_by_slot(42).expect("entry must exist");
    assert_eq!(e.retry_count, 0);
    dlq.create(42, "timeout");
    let e2 = dlq.get_by_slot(42).expect("entry must exist");
    assert_eq!(e2.retry_count, 1);
    assert_eq!(e2.created_at, e.created_at);
}

#[test]
fn retryable_entries_are_below_the_budget_and_oldest_first() {
    let mut dlq = DlqRepository::new();
    dlq.create_at(1, "late", 100);
    dlq.create_at(2, "early", 50);
    // Exhaust the budget for slot 3: the sixth failure leaves retry_count 5.
    for t in 0..6 {
        dlq.create_at(3, "dead", 60 + t);
    }
    let eligible = dlq.get_retryable(5);
    let slots: Vec<i64> = eligible.iter().map(|e| e.slot).collect();
    assert_eq!(slots, vec![2, 1]);
    for e in &eligible {
        assert!(e.retry_count < 5);
    }
    let all = dlq.get_retryable(6);
    let all_slots: Vec<i64> = all.iter().map(|e| e.slot).collect();
    assert_eq!(all_slots, vec![2, 3, 1]);
}

#[test]
fn update_replaces_retry_bookkeeping_by_id() {
    let mut dlq = DlqRepository::new();
    dlq.create_at(7, "boom", 100);
    let mut e = dlq.get_by_slot(7).expect("entry must exist");
    e.retry_count = 4;
    e.last_retry = Some(500);
    e.error = "still failing".to_string();
    assert_eq!(dlq.update(&e), 1);
    let read = dlq.get_by_slot(7).expect("entry must exist");
    assert_eq!(read.retry_count, 4);
    assert_eq!(read.last_retry, Some(500));
    assert_eq!(read.error, "still failing");
    assert_eq!(read.created_at, 100);

    let mut ghost_entry = read.clone();
    ghost_entry.id = read.id.wrapping_add(1);
    assert_eq!(dlq.update(&ghost_entry), 0);
}

#[test]
fn delete_by_slot_removes_only_that_entry() {
    let mut dlq = DlqRepository::new();
    dlq.create_at(1, "a", 10);
    dlq.create_at(2, "b", 20);
    assert_eq!(dlq.delete_by_slot(1), 1);
    assert_eq!(dlq.count(), 1);
    assert!(dlq.get_by_slot(1).is_none());
    assert!(dlq.get_by_slot(2).is_some());
    assert_eq!(dlq.delete_by_slot(99), 0);
}

#[test]
fn cleanup_removes_only_exhausted_and_aged_entries() {
    let mut dlq = DlqRepository::new();
    let now = 100 * MS_PER_DAY;
    // Slot 1: exhausted and aged far past the window.
    for t in 0..6 {
        dlq.create_at(1, "dead", 10 * MS_PER_DAY + t);
    }
    // Slot 2: exhausted but failed recently.
    for t in 0..6 {
        dlq.create_at(2, "dead", 99 * MS_PER_DAY + t);
    }
    // Slot 3: aged far past the window but still within the retry budget.
    dlq.create_at(3, "young budget", 10 * MS_PER_DAY);
    assert_eq!(dlq.get_by_slot(1).unwrap().retry_count, 5);
    assert_eq!(dlq.get_by_slot(2).unwrap().retry_count, 5);

    let removed = dlq.cleanup_old_entries(30, now);
    assert_eq!(removed, 1);
    assert!(dlq.get_by_slot(1).is_none());
    assert!(dlq.get_by_slot(2).is_some());
    assert!(dlq.get_by_slot(3).is_some());
    assert_eq!(dlq.count(), 2);
}

#[test]
fn cleanup_with_zero_days_sweeps_exhausted_entries_failed_before_now() {
    let mut dlq = DlqRepository::new();
    for t in 0..6 {
        dlq.create_at(8, "dead", 1_000 + t);
    }
    assert_eq!(dlq.cleanup_old_entries(0, 2_000), 1);
    assert_eq!(dlq.count(), 0);
}
