use solana_indexer::models::CreateRawBlock;
use solana_indexer::raw_block::RawBlockRepository;

fn block(slot: i64, hash: &str) -> CreateRawBlock {
    CreateRawBlock {
        slot,
        data: format!("{{\"slot\":{}}}", slot),
        block_hash: hash.to_string(),
        parent_slot: if slot > 0 { Some(slot - 1) } else { None },
        parent_hash: None,
        processing_duration_ms: Some(12),
    }
}

#[test]
fn insert_reports_one_row_for_a_fresh_slot() {
    let mut repo = RawBlockRepository::new();
    let affected = repo.insert_at(&block(7, "a"), 1_000);
    assert_eq!(affected, 1);
    assert_eq!(repo.count(), 1);
    assert!(repo.slot_exists(7));
}

#[test]
fn duplicate_insert_is_absorbed_with_zero_rows() {
    let mut repo = RawBlockRepository::new();
    assert_eq!(repo.insert_at(&block(7, "a"), 1_000), 1);
    // Second insert for the same slot: no error, zero rows, nothing changes.
    assert_eq!(repo.insert_at(&block(7, "b"), 2_000), 0);
    assert_eq!(repo.count(), 1);
    let row = repo.get_by_slot(7).expect("row must exist");
    assert_eq!(row.block_hash, "a");
    assert_eq!(row.created_at, 1_000);
    assert_eq!(row.updated_at, 1_000);
}

#[test]
fn insert_with_wall_clock_stores_the_row() {
    let mut repo = RawBlockRepository::new();
    assert_eq!(repo.insert(&block(3, "h")), 1);
    assert_eq!(repo.insert(&block(3, "h")), 0);
    assert_eq!(repo.count(), 1);
}

#[test]
fn get_by_slot_reports_explicit_absence() {
    let mut repo = RawBlockRepository::new();
    assert!(repo.get_by_slot(5).is_none());
    repo.insert_at(&block(5, "x"), 10);
    let row = repo.get_by_slot(5).expect("row must exist");
    assert_eq!(row.slot, 5);
    assert_eq!(row.block_hash, "x");
    assert_eq!(row.parent_slot, Some(4));
    assert!(repo.get_by_slot(6).is_none());
}

#[test]
fn latest_block_has_the_maximum_slot() {
    let mut repo = RawBlockRepository::new();
    assert!(repo.get_latest_block().is_none());
    repo.insert_at(&block(5, "a"), 1);
    repo.insert_at(&block(9, "b"), 2);
    repo.insert_at(&block(2, "c"), 3);
    let latest = repo.get_latest_block().expect("store is not empty");
    assert_eq!(latest.slot, 9);
    assert_eq!(latest.block_hash, "b");
}

#[test]
fn range_query_returns_present_slots_ascending_and_reveals_the_gap() {
    let mut repo = RawBlockRepository::new();
    for slot in [13, 10, 14, 11] {
        repo.insert_at(&block(slot, "h"), 100);
    }
    let rows = repo.get_blocks_in_range(10, 14);
    let slots: Vec<i64> = rows.iter().map(|b| b.slot).collect();
    assert_eq!(slots, vec![10, 11, 13, 14]);
    // Diffing against the expected contiguous range identifies the gap.
    let missing: Vec<i64> = (10..=14).filter(|s| !slots.contains(s)).collect();
    assert_eq!(missing, vec![12]);
}

#[test]
fn range_query_bounds_are_inclusive() {
    let mut repo = RawBlockRepository::new();
    for slot in [1, 2, 3, 4, 5] {
        repo.insert_at(&block(slot, "h"), 100);
    }
    let rows = repo.get_blocks_in_range(2, 4);
    let slots: Vec<i64> = rows.iter().map(|b| b.slot).collect();
    assert_eq!(slots, vec![2, 3, 4]);
    assert!(repo.get_blocks_in_range(6, 10).is_empty());
}

#[test]
fn exists_and_count_track_the_store() {
    let mut repo = RawBlockRepository::new();
    assert_eq!(repo.count(), 0);
    assert!(!repo.slot_exists(1));
    repo.insert_at(&block(1, "a"), 1);
    repo.insert_at(&block(4, "b"), 2);
    assert_eq!(repo.count(), 2);
    assert!(repo.slot_exists(1));
    assert!(repo.slot_exists(4));
    assert!(!repo.slot_exists(3));
}
