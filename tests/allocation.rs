use anon_tags::{AnonError, Ledger, TagRecord};

const NOW: i64 = 1_700_000_000;
const HOUR: i64 = 3600;

fn owner(s: &str) -> String {
    s.to_string()
}

fn record(id: u64, who: &str, tag: u32, created_at: i64) -> TagRecord {
    TagRecord { id, owner: owner(who), tag, created_at }
}

#[test]
fn free_seed_is_claimed_as_is() {
    let mut l = Ledger::new();
    assert_eq!(l.generate_tag_with_seed(&owner("u1"), NOW, 42), Ok(42));
    assert_eq!(l.records.len(), 1);
    assert_eq!(l.records[0].owner, "u1");
    assert_eq!(l.records[0].tag, 42);
    assert_eq!(l.records[0].created_at, NOW);
}

#[test]
fn collisions_shift_to_the_next_free_tag() {
    let mut l = Ledger::new();
    assert_eq!(l.generate_tag_with_seed(&owner("a"), NOW, 5), Ok(5));
    assert_eq!(l.generate_tag_with_seed(&owner("b"), NOW, 6), Ok(6));
    assert_eq!(l.generate_tag_with_seed(&owner("c"), NOW, 8), Ok(8));
    assert_eq!(l.generate_tag_with_seed(&owner("d"), NOW, 5), Ok(7));
    assert_eq!(l.generate_tag_with_seed(&owner("e"), NOW, 5), Ok(9));
    assert_eq!(l.generate_tag_with_seed(&owner("f"), NOW, 0), Ok(0));
}

#[test]
fn held_tags_below_the_seed_do_not_move_it() {
    let mut l = Ledger::new();
    for (i, t) in [1u32, 2, 3].iter().enumerate() {
        let who = format!("o{i}");
        assert_eq!(l.generate_tag_with_seed(&who, NOW, *t), Ok(*t));
    }
    assert_eq!(l.generate_tag_with_seed(&owner("x"), NOW, 5), Ok(5));
}

#[test]
fn no_free_tag_from_the_seed_on_is_exhausted() {
    let mut l = Ledger::new();
    assert_eq!(l.generate_tag_with_seed(&owner("a"), NOW, 9999), Ok(9999));
    assert_eq!(l.generate_tag_with_seed(&owner("b"), NOW, 9999), Err(AnonError::Exhausted));
    assert_eq!(l.records.len(), 1);
    assert_eq!(l.generate_tag_with_seed(&owner("b"), NOW, 9998), Ok(9998));
}

#[test]
fn concurrent_owners_get_distinct_tags() {
    let mut l = Ledger::new();
    let mut seen = std::collections::HashSet::new();
    for i in 0..300 {
        let t = l.generate_tag(&format!("user{i}"), NOW + (i % 60)).unwrap();
        assert!(t < 10000);
        assert!(seen.insert(t), "tag {t} handed out twice");
    }
}

#[test]
fn ten_thousand_owners_exhaust_a_window() {
    let mut l = Ledger::new();
    for i in 0..10000u32 {
        assert_eq!(l.generate_tag_with_seed(&format!("user{i}"), NOW, 0), Ok(i));
    }
    assert_eq!(l.generate_tag(&owner("late"), NOW), Err(AnonError::Exhausted));
    assert_eq!(l.generate_tag_with_seed(&owner("late"), NOW, 0), Err(AnonError::Exhausted));
    assert_eq!(l.records.len(), 10000);
    assert!(l.generate_tag(&owner("late"), NOW + HOUR).is_ok());
}

#[test]
fn a_tag_is_free_again_in_the_next_window() {
    let mut l = Ledger::new();
    assert_eq!(l.generate_tag_with_seed(&owner("A"), NOW, 42), Ok(42));
    assert_eq!(l.generate_tag_with_seed(&owner("B"), NOW, 42), Ok(43));
    assert_eq!(l.generate_tag_with_seed(&owner("C"), NOW + HOUR, 42), Ok(42));
}

#[test]
fn only_the_twenty_newest_records_of_an_owner_are_kept() {
    let mut l = Ledger::new();
    l.generate_tag_with_seed(&owner("other"), NOW, 1).unwrap();
    for k in 0..25 {
        assert!(l.generate_tag(&owner("u1"), NOW + k * HOUR).is_ok());
    }
    let mine: Vec<&TagRecord> = l.records.iter().filter(|r| r.owner == "u1").collect();
    assert_eq!(mine.len(), 20);
    assert_eq!(mine[0].created_at, NOW + 5 * HOUR);
    assert_eq!(mine[19].created_at, NOW + 24 * HOUR);
    assert_eq!(l.records.len(), 21);
}

#[test]
fn pruning_breaks_equal_times_by_id() {
    let mut l = Ledger::new();
    for k in 0..21u32 {
        assert_eq!(l.generate_tag_with_seed(&owner("u1"), NOW, k), Ok(k));
    }
    let mine: Vec<u32> = l.records.iter().map(|r| r.tag).collect();
    assert_eq!(mine, (1..21).collect::<Vec<u32>>());
}

#[test]
fn prune_keeps_other_owners() {
    let mut l = Ledger::from_records(vec![
        record(1, "a", 1, NOW),
        record(2, "b", 2, NOW + 1),
        record(3, "a", 3, NOW + 2),
    ])
    .unwrap();
    l.prune(&owner("a"));
    assert_eq!(l.records.len(), 3);
}

#[test]
fn get_tag_and_count_tags_see_the_current_window_only() {
    let mut l = Ledger::new();
    assert_eq!(l.get_tag(&owner("u1"), NOW), None);
    l.generate_tag_with_seed(&owner("u1"), NOW - HOUR, 7).unwrap();
    assert_eq!(l.get_tag(&owner("u1"), NOW), None);
    assert_eq!(l.count_tags(&owner("u1"), NOW), 0);
    l.generate_tag_with_seed(&owner("u1"), NOW, 8).unwrap();
    l.generate_tag_with_seed(&owner("u1"), NOW + 5, 9).unwrap();
    l.generate_tag_with_seed(&owner("u2"), NOW + 6, 10).unwrap();
    assert_eq!(l.get_tag(&owner("u1"), NOW + 10), Some(9));
    assert_eq!(l.count_tags(&owner("u1"), NOW + 10), 2);
    assert_eq!(l.count_tags(&owner("u2"), NOW + 10), 1);
}

#[test]
fn records_out_of_order_are_placed_by_time() {
    let mut l = Ledger::new();
    l.generate_tag_with_seed(&owner("u1"), NOW + 10, 1).unwrap();
    l.generate_tag_with_seed(&owner("u1"), NOW + 5, 2).unwrap();
    assert_eq!(l.records[0].tag, 2);
    assert_eq!(l.records[1].tag, 1);
    assert_eq!(l.get_tag(&owner("u1"), NOW + 20), Some(1));
}

#[test]
fn from_records_accepts_a_valid_ledger() {
    let l = Ledger::from_records(vec![
        record(4, "a", 1, NOW),
        record(9, "b", 2, NOW),
        record(2, "c", 1, NOW + HOUR),
    ])
    .unwrap();
    assert_eq!(l.next_id, 10);
    assert_eq!(l.records.len(), 3);
}

#[test]
fn from_records_rejects_invalid_ledgers() {
    assert!(Ledger::from_records(vec![record(2, "a", 1, NOW), record(1, "b", 2, NOW)]).is_none());
    assert!(Ledger::from_records(vec![record(1, "a", 1, NOW), record(2, "b", 1, NOW + 1)]).is_none());
    assert!(Ledger::from_records(vec![record(1, "a", 10000, NOW)]).is_none());
    assert!(Ledger::from_records(vec![record(u64::MAX, "a", 1, NOW)]).is_none());
    assert!(Ledger::from_records(vec![record(1, "a", 1, 9_000_000_001)]).is_none());
    assert!(Ledger::from_records(Vec::new()).is_some());
}
