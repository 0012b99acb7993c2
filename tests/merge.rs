use task_conflict_merge::civil::CivilDateTime;
use task_conflict_merge::history::{History, TaskRecord};

fn at(day: i8, hour: i8, minute: i8) -> CivilDateTime {
    CivilDateTime { year: 2024, month: 3, day, hour, minute, second: 0 }
}

fn rec(id: u128, entry: CivilDateTime, modified: Option<CivilDateTime>, payload: usize) -> TaskRecord {
    TaskRecord { item_id: id, entry_at: entry, modified_at: modified, payload }
}

fn payloads(v: &[TaskRecord]) -> Vec<(u128, usize)> {
    v.iter().map(|r| (r.item_id, r.payload)).collect()
}

#[test]
fn from_fields_checks_the_calendar() {
    assert!(CivilDateTime::from_fields(2024, 2, 29, 12, 0, 0).is_some());
    assert!(CivilDateTime::from_fields(2023, 2, 29, 12, 0, 0).is_none());
    assert!(CivilDateTime::from_fields(2023, 4, 31, 0, 0, 0).is_none());
    assert!(CivilDateTime::from_fields(2023, 13, 1, 0, 0, 0).is_none());
    assert!(CivilDateTime::from_fields(2023, 1, 1, 24, 0, 0).is_none());
    assert!(CivilDateTime::from_fields(2023, 1, 1, 23, 59, 60).is_none());
    let t = CivilDateTime::from_fields(2000, 2, 29, 23, 59, 59).unwrap();
    assert_eq!((t.year, t.month, t.day, t.hour, t.minute, t.second), (2000, 2, 29, 23, 59, 59));
    assert!(CivilDateTime::from_fields(1900, 2, 29, 0, 0, 0).is_none());
}

#[test]
fn is_before_orders_field_by_field() {
    assert!(at(1, 10, 0).is_before(&at(1, 10, 5)));
    assert!(!at(1, 10, 5).is_before(&at(1, 10, 0)));
    assert!(!at(1, 10, 0).is_before(&at(1, 10, 0)));
    assert!(at(1, 23, 59).is_before(&at(2, 0, 0)));
}

#[test]
fn effective_time_falls_back_to_entry() {
    let r = rec(1, at(1, 9, 0), None, 0);
    let t = r.effective_time();
    assert!(!t.is_before(&at(1, 9, 0)) && !at(1, 9, 0).is_before(&t));
    let m = rec(1, at(1, 9, 0), Some(at(2, 9, 0)), 0);
    let t = m.effective_time();
    assert!(!t.is_before(&at(2, 9, 0)) && !at(2, 9, 0).is_before(&t));
}

#[test]
fn unmodified_record_compares_by_entry_time() {
    let mut h = History::new();
    h.insert(rec(1, at(1, 8, 0), Some(at(1, 9, 0)), 0));
    h.insert(rec(1, at(1, 10, 0), None, 1));
    assert_eq!(payloads(&h.merge()), vec![(1, 1)]);
}

#[test]
fn latest_record_wins() {
    let mut h = History::new();
    h.insert(rec(7, at(1, 8, 0), Some(at(1, 9, 0)), 0));
    h.insert(rec(7, at(1, 8, 0), Some(at(3, 9, 0)), 1));
    h.insert(rec(7, at(1, 8, 0), Some(at(2, 9, 0)), 2));
    assert_eq!(payloads(&h.merge()), vec![(7, 1)]);
}

#[test]
fn tie_keeps_earlier_record() {
    let mut h = History::new();
    h.insert(rec(5, at(1, 8, 0), Some(at(1, 9, 0)), 0));
    h.insert(rec(5, at(1, 8, 0), Some(at(2, 9, 0)), 1));
    h.insert(rec(5, at(1, 8, 0), Some(at(2, 9, 0)), 2));
    assert_eq!(payloads(&h.merge()), vec![(5, 1)]);
}

#[test]
fn items_are_kept_apart_in_first_seen_order() {
    let mut h = History::new();
    h.insert_all(&vec![rec(2, at(1, 8, 0), None, 0), rec(1, at(1, 8, 0), None, 1)]);
    h.insert_all(&vec![rec(1, at(1, 8, 0), Some(at(1, 9, 0)), 2), rec(3, at(1, 8, 0), None, 3)]);
    assert_eq!(h.len(), 3);
    assert_eq!(payloads(&h.merge()), vec![(2, 0), (1, 2), (3, 3)]);
}

#[test]
fn merging_twice_gives_the_same_set() {
    let mut h = History::new();
    h.insert(rec(1, at(1, 8, 0), Some(at(1, 9, 0)), 0));
    h.insert(rec(2, at(1, 8, 0), None, 1));
    h.insert(rec(1, at(1, 8, 0), Some(at(1, 11, 0)), 2));
    let first = h.merge();
    let second = h.merge();
    assert_eq!(payloads(&first), payloads(&second));
    let mut again = History::new();
    again.insert_all(&first);
    assert_eq!(payloads(&again.merge()), payloads(&first));
}

#[test]
fn empty_history_merges_to_nothing() {
    let h = History::new();
    assert_eq!(h.len(), 0);
    assert!(h.merge().is_empty());
}
