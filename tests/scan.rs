use task_conflict_merge::civil::CivilDateTime;
use task_conflict_merge::scan::{
    is_conflict_name_exec, parse_conflict_name, processing_order, scan_entries, DirEntryInfo, ScanError,
};

fn entry(name: &str, is_file: bool) -> DirEntryInfo {
    DirEntryInfo { name: name.as_bytes().to_vec(), is_file }
}

fn t(day: i8, hour: i8, minute: i8) -> CivilDateTime {
    CivilDateTime { year: 2024, month: 5, day, hour, minute, second: 0 }
}

#[test]
fn conflict_name_is_parsed() {
    let name = b"taskchampion.sync-conflict-20240131-102533-ABCDEF1.sqlite3";
    let d = parse_conflict_name(name, 4).unwrap().unwrap();
    let s = d.timestamp;
    assert_eq!((s.year, s.month, s.day, s.hour, s.minute, s.second), (2024, 1, 31, 10, 25, 33));
    assert_eq!(d.origin_id, b"ABCDEF1".to_vec());
    assert_eq!(d.entry, 4);
}

#[test]
fn other_names_are_ignored() {
    for name in [
        "taskchampion.sqlite3",
        "taskchampion.sync-conflict-20240131-102533-abcdef1.sqlite3",
        "taskchampion.sync-conflict-20240131-102533-ABCDEF.sqlite3",
        "taskchampion.sync-conflict-2024013-1025330-ABCDEF1.sqlite3",
        "taskchampion.sync-conflict-20240131-102533-ABCDEF1.sqlite",
        "taskchampion.sync-conflict-20240131-102533-ABCDEF1.sqlite3.bak",
        "xaskchampion.sync-conflict-20240131-102533-ABCDEF1.sqlite3",
        "taskchampion.sync-conflict-2024a131-102533-ABCDEF1.sqlite3",
        "",
    ] {
        assert!(!is_conflict_name_exec(name.as_bytes()), "{}", name);
        assert!(matches!(parse_conflict_name(name.as_bytes(), 0), Ok(None)), "{}", name);
    }
}

#[test]
fn invalid_calendar_date_is_an_error() {
    let name = b"taskchampion.sync-conflict-20230229-102533-ABCDEF1.sqlite3";
    assert!(is_conflict_name_exec(name));
    assert!(matches!(parse_conflict_name(name, 2), Err(ScanError::InvalidTimestamp { entry: 2 })));
    let name = b"taskchampion.sync-conflict-20231301-102533-ABCDEF1.sqlite3";
    assert!(matches!(parse_conflict_name(name, 0), Err(ScanError::InvalidTimestamp { entry: 0 })));
    let name = b"taskchampion.sync-conflict-20230101-246000-ABCDEF1.sqlite3";
    assert!(matches!(parse_conflict_name(name, 1), Err(ScanError::InvalidTimestamp { entry: 1 })));
}

#[test]
fn scan_keeps_regular_conflict_files_in_listing_order() {
    let entries = vec![
        entry("taskchampion.sqlite3", true),
        entry("taskchampion.sync-conflict-20240502-100000-ZZZZZZ9.sqlite3", true),
        entry("taskchampion.sync-conflict-20240501-100000-AAAAAA1.sqlite3", false),
        entry("notes.txt", true),
        entry("taskchampion.sync-conflict-20240501-090000-BBBBBB2.sqlite3", true),
    ];
    let found = scan_entries(&entries).unwrap();
    assert_eq!(found.iter().map(|d| d.entry).collect::<Vec<_>>(), vec![1, 4]);
    assert_eq!(found[1].origin_id, b"BBBBBB2".to_vec());
    assert_eq!(found[0].timestamp.day, 2);
}

#[test]
fn scan_of_empty_listing_finds_nothing() {
    assert!(scan_entries(&vec![]).unwrap().is_empty());
    assert!(scan_entries(&vec![entry("taskchampion.sqlite3", true)]).unwrap().is_empty());
}

#[test]
fn scan_fails_at_first_bad_conflict_name() {
    let entries = vec![
        entry("taskchampion.sync-conflict-20240502-100000-ZZZZZZ9.sqlite3", true),
        entry("taskchampion.sync-conflict-20240231-100000-ZZZZZZ9.sqlite3", true),
        entry("taskchampion.sync-conflict-20241331-100000-ZZZZZZ9.sqlite3", true),
    ];
    assert_eq!(scan_entries(&entries).err(), Some(ScanError::InvalidTimestamp { entry: 1 }));
}

#[test]
fn bad_name_that_is_a_directory_is_passed_over() {
    let entries = vec![entry("taskchampion.sync-conflict-20240231-100000-ZZZZZZ9.sqlite3", false)];
    assert!(scan_entries(&entries).unwrap().is_empty());
}

#[test]
fn processing_order_sorts_by_time_and_keeps_ties_in_discovery_order() {
    let times = vec![t(3, 0, 0), t(1, 0, 0), t(2, 0, 0), t(1, 0, 0), t(1, 0, 0)];
    assert_eq!(processing_order(&times), vec![1, 3, 4, 2, 0]);
    assert!(processing_order(&vec![]).is_empty());
    assert_eq!(processing_order(&vec![t(1, 0, 0)]), vec![0]);
}
