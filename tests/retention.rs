use task_conflict_merge::config::{Config, DEFAULT_KEEP_NUM};
use task_conflict_merge::retention::{folders_to_prune, parse_backup_folder_name, RetentionError};

fn folder_names(n: usize) -> Vec<Vec<u8>> {
    // listed newest first, so that listing order and age disagree
    (0..n)
        .rev()
        .map(|i| format!("2024-01-{:02}_{:02}-{:02}-00", 1 + i / 60, (i / 60) % 24, i % 60).into_bytes())
        .collect()
}

#[test]
fn backup_folder_name_is_parsed() {
    let t = parse_backup_folder_name(b"2024-02-29_23-59-58").unwrap();
    assert_eq!((t.year, t.month, t.day, t.hour, t.minute, t.second), (2024, 2, 29, 23, 59, 58));
    assert!(parse_backup_folder_name(b"2023-02-29_23-59-58").is_none());
    assert!(parse_backup_folder_name(b"2024-02-29 23-59-58").is_none());
    assert!(parse_backup_folder_name(b"2024-02-29_23-59-5").is_none());
    assert!(parse_backup_folder_name(b"lost+found").is_none());
}

#[test]
fn retention_removes_exactly_the_oldest_excess() {
    let names = folder_names(105);
    let mut removed = folders_to_prune(&names, 100).unwrap();
    removed.sort();
    assert_eq!(removed, vec![100, 101, 102, 103, 104]);
}

#[test]
fn retention_removes_oldest_first() {
    let names = folder_names(105);
    assert_eq!(folders_to_prune(&names, 100).unwrap(), vec![104, 103, 102, 101, 100]);
}

#[test]
fn retention_at_or_above_count_removes_none() {
    let names = folder_names(105);
    assert!(folders_to_prune(&names, 105).unwrap().is_empty());
    assert!(folders_to_prune(&names, 1000).unwrap().is_empty());
}

#[test]
fn retention_of_zero_removes_all() {
    let names = folder_names(105);
    let mut removed = folders_to_prune(&names, 0).unwrap();
    assert_eq!(removed.len(), 105);
    assert_eq!(removed[0], 104);
    removed.sort();
    assert_eq!(removed, (0..105).collect::<Vec<_>>());
}

#[test]
fn retention_fails_on_unparseable_folder() {
    let mut names = folder_names(3);
    names.insert(1, b"not-a-date".to_vec());
    names.push(b"2024-13-01_00-00-00".to_vec());
    assert_eq!(folders_to_prune(&names, 100), Err(RetentionError::InvalidFolderName { entry: 1 }));
}

#[test]
fn retention_with_equal_times_removes_earlier_listed() {
    let names = vec![
        b"2024-01-01_00-00-00".to_vec(),
        b"2023-01-01_00-00-00".to_vec(),
        b"2023-01-01_00-00-00".to_vec(),
    ];
    assert_eq!(folders_to_prune(&names, 2).unwrap(), vec![1]);
    assert_eq!(folders_to_prune(&names, 1).unwrap(), vec![1, 2]);
}

#[test]
fn config_defaults_to_one_hundred() {
    let c = Config::default();
    assert_eq!(c.keep, Some(100));
    assert!(c.task_dir.is_none());
    assert_eq!(c.keep_count(), DEFAULT_KEEP_NUM);
    let c = Config { keep: None, task_dir: None };
    assert_eq!(c.keep_count(), 100);
    let c = Config { keep: Some(3), task_dir: None };
    assert_eq!(c.keep_count(), 3);
}
