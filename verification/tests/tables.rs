use logtrak::buffer::{count, push_capped, trim_front};
use logtrak::enabled_files::EnabledFiles;
use logtrak::path_table::PathTable;
use logtrak::snapshot::{DirOutcome, ReadOutcome, Snapshot, StatOutcome};
use std::collections::VecDeque;

#[test]
fn tables_do_not_tell_spellings_apart() {
    let mut table: PathTable<u32> = PathTable::new();
    assert_eq!(table.insert("/a/b", 1), None);
    assert_eq!(table.insert("/a//b/", 2), Some(1));
    assert_eq!(table.insert("a/b", 3), None);
    assert_eq!(table.get("/a/./b"), Some(&2));
    assert_eq!(table.get("/a"), None);
    assert_eq!(table.remove("/a/b/."), Some(2));
    assert_eq!(table.remove("/a/b"), None);
    assert_eq!(table.get("./a/b"), None);
    assert_eq!(table.get("a/b"), Some(&3));
}

#[test]
fn enabled_files_stand_in_order() {
    let mut files = EnabledFiles::new();
    for (path, enabled) in [("b", true), ("a", false), ("c", true), ("b", false)] {
        files.insert(path.to_string(), enabled);
    }
    let copy = files.copy();
    let listed: Vec<(String, bool)> = (0..copy.len())
        .map(|i| (copy.path_at(i).clone(), copy.enabled_at(i)))
        .collect();
    assert_eq!(
        listed,
        vec![
            ("a".to_string(), false),
            ("b".to_string(), false),
            ("c".to_string(), true)
        ]
    );
}

#[test]
fn snapshots_give_the_last_answer() {
    let mut snapshot = Snapshot::new();
    assert_eq!(snapshot.stat(&"/a".to_string()), StatOutcome::Missing);
    assert!(snapshot.dir(&"/a".to_string()).is_none());
    assert!(snapshot.read(&"/a".to_string(), 0).is_none());
    snapshot.record_stat("/a".to_string(), StatOutcome::Failed);
    snapshot.record_stat("/a".to_string(), StatOutcome::Missing);
    snapshot.record_stat("/b".to_string(), StatOutcome::Failed);
    assert_eq!(snapshot.stat(&"/a".to_string()), StatOutcome::Missing);
    assert_eq!(snapshot.stat(&"/b".to_string()), StatOutcome::Failed);
    snapshot.record_dir("/a".to_string(), DirOutcome::Failed("x".to_string()));
    assert!(matches!(snapshot.dir(&"/a".to_string()), Some(DirOutcome::Failed(_))));
    snapshot.record_read("/a".to_string(), 3, ReadOutcome::SeekFailed);
    assert!(matches!(
        snapshot.read(&"/a".to_string(), 3),
        Some(ReadOutcome::SeekFailed)
    ));
    assert!(snapshot.read(&"/a".to_string(), 4).is_none());
}

#[test]
fn buffers_keep_the_newest() {
    let mut items: VecDeque<u8> = VecDeque::from(vec![1, 2, 3]);
    assert_eq!(push_capped(&mut items, vec![4, 5], 3, 10), 12);
    assert_eq!(items, vec![3, 4, 5]);
    assert_eq!(push_capped(&mut items, Vec::new(), 1, 12), 12);
    assert_eq!(items.len(), 3);
    assert_eq!(trim_front(&mut items, 1, 12), 14);
    assert_eq!(items, vec![5]);
    assert_eq!(push_capped(&mut items, vec![6], 0, 0), 2);
    assert!(items.is_empty());
}

#[test]
fn counters_go_round() {
    assert_eq!(count(1, 2), 3);
    assert_eq!(count(u64::MAX, 2), 1);
}
