use rocas::watcher::{diff, FileRecord, Snapshot, WatchEvent, WatcherConfig};

fn rec(modified: u64, size: u64) -> FileRecord {
    FileRecord { modified, size }
}

#[test]
fn diff_of_identical_snapshots_is_empty() {
    let mut a = Snapshot::new();
    a.insert(String::from("x.txt"), rec(1, 10));
    a.insert(String::from("y.txt"), rec(2, 20));
    let mut b = Snapshot::new();
    b.insert(String::from("x.txt"), rec(1, 10));
    b.insert(String::from("y.txt"), rec(2, 20));
    let events = diff(&a, &b);
    assert_eq!(events.len(), 0);
    let self_events = diff(&a, &a);
    assert_eq!(self_events.len(), 0);
}

#[test]
fn diff_emits_created_for_new_paths() {
    let prev = Snapshot::new();
    let mut curr = Snapshot::new();
    curr.insert(String::from("new.txt"), rec(5, 50));
    let events = diff(&prev, &curr);
    assert_eq!(events.len(), 1);
    assert!(matches!(&events[0], WatchEvent::Created(p) if p == "new.txt"));
}

#[test]
fn diff_emits_removed_for_gone_paths() {
    let mut prev = Snapshot::new();
    prev.insert(String::from("old.txt"), rec(5, 50));
    let curr = Snapshot::new();
    let events = diff(&prev, &curr);
    assert_eq!(events.len(), 1);
    assert!(matches!(&events[0], WatchEvent::Removed(p) if p == "old.txt"));
}

#[test]
fn diff_emits_modified_for_changed_records() {
    let mut prev = Snapshot::new();
    prev.insert(String::from("a.txt"), rec(1, 10));
    prev.insert(String::from("same.txt"), rec(9, 90));
    let mut curr = Snapshot::new();
    curr.insert(String::from("a.txt"), rec(2, 10));
    curr.insert(String::from("same.txt"), rec(9, 90));
    let events = diff(&prev, &curr);
    assert_eq!(events.len(), 1);
    assert!(matches!(&events[0], WatchEvent::Modified(p) if p == "a.txt"));
}

#[test]
fn diff_classifies_each_path_by_key_sets() {
    let mut prev = Snapshot::new();
    prev.insert(String::from("kept.txt"), rec(1, 1));
    prev.insert(String::from("changed.txt"), rec(1, 1));
    prev.insert(String::from("gone.txt"), rec(1, 1));
    let mut curr = Snapshot::new();
    curr.insert(String::from("kept.txt"), rec(1, 1));
    curr.insert(String::from("changed.txt"), rec(2, 1));
    curr.insert(String::from("fresh.txt"), rec(3, 3));
    let events = diff(&prev, &curr);
    assert_eq!(events.len(), 3);
    let mut created = 0;
    let mut modified = 0;
    let mut removed = 0;
    for e in events.iter() {
        match e {
            WatchEvent::Created(p) => {
                assert_eq!(p, "fresh.txt");
                created += 1;
            }
            WatchEvent::Modified(p) => {
                assert_eq!(p, "changed.txt");
                modified += 1;
            }
            WatchEvent::Removed(p) => {
                assert_eq!(p, "gone.txt");
                removed += 1;
            }
        }
    }
    assert_eq!((created, modified, removed), (1, 1, 1));
}

#[test]
fn same_record_within_one_poll_is_invisible() {
    // Equality is exact on both fields: same time and size emit nothing.
    let mut prev = Snapshot::new();
    prev.insert(String::from("f"), rec(7, 7));
    let mut curr = Snapshot::new();
    curr.insert(String::from("f"), rec(7, 7));
    assert_eq!(diff(&prev, &curr).len(), 0);
}

#[test]
fn snapshot_insert_replaces_and_get_reads() {
    let mut s = Snapshot::new();
    assert!(!s.contains_key("a"));
    assert!(s.get("a").is_none());
    s.insert(String::from("a"), rec(1, 1));
    assert!(s.contains_key("a"));
    assert_eq!(s.get("a"), Some(&rec(1, 1)));
    s.insert(String::from("a"), rec(2, 2));
    assert_eq!(s.get("a"), Some(&rec(2, 2)));
}

#[test]
fn watcher_config_default_values() {
    let c = WatcherConfig::default();
    assert!(c.recursive);
    assert_eq!(c.interval_millis, 500);
    assert!(c.max_depth.is_none());
}

#[test]
fn diff_handles_many_files() {
    let mut prev = Snapshot::new();
    let mut curr = Snapshot::new();
    for i in 0..20u64 {
        prev.insert(format!("f{}", i), rec(i, i));
        // Even-numbered files survive unchanged, odd ones change size.
        let size = if i % 2 == 0 { i } else { i + 100 };
        curr.insert(format!("f{}", i), rec(i, size));
    }
    curr.insert(String::from("brand-new"), rec(0, 0));
    let events = diff(&prev, &curr);
    // 10 modified odd files plus one created.
    assert_eq!(events.len(), 11);
}
