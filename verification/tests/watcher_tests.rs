use file_watcher::event::FileStatus;
use file_watcher::watcher::FileWatcher;

fn entry(path: &str, timestamp: u64) -> (String, u64) {
    (String::from(path), timestamp)
}

#[test]
fn new_watcher_is_running_and_empty() {
    let watcher = FileWatcher::new(&String::from("some/dir"), 1);
    assert!(watcher.is_running());
    assert_eq!(watcher.path, String::from("some/dir"));
    assert_eq!(watcher.duration, 1);
    assert_eq!(watcher.known_paths().len(), 0);
}

#[test]
fn stop_clears_the_flag() {
    let mut watcher = FileWatcher::new(&String::from("some/dir"), 1);
    watcher.stop();
    assert!(!watcher.is_running());
}

#[test]
fn priming_emits_nothing_and_records_everything() {
    let mut watcher = FileWatcher::new(&String::from("."), 1);
    watcher.prime(&vec![entry("a.txt", 10), entry("b.txt", 20)]);
    assert_eq!(watcher.paths.get(&String::from("a.txt")), Some(10));
    assert_eq!(watcher.paths.get(&String::from("b.txt")), Some(20));
    assert_eq!(watcher.known_paths().len(), 2);
}

#[test]
fn priming_twice_is_idempotent() {
    let scan = vec![entry("a.txt", 10), entry("b.txt", 20)];
    let mut watcher = FileWatcher::new(&String::from("."), 1);
    watcher.prime(&scan);
    watcher.prime(&scan);
    assert_eq!(watcher.paths.get(&String::from("a.txt")), Some(10));
    assert_eq!(watcher.paths.get(&String::from("b.txt")), Some(20));
    let mut keys = watcher.known_paths();
    keys.sort();
    assert_eq!(keys, vec![String::from("a.txt"), String::from("b.txt")]);
    let events = watcher.run_cycle(&vec![], &scan);
    assert_eq!(events.len(), 0);
}

#[test]
fn creation_detection() {
    let mut watcher = FileWatcher::new(&String::from("."), 1);
    watcher.prime(&vec![]);
    let events = watcher.run_cycle(&vec![], &vec![entry("a.txt", 10)]);
    assert_eq!(events.len(), 1);
    assert_eq!(events[0].status, FileStatus::Created);
    assert_eq!(events[0].path, String::from("a.txt"));
    assert!(watcher.paths.contains(&String::from("a.txt")));
    assert_eq!(watcher.paths.get(&String::from("a.txt")), Some(10));
}

#[test]
fn modification_detection() {
    let mut watcher = FileWatcher::new(&String::from("."), 1);
    watcher.prime(&vec![entry("a.txt", 10)]);
    let events = watcher.run_cycle(&vec![], &vec![entry("a.txt", 11)]);
    assert_eq!(events.len(), 1);
    assert_eq!(events[0].status, FileStatus::Modified);
    assert_eq!(events[0].path, String::from("a.txt"));
    assert_eq!(watcher.paths.get(&String::from("a.txt")), Some(11));
}

#[test]
fn deletion_detection() {
    let mut watcher = FileWatcher::new(&String::from("."), 1);
    watcher.prime(&vec![entry("a.txt", 10)]);
    let events = watcher.run_cycle(&vec![String::from("a.txt")], &vec![]);
    assert_eq!(events.len(), 1);
    assert_eq!(events[0].status, FileStatus::Erased);
    assert_eq!(events[0].path, String::from("a.txt"));
    assert!(!watcher.paths.contains(&String::from("a.txt")));
}

#[test]
fn noop_stability_over_static_tree() {
    let scan = vec![entry("a.txt", 10), entry("sub", 15), entry("sub/b.txt", 20)];
    let mut watcher = FileWatcher::new(&String::from("."), 1);
    watcher.prime(&scan);
    for _ in 0..5 {
        let events = watcher.run_cycle(&vec![], &scan);
        assert_eq!(events.len(), 0);
    }
}

#[test]
fn delete_and_recreate_in_one_cycle() {
    // The documented policy: the deletion pass runs to completion first,
    // so a path seen missing and then rescanned surfaces as Erased
    // followed by Created in the same cycle.
    let mut watcher = FileWatcher::new(&String::from("."), 1);
    watcher.prime(&vec![entry("a.txt", 10)]);
    let events = watcher.run_cycle(&vec![String::from("a.txt")], &vec![entry("a.txt", 99)]);
    assert_eq!(events.len(), 2);
    assert_eq!(events[0].status, FileStatus::Erased);
    assert_eq!(events[0].path, String::from("a.txt"));
    assert_eq!(events[1].status, FileStatus::Created);
    assert_eq!(events[1].path, String::from("a.txt"));
    assert_eq!(watcher.paths.get(&String::from("a.txt")), Some(99));
}

#[test]
fn recreate_never_seen_missing_is_a_modification() {
    // If the replacement was already in place when the deletion pass
    // checked, the path was never missing and the cycle reports the
    // timestamp change alone.
    let mut watcher = FileWatcher::new(&String::from("."), 1);
    watcher.prime(&vec![entry("a.txt", 10)]);
    let events = watcher.run_cycle(&vec![], &vec![entry("a.txt", 99)]);
    assert_eq!(events.len(), 1);
    assert_eq!(events[0].status, FileStatus::Modified);
}

#[test]
fn deletions_are_reported_before_discoveries() {
    let mut watcher = FileWatcher::new(&String::from("."), 1);
    watcher.prime(&vec![entry("a.txt", 10)]);
    let events = watcher.run_cycle(
        &vec![String::from("a.txt")],
        &vec![entry("b.txt", 30)],
    );
    assert_eq!(events.len(), 2);
    assert_eq!(events[0].status, FileStatus::Erased);
    assert_eq!(events[0].path, String::from("a.txt"));
    assert_eq!(events[1].status, FileStatus::Created);
    assert_eq!(events[1].path, String::from("b.txt"));
}

#[test]
fn unknown_missing_path_emits_nothing() {
    let mut watcher = FileWatcher::new(&String::from("."), 1);
    watcher.prime(&vec![entry("a.txt", 10)]);
    let events = watcher.run_cycle(&vec![String::from("ghost.txt")], &vec![entry("a.txt", 10)]);
    assert_eq!(events.len(), 0);
}

#[test]
fn only_the_changed_entry_is_reported() {
    let mut watcher = FileWatcher::new(&String::from("."), 1);
    watcher.prime(&vec![entry("a.txt", 10), entry("b.txt", 20)]);
    let events = watcher.run_cycle(&vec![], &vec![entry("a.txt", 10), entry("b.txt", 21)]);
    assert_eq!(events.len(), 1);
    assert_eq!(events[0].status, FileStatus::Modified);
    assert_eq!(events[0].path, String::from("b.txt"));
}
