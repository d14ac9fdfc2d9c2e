use file_watcher::snapshot::SnapshotStore;

#[test]
fn round_trip_insert_get() {
    let mut store = SnapshotStore::new();
    let a = String::from("a.txt");
    store.insert_or_update(a.clone(), 5);
    assert_eq!(store.get(&a), Some(5));
    assert!(store.contains(&a));
}

#[test]
fn round_trip_survives_other_keys() {
    let mut store = SnapshotStore::new();
    let a = String::from("a.txt");
    let b = String::from("b.txt");
    store.insert_or_update(a.clone(), 5);
    store.insert_or_update(b.clone(), 7);
    assert_eq!(store.get(&a), Some(5));
    store.remove(&b);
    assert_eq!(store.get(&a), Some(5));
    assert!(store.contains(&a));
}

#[test]
fn round_trip_ends_at_update() {
    let mut store = SnapshotStore::new();
    let a = String::from("a.txt");
    store.insert_or_update(a.clone(), 5);
    store.insert_or_update(a.clone(), 9);
    assert_eq!(store.get(&a), Some(9));
}

#[test]
fn round_trip_ends_at_remove() {
    let mut store = SnapshotStore::new();
    let a = String::from("a.txt");
    store.insert_or_update(a.clone(), 5);
    store.remove(&a);
    assert_eq!(store.get(&a), None);
    assert!(!store.contains(&a));
}

#[test]
fn empty_store_knows_nothing() {
    let store = SnapshotStore::new();
    assert_eq!(store.get(&String::from("a.txt")), None);
    assert!(!store.contains(&String::from("a.txt")));
    assert_eq!(store.known_paths().len(), 0);
}

#[test]
fn known_paths_is_the_key_set() {
    let mut store = SnapshotStore::new();
    store.insert_or_update(String::from("a.txt"), 1);
    store.insert_or_update(String::from("b.txt"), 2);
    store.insert_or_update(String::from("a.txt"), 3);
    let mut keys = store.known_paths();
    keys.sort();
    assert_eq!(keys, vec![String::from("a.txt"), String::from("b.txt")]);
}

#[test]
fn remove_of_unknown_path_changes_nothing() {
    let mut store = SnapshotStore::new();
    store.insert_or_update(String::from("a.txt"), 1);
    store.remove(&String::from("b.txt"));
    assert_eq!(store.get(&String::from("a.txt")), Some(1));
    assert_eq!(store.known_paths().len(), 1);
}
