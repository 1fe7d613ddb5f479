use process_viewer::snapshot::SnapshotMap;

#[test]
fn empty_map() {
    let map: SnapshotMap<i64, String> = SnapshotMap::new();
    assert_eq!(map.len(), 0);
    assert!(!map.contains_key(&1));
    assert!(map.get(&1).is_none());
    assert!(map.position(&1).is_none());
}

#[test]
fn insert_keeps_arrival_order() {
    let mut map: SnapshotMap<i64, String> = SnapshotMap::new();
    assert!(map.insert(30, "c".to_string()));
    assert!(map.insert(-10, "a".to_string()));
    assert!(map.insert(20, "b".to_string()));
    assert_eq!(map.len(), 3);
    assert_eq!(*map.key_at(0), 30);
    assert_eq!(*map.key_at(1), -10);
    assert_eq!(*map.key_at(2), 20);
    assert_eq!(map.value_at(1), "a");
    assert_eq!(map.position(&20), Some(2));
    assert_eq!(map.get(&30).map(|s| s.as_str()), Some("c"));
    assert!(map.get(&31).is_none());
}

#[test]
fn insert_of_present_key_replaces_value_in_place() {
    let mut map: SnapshotMap<String, String> = SnapshotMap::new();
    assert!(map.insert("eth0".to_string(), "first".to_string()));
    assert!(map.insert("lo".to_string(), "second".to_string()));
    assert!(!map.insert("eth0".to_string(), "third".to_string()));
    assert_eq!(map.len(), 2);
    assert_eq!(map.key_at(0), "eth0");
    assert_eq!(map.value_at(0), "third");
    assert_eq!(map.value_at(1), "second");
}

#[test]
fn string_keys_are_case_sensitive() {
    let mut map: SnapshotMap<String, String> = SnapshotMap::new();
    assert!(map.insert("eth0".to_string(), "lower".to_string()));
    assert!(map.insert("ETH0".to_string(), "upper".to_string()));
    assert_eq!(map.len(), 2);
    assert!(map.contains_key(&"eth0".to_string()));
    assert!(map.contains_key(&"ETH0".to_string()));
    assert!(!map.contains_key(&"Eth0".to_string()));
    assert_eq!(map.get(&"ETH0".to_string()).map(|s| s.as_str()), Some("upper"));
}
