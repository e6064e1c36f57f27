use whirlpool::names::NameMap;

#[test]
fn new_map_has_no_names() {
    let map: NameMap<u8> = NameMap::new();
    assert!(map.get(&"n1".to_string()).is_none());
    assert!(map.position(&"n1".to_string()).is_none());
}

#[test]
fn insert_then_get() {
    let mut map: NameMap<u8> = NameMap::new();
    map.insert("n1".to_string(), 1);
    map.insert("n2".to_string(), 2);
    assert_eq!(map.get(&"n1".to_string()), Some(&1));
    assert_eq!(map.get(&"n2".to_string()), Some(&2));
    assert_eq!(map.get(&"n3".to_string()), None);
}

#[test]
fn insert_replaces_in_place() {
    let mut map: NameMap<u8> = NameMap::new();
    map.insert("n1".to_string(), 1);
    map.insert("n2".to_string(), 2);
    map.insert("n1".to_string(), 9);
    assert_eq!(map.get(&"n1".to_string()), Some(&9));
    assert_eq!(map.get(&"n2".to_string()), Some(&2));
    assert_eq!(map.entries.len(), 2);
    assert_eq!(map.position(&"n1".to_string()), Some(0));
}

#[test]
fn first_entry_counts_where_a_name_is_listed_twice() {
    let map = NameMap {
        entries: vec![("n1".to_string(), 1u8), ("n2".to_string(), 2), ("n1".to_string(), 3)],
    };
    assert_eq!(map.get(&"n1".to_string()), Some(&1));
    assert_eq!(map.position(&"n1".to_string()), Some(0));
    assert_eq!(map.position(&"n2".to_string()), Some(1));
}
