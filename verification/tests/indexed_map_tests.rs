use zk_circuits::circuits::IndexedMap;

#[test]
fn test_indexed_map_add_and_lookup() {
    let mut map: IndexedMap<String> = IndexedMap::new();
    assert_eq!(map.len(), 0);
    map.add("a".to_string());
    map.add("b".to_string());
    map.add("a".to_string());
    assert_eq!(map.len(), 2);
    assert_eq!(map.get_index(&"a".to_string()), Some(0));
    assert_eq!(map.get_index(&"b".to_string()), Some(1));
    assert_eq!(map.get_index(&"c".to_string()), None);
    assert_eq!(map.get_item(1), Some(&"b".to_string()));
    assert_eq!(map.get_item(2), None);
    assert_eq!(map.into_vector(), vec!["a".to_string(), "b".to_string()]);
}

#[test]
fn test_indexed_map_from_vector_indexes_last_occurrence() {
    let map = IndexedMap::from_vector(vec!["x".to_string(), "y".to_string(), "x".to_string()]);
    assert_eq!(map.len(), 3);
    assert_eq!(map.get_index(&"x".to_string()), Some(2));
    assert_eq!(map.get_index(&"y".to_string()), Some(1));
}

#[test]
fn test_indexed_map_adds_keep_first_occurrences() {
    let mut map: IndexedMap<String> = IndexedMap::new();
    for name in ["b", "a", "b", "c", "a"] {
        map.add(name.to_string());
    }
    assert_eq!(map.len(), 3);
    assert_eq!(map.into_vector(), vec!["b".to_string(), "a".to_string(), "c".to_string()]);
}
