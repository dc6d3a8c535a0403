use index_map::keys::{DefaultStrategy, PairKey, UnitKey};

type IndexMap<K, V> = index_map::map::IndexMap<K, V, DefaultStrategy>;

#[test]
fn new_map_is_empty() {
    let map: IndexMap<i32, String> = IndexMap::new();
    assert!(map.iter().is_empty());
}

#[test]
fn get_nonexistent_key() {
    let map: IndexMap<i32, String> = IndexMap::new();
    assert_eq!(map.get(&1), None);
}

#[test]
fn update_empty_map() {
    let map: IndexMap<i32, String> = IndexMap::new();
    let updated = map.update(1, "one".to_string());

    assert_eq!(updated.get(&1), Some(&"one".to_string()));
    assert!(map.get(&1).is_none()); // Original map remains unchanged
}

#[test]
fn update_existing_key() {
    let map: IndexMap<i32, String> = IndexMap::new();
    let map = map.update(1, "one".to_string());
    let updated = map.update(1, "new one".to_string());

    assert_eq!(updated.get(&1), Some(&"new one".to_string()));
    assert_eq!(map.get(&1), Some(&"one".to_string())); // Original map remains unchanged
}

#[test]
fn map_multiple_updates() {
    let map: IndexMap<i32, String> = IndexMap::new();
    let map = map.update(1, "one".to_string());
    let map = map.update(2, "two".to_string());
    let map = map.update(3, "three".to_string());

    assert_eq!(map.get(&1), Some(&"one".to_string()));
    assert_eq!(map.get(&2), Some(&"two".to_string()));
    assert_eq!(map.get(&3), Some(&"three".to_string()));
}

#[test]
fn insert_empty_map() {
    let mut map: IndexMap<i32, String> = IndexMap::new();
    map.insert(1, "one".to_string());

    assert_eq!(map.get(&1), Some(&"one".to_string()));
}

#[test]
fn insert_existing_key() {
    let mut map: IndexMap<i32, String> = IndexMap::new();
    map.insert(1, "one".to_string());
    map.insert(1, "new one".to_string());

    assert_eq!(map.get(&1), Some(&"new one".to_string()));
}

#[test]
fn multiple_inserts() {
    let mut map: IndexMap<i32, String> = IndexMap::new();
    map.insert(1, "one".to_string());
    map.insert(2, "two".to_string());
    map.insert(3, "three".to_string());

    assert_eq!(map.get(&1), Some(&"one".to_string()));
    assert_eq!(map.get(&2), Some(&"two".to_string()));
    assert_eq!(map.get(&3), Some(&"three".to_string()));
}

#[test]
fn map_iter_order() {
    let map: IndexMap<i32, String> = IndexMap::new();
    let map = map
        .update(1, "one".to_string())
        .update(2, "two".to_string())
        .update(3, "three".to_string());

    let items = map.iter();
    assert_eq!(items.len(), 3);

    // Insertion order is maintained
    assert_eq!(items[0], (&1, &"one".to_string()));
    assert_eq!(items[1], (&2, &"two".to_string()));
    assert_eq!(items[2], (&3, &"three".to_string()));
}

#[test]
fn with_string_keys() {
    let map: IndexMap<String, i32> = IndexMap::new();
    let map = map
        .update("one".to_string(), 1)
        .update("two".to_string(), 2);

    assert_eq!(map.get(&"one".to_string()), Some(&1));
    assert_eq!(map.get(&"two".to_string()), Some(&2));
}

#[test]
fn update_preserves_other_values() {
    let map: IndexMap<i32, String> = IndexMap::new();
    let map = map
        .update(1, "one".to_string())
        .update(2, "two".to_string());
    let updated = map.update(1, "new one".to_string());

    assert_eq!(updated.get(&1), Some(&"new one".to_string()));
    assert_eq!(updated.get(&2), Some(&"two".to_string())); // Other values preserved
}

#[test]
fn update_complex_type() {
    let map: IndexMap<PairKey<i32, String>, Vec<i32>> = IndexMap::new();
    let key = PairKey { first: 1, second: "test".to_string() };
    let map = map.update(key.clone(), vec![1, 2, 3]);

    assert_eq!(map.get(&key), Some(&vec![1, 2, 3]));
}

#[test]
fn update_zero_sized_types() {
    let map: IndexMap<UnitKey, UnitKey> = IndexMap::new();
    let map = map.update(UnitKey, UnitKey);

    assert!(map.get(&UnitKey).is_some());
}

#[test]
fn test_without_from_empty_map() {
    let map: IndexMap<i32, String> = IndexMap::new();
    let result = map.without(&1);
    assert!(result.get(&1).is_none());
    assert_eq!(result.iter().len(), 0);
}

#[test]
fn test_without_existing_key() {
    let map: IndexMap<i32, String> = IndexMap::new()
        .update(1, "one".to_string())
        .update(2, "two".to_string());

    let result = map.without(&1);

    assert!(result.get(&1).is_none());
    assert_eq!(result.get(&2), Some(&"two".to_string()));
    assert_eq!(result.iter().len(), 1);

    // Original map should remain unchanged
    assert_eq!(map.get(&1), Some(&"one".to_string()));
    assert_eq!(map.get(&2), Some(&"two".to_string()));
}

#[test]
fn test_without_nonexistent_key() {
    let map: IndexMap<i32, String> = IndexMap::new().update(1, "one".to_string());

    let result = map.without(&2);

    assert_eq!(result.get(&1), Some(&"one".to_string()));
    assert_eq!(result.iter().len(), 1);
}

#[test]
fn test_without_preserves_order() {
    let map: IndexMap<i32, String> = IndexMap::new()
        .update(1, "one".to_string())
        .update(2, "two".to_string())
        .update(3, "three".to_string())
        .update(4, "four".to_string());

    let result = map.without(&2);

    let items = result.iter();
    assert_eq!(items.len(), 3);
    assert_eq!(items[0], (&1, &"one".to_string()));
    assert_eq!(items[1], (&3, &"three".to_string()));
    assert_eq!(items[2], (&4, &"four".to_string()));
}

#[test]
fn test_without_chaining() {
    let map: IndexMap<i32, String> = IndexMap::new()
        .update(1, "one".to_string())
        .update(2, "two".to_string())
        .update(3, "three".to_string());

    let result = map.without(&1).without(&2);

    assert!(result.get(&1).is_none());
    assert!(result.get(&2).is_none());
    assert_eq!(result.get(&3), Some(&"three".to_string()));
    assert_eq!(result.iter().len(), 1);
}

#[test]
fn test_without_all_elements() {
    let map: IndexMap<i32, String> = IndexMap::new()
        .update(1, "one".to_string())
        .update(2, "two".to_string());

    let result = map.without(&1).without(&2);

    assert_eq!(result.iter().len(), 0);
}

#[test]
fn test_without_with_string_keys() {
    let map: IndexMap<String, i32> = IndexMap::new()
        .update("one".to_string(), 1)
        .update("two".to_string(), 2);

    let result = map.without(&"one".to_string());

    assert!(result.get(&"one".to_string()).is_none());
    assert_eq!(result.get(&"two".to_string()), Some(&2));
}

#[test]
fn test_without_complex_key() {
    let key1 = PairKey { first: 1, second: "first".to_string() };
    let key2 = PairKey { first: 2, second: "second".to_string() };

    let map: IndexMap<PairKey<i32, String>, String> = IndexMap::new()
        .update(key1.clone(), "value1".to_string())
        .update(key2.clone(), "value2".to_string());

    let result = map.without(&key1);

    assert!(result.get(&key1).is_none());
    assert_eq!(result.get(&key2), Some(&"value2".to_string()));
}
