use index_map::keys::{DefaultStrategy, PairKey, UnitKey};

type IndexSet<T> = index_map::set::IndexSet<T, DefaultStrategy>;

#[test]
fn new_set_is_empty() {
    let set: IndexSet<i32> = IndexSet::new();
    assert!(set.iter().is_empty());
}

#[test]
fn contains_nonexistent_item() {
    let set: IndexSet<i32> = IndexSet::new();
    assert!(!set.contains(&1));
}

#[test]
fn update_empty_set() {
    let set: IndexSet<i32> = IndexSet::new();
    let updated = set.insert(1);

    assert!(updated.contains(&1));
    assert!(!set.contains(&1)); // Original set remains unchanged
}

#[test]
fn update_existing_item() {
    let set: IndexSet<i32> = IndexSet::new();
    let set = set.insert(1);
    let updated = set.insert(1);

    assert!(updated.contains(&1));
    assert!(set.contains(&1));

    // Check that the size hasn't increased (no duplicates)
    assert_eq!(updated.iter().len(), 1);
}

#[test]
fn set_multiple_updates() {
    let set: IndexSet<i32> = IndexSet::new();
    let set = set.insert(1).insert(2).insert(3);

    assert!(set.contains(&1));
    assert!(set.contains(&2));
    assert!(set.contains(&3));
    assert_eq!(set.iter().len(), 3);
}

#[test]
fn set_iter_order() {
    let set: IndexSet<i32> = IndexSet::new();
    let set = set.insert(1).insert(2).insert(3);

    let items = set.iter();
    assert_eq!(items.len(), 3);

    // Insertion order is maintained
    assert_eq!(items[0], &1);
    assert_eq!(items[1], &2);
    assert_eq!(items[2], &3);
}

#[test]
fn with_strings() {
    let set: IndexSet<String> = IndexSet::new();
    let set = set.insert("one".to_string()).insert("two".to_string());

    assert!(set.contains(&"one".to_string()));
    assert!(set.contains(&"two".to_string()));
    assert!(!set.contains(&"three".to_string()));
}

#[test]
fn update_preserves_existing_items() {
    let set: IndexSet<i32> = IndexSet::new();
    let set = set.insert(1).insert(2);
    let updated = set.insert(3);

    assert!(updated.contains(&1));
    assert!(updated.contains(&2));
    assert!(updated.contains(&3));
}

#[test]
fn complex_type() {
    let set: IndexSet<PairKey<i32, String>> = IndexSet::new();
    let item = PairKey { first: 1, second: "test".to_string() };
    let set = set.insert(item.clone());

    assert!(set.contains(&item));
}

#[test]
fn zero_sized_types() {
    let set: IndexSet<UnitKey> = IndexSet::new();
    let set = set.insert(UnitKey);

    assert!(set.contains(&UnitKey));
}

#[test]
fn update_maintains_uniqueness() {
    let set: IndexSet<i32> = IndexSet::new();
    let set = set.insert(1).insert(1).insert(1);

    assert!(set.contains(&1));
    assert_eq!(set.iter().len(), 1);
}

#[test]
fn large_updates() {
    let set: IndexSet<i32> = IndexSet::new();
    let mut set = set;
    for i in 0..1000 {
        set = set.insert(i);
    }

    assert_eq!(set.iter().len(), 1000);
    for i in 0..1000 {
        assert!(set.contains(&i));
    }
}
