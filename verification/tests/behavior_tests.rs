use index_map::keys::{fnv1a_bytes, DefaultStrategy, MaskStrategy, FNV_SEED};
use index_map::map::HashValue;

type IndexMap<K, V> = index_map::map::IndexMap<K, V, DefaultStrategy>;
type IndexSet<T> = index_map::set::IndexSet<T, DefaultStrategy>;

#[test]
fn scenario_empty_update_without() {
    let empty: IndexMap<i32, String> = IndexMap::new();
    assert!(empty.get(&1).is_none());

    let one = empty.update(1, "one".to_string());
    assert_eq!(one.get(&1), Some(&"one".to_string()));
    assert!(empty.get(&1).is_none()); // the original is untouched

    let three = empty
        .update(1, "one".to_string())
        .update(2, "two".to_string())
        .update(3, "three".to_string());
    let result = three.without(&2);

    let items = result.iter();
    assert_eq!(items.len(), 2);
    assert_eq!(items[0], (&1, &"one".to_string()));
    assert_eq!(items[1], (&3, &"three".to_string()));

    // the base map used for the removal is unaffected
    assert_eq!(three.iter().len(), 3);
    assert_eq!(three.get(&2), Some(&"two".to_string()));
}

#[test]
fn remove_tombstones_in_place() {
    let mut map: IndexMap<i32, String> = IndexMap::new();
    map.insert(1, "one".to_string());
    map.insert(2, "two".to_string());
    map.insert(3, "three".to_string());

    map.remove(&2);

    assert!(map.get(&2).is_none());
    let items = map.iter();
    assert_eq!(items.len(), 2);
    assert_eq!(items[0], (&1, &"one".to_string()));
    assert_eq!(items[1], (&3, &"three".to_string()));
    // the size counts slots, and the removed slot stays as a tombstone
    assert_eq!(map.len(), 3);
    assert!(!map.is_empty());
}

#[test]
fn remove_missing_key_is_noop() {
    let mut map: IndexMap<i32, String> = IndexMap::new();
    map.insert(1, "one".to_string());
    map.remove(&9);
    assert_eq!(map.get(&1), Some(&"one".to_string()));
    assert_eq!(map.len(), 1);
}

#[test]
fn size_counts_slots_not_live_pairs() {
    let map: IndexMap<i32, i32> = IndexMap::new().update(1, 10).update(2, 20);
    assert_eq!(map.len(), 2);

    let removed = map.without(&1);
    assert_eq!(removed.len(), 2); // tombstone keeps the slot
    assert_eq!(removed.iter().len(), 1); // one live pair

    let emptied = removed.without(&2);
    assert_eq!(emptied.len(), 2);
    assert!(!emptied.is_empty());
    assert_eq!(emptied.iter().len(), 0);

    let fresh: IndexMap<i32, i32> = IndexMap::new();
    assert_eq!(fresh.len(), 0);
    assert!(fresh.is_empty());
}

#[test]
fn overwrite_keeps_size_and_position() {
    let base: IndexMap<i32, String> = IndexMap::new()
        .update(1, "one".to_string())
        .update(2, "two".to_string());
    let twice = base.update(1, "first".to_string()).update(1, "second".to_string());
    let once = base.update(1, "second".to_string());

    assert_eq!(twice.get(&1), Some(&"second".to_string()));
    assert_eq!(twice.len(), once.len());
    // replacing a value does not move the key's slot
    let items = twice.iter();
    assert_eq!(items[0], (&1, &"second".to_string()));
    assert_eq!(items[1], (&2, &"two".to_string()));
}

#[test]
fn from_pairs_builds_in_order_and_later_duplicates_win() {
    let map: IndexMap<i32, String> = IndexMap::from_pairs(vec![
        (1, "a".to_string()),
        (2, "b".to_string()),
        (1, "c".to_string()),
    ]);

    assert_eq!(map.get(&1), Some(&"c".to_string()));
    assert_eq!(map.get(&2), Some(&"b".to_string()));
    let items = map.iter();
    assert_eq!(items.len(), 2);
    // the overwrite kept key 1 at its first-insertion position
    assert_eq!(items[0], (&1, &"c".to_string()));
    assert_eq!(items[1], (&2, &"b".to_string()));
}

#[test]
fn map_into_iter_drains_in_order() {
    let map: IndexMap<i32, String> = IndexMap::new()
        .update(1, "one".to_string())
        .update(2, "two".to_string())
        .update(3, "three".to_string())
        .without(&2);

    let mut it = map.into_iter();
    assert_eq!(it.next(), Some((1, "one".to_string())));
    assert_eq!(it.next(), Some((3, "three".to_string())));
    assert_eq!(it.next(), None);
    assert_eq!(it.next(), None);
}

#[test]
fn set_into_iter_drains_in_order() {
    let set: IndexSet<i32> = IndexSet::new().insert(5).insert(7).insert(9);
    let set = set.without(&7);

    let mut it = set.into_iter();
    assert_eq!(it.next(), Some(5));
    assert_eq!(it.next(), Some(9));
    assert_eq!(it.next(), None);
}

#[test]
fn colliding_codes_keep_one_slot() {
    // under the masked strategy, 1 and 17 share a hash code
    let map: index_map::map::IndexMap<u64, &str, MaskStrategy> =
        index_map::map::IndexMap::with_hasher(MaskStrategy);
    let map = map.update(1, "first");
    assert_eq!(map.get(&1), Some(&"first"));

    let map = map.update(17, "second");
    // one slot per code: the collider took over the slot,
    // and the defensive re-check reports the old key absent
    assert_eq!(map.get(&17), Some(&"second"));
    assert_eq!(map.get(&1), None);
    assert_eq!(map.len(), 1);

    // removal goes by code: removing 1 removes the slot now held by 17
    let removed = map.without(&1);
    assert_eq!(removed.get(&17), None);
    assert_eq!(removed.iter().len(), 0);
}

#[test]
fn set_repeat_insert_keeps_one_member() {
    let set: IndexSet<i32> = IndexSet::new();
    let mut set = set.insert(42);
    for _ in 0..5 {
        set = set.insert(42);
    }
    assert!(set.contains(&42));
    assert_eq!(set.iter().len(), 1);
    assert_eq!(set.len(), 1);
}

#[test]
fn set_from_elems_builds_in_order_and_deduplicates() {
    let set: IndexSet<i32> = IndexSet::from_elems(vec![4, 2, 4, 9]);
    assert!(set.contains(&4));
    assert!(set.contains(&2));
    assert!(set.contains(&9));
    let items = set.iter();
    assert_eq!(items.len(), 3);
    // the repeated element kept its first-insertion position
    assert_eq!(items[0], &4);
    assert_eq!(items[1], &2);
    assert_eq!(items[2], &9);
}

#[test]
fn new_from_keeps_strategy_and_starts_empty() {
    let map: IndexMap<i32, i32> = IndexMap::new().update(1, 10);
    let fresh = map.new_from();
    assert!(fresh.is_empty());
    assert!(fresh.get(&1).is_none());
    assert_eq!(map.get(&1), Some(&10)); // the source map is untouched
}

#[test]
fn with_hasher_strings_round_trip() {
    let map: IndexMap<String, u64> = IndexMap::with_hasher(DefaultStrategy);
    let map = map
        .update("alpha".to_string(), 1)
        .update("beta".to_string(), 2)
        .update("gamma".to_string(), 3);
    assert_eq!(map.get(&"alpha".to_string()), Some(&1));
    assert_eq!(map.get(&"beta".to_string()), Some(&2));
    assert_eq!(map.get(&"gamma".to_string()), Some(&3));
    assert_eq!(map.get(&"delta".to_string()), None);
}

#[test]
fn fnv1a_exact_values() {
    assert_eq!(fnv1a_bytes(b""), FNV_SEED);
    assert_eq!(fnv1a_bytes(b""), 0xcbf29ce484222325);
    assert_eq!(fnv1a_bytes(b"a"), 0xaf63dc4c8601ec8c);
    assert_eq!(fnv1a_bytes(b"hello"), 0xa430d84680aabd0b);
}

#[test]
fn hash_value_round_trips_raw_code() {
    let hv = HashValue::new(12345);
    assert_eq!(hv.get(), 12345);
    let top = HashValue::new(u64::MAX);
    assert_eq!(top.get(), u64::MAX as usize as u64);
}

#[test]
fn content_eq_is_order_independent() {
    let a: IndexMap<i32, String> = IndexMap::new()
        .update(1, "one".to_string())
        .update(2, "two".to_string());
    let b: IndexMap<i32, String> = IndexMap::new()
        .update(2, "two".to_string())
        .update(1, "one".to_string());
    assert!(a.content_eq(&b));
    assert!(b.content_eq(&a));

    let c = b.update(2, "other".to_string());
    assert!(!a.content_eq(&c));
    assert!(!c.content_eq(&a));

    let shrunk = a.without(&1);
    assert!(!a.content_eq(&shrunk));
    assert!(!shrunk.content_eq(&a));
}

#[test]
fn set_content_eq_is_order_independent() {
    let a: IndexSet<i32> = IndexSet::new().insert(1).insert(2).insert(3);
    let b: IndexSet<i32> = IndexSet::new().insert(3).insert(2).insert(1);
    assert!(a.content_eq(&b));
    assert!(b.content_eq(&a));

    let c = b.without(&2);
    assert!(!a.content_eq(&c));
    assert!(!c.content_eq(&a));
}

#[test]
fn default_maps_and_sets_are_empty() {
    let map: IndexMap<i32, String> = Default::default();
    assert!(map.is_empty());
    assert!(map.get(&1).is_none());

    let set: IndexSet<i32> = Default::default();
    assert!(set.is_empty());
    assert!(!set.contains(&1));
}

#[test]
fn contains_key_matches_get() {
    let map: IndexMap<i32, i32> = IndexMap::new().update(4, 40);
    assert!(map.contains_key(&4));
    assert!(!map.contains_key(&5));
}
