use reactio::flat_storage::FlatStorage;

#[test]
fn test_flat_storage() {
    assert_eq!(2, 2);
    let mut store: FlatStorage<&str> = FlatStorage::new();
    assert_eq!(store.len(), 0);
    assert_eq!(store.count_free(), 0);
    assert_eq!(store.get_next_key(), 0);
    assert_eq!(store.add("a"), 0);
    assert_eq!(store.add("b"), 1);
    assert_eq!(store.add("c"), 2);
    assert_eq!(store.len(), 3);
    assert_eq!(store.get(1), Some(&"b"));
    assert_eq!(store.get(3), None);
}

#[test]
fn freed_keys_are_reused_last_first() {
    let mut store: FlatStorage<i32> = FlatStorage::new();
    for i in 0..4 {
        store.add(i);
    }
    assert!(store.remove(1));
    assert_eq!(store.take(3), Some(3));
    assert_eq!(store.len(), 2);
    assert_eq!(store.count_free(), 2);
    assert_eq!(store.get_next_key(), 3);
    assert_eq!(store.add(30), 3);
    assert_eq!(store.add(10), 1);
    assert_eq!(store.add(4), 4);
    assert_eq!(store.len(), 5);
    assert_eq!(store.count_free(), 0);
}

#[test]
fn what_is_gone_cannot_be_removed_again() {
    let mut store: FlatStorage<i32> = FlatStorage::new();
    let key = store.add(7);
    assert!(store.remove(key));
    assert!(!store.remove(key));
    assert_eq!(store.take(key), None);
    assert!(!store.remove(usize::MAX));
    assert_eq!(store.get(key), None);
    assert_eq!(store.get_mut(key), None);
}

#[test]
fn elements_can_be_changed_in_place() {
    let mut store: FlatStorage<i32> = FlatStorage::new();
    let (a, b) = (store.add(1), store.add(2));
    *store.get_mut(a).unwrap() = 100;
    assert_eq!(store.get(a), Some(&100));
    assert_eq!(store.get(b), Some(&2));
}

#[test]
fn free_slots_are_those_of_the_peak() {
    let mut store: FlatStorage<usize> = FlatStorage::new();
    let (mut added, mut removed, mut peak) = (0, 0, 0);
    for i in 0..50usize {
        if i % 3 == 2 || i >= 40 {
            if store.remove(i * 7 % 11) {
                removed += 1;
            }
        } else {
            store.add(i);
            added += 1;
        }
        peak = peak.max(store.len());
        assert_eq!(store.len(), added - removed);
        assert_eq!(store.count_free(), peak - store.len());
    }
    assert!(removed > 10 && store.count_free() > 1);
}

#[test]
fn keys_keep_their_elements_below_the_peak() {
    let mut store: FlatStorage<u32> = FlatStorage::new();
    let keys: Vec<usize> = (0..5).map(|i| store.add(i * 10)).collect();
    if let Some(val) = store.get_mut(keys[2]) {
        *val = 77;
    }
    for key in [keys[1], keys[4], keys[0]] {
        assert!(store.remove(key));
    }
    for key in [keys[0], keys[4], keys[1]] {
        assert_eq!(store.get_next_key(), key);
        assert_eq!(store.add(99), key);
    }
    assert_eq!(store.get(keys[2]), Some(&77));
    assert_eq!(store.get(keys[3]), Some(&30));
    assert_eq!(store.get(5), None);
    assert_eq!(store.get_next_key(), 5);
}
