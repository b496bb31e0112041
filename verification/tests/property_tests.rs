use rehashing_hashmap::RehashingHashMap;
use std::collections::HashSet;

// Quiescence: the moment the stepper reports that no reorganization is in
// flight, the secondary table holds no storage at all.
#[test]
fn quiescence_after_last_step() {
    let mut hash = RehashingHashMap::new();
    for i in 0..50u64 {
        hash.insert(i, i);
    }
    hash.shrink_to_fit();
    while hash.is_rehashing() {
        hash.rehash();
    }
    assert!(hash.assert_state());
    assert_eq!(hash.len(), 50);
}

// Convergence: from N entries, one reorganization needs at most N steps:
// the step that drains the last entry also retires the table.
#[test]
fn convergence_bound() {
    let n: u64 = 200;
    let mut hash = RehashingHashMap::new();
    for i in 0..n {
        hash.insert(i, i);
    }
    hash.shrink_to_fit();
    let steps = hash.rehash_to_completion();
    assert!(!hash.is_rehashing());
    assert!(steps <= n as usize);

    // The explicit count: still in flight after N - 1 steps, done at N.
    let mut hash2 = RehashingHashMap::new();
    for i in 0..n {
        hash2.insert(i, i);
    }
    hash2.shrink_to_fit();
    for _ in 0..(n - 1) {
        hash2.rehash();
    }
    assert!(hash2.is_rehashing());
    hash2.rehash();
    assert!(!hash2.is_rehashing());
}

// A reorganization of an empty container ends before it is observable:
// the storage is released at once and no migration begins.
#[test]
fn shrink_on_empty_stays_quiescent() {
    let mut hash = RehashingHashMap::with_capacity(100);
    assert!(hash.capacity() >= 100);
    hash.shrink_to_fit();
    assert!(!hash.is_rehashing());
    assert!(hash.assert_state());
    assert_eq!(hash.capacity(), 0);
    hash.insert(1, 2);
    assert_eq!(hash.get(&1), Some(&2));
}

// Read stability: keys written before the reorganization read back the same
// value after every single step of the migration.
#[test]
fn read_stability_during_migration() {
    let n: u64 = 64;
    let mut hash = RehashingHashMap::new();
    for i in 0..n {
        hash.insert(i, i * 10);
    }
    hash.shrink_to_fit();
    loop {
        for i in 0..n {
            assert_eq!(hash.get(&i), Some(&(i * 10)));
        }
        if !hash.is_rehashing() {
            break;
        }
        hash.rehash();
    }
}

// Size additivity and iteration completeness, checked at every migration
// step: the reported length always matches a duplicate-free walk of the
// entries.
#[test]
fn len_matches_iteration_at_every_step() {
    let n: u64 = 40;
    let mut hash = RehashingHashMap::new();
    for i in 0..n {
        hash.insert(i, i);
    }
    hash.shrink_to_fit();
    loop {
        let mut seen = HashSet::new();
        let mut it = hash.iter();
        assert_eq!(it.len(), hash.len());
        while let Some((k, v)) = it.next() {
            assert!(seen.insert(k));
            assert_eq!(v, k);
        }
        assert_eq!(seen.len(), hash.len());
        if !hash.is_rehashing() {
            break;
        }
        hash.rehash();
    }
}

// Exclusivity, observed from outside: removing a key mid-migration removes
// it for good, and the remaining count drops by exactly one.
#[test]
fn remove_mid_migration_is_exclusive() {
    let n: u64 = 30;
    let mut hash = RehashingHashMap::new();
    for i in 0..n {
        hash.insert(i, i);
    }
    hash.shrink_to_fit();
    for k in 0..n {
        let before = hash.len();
        assert_eq!(hash.remove(&k), Some(k));
        assert_eq!(hash.len(), before - 1);
        assert_eq!(hash.get(&k), None);
        assert_eq!(hash.remove(&k), None);
    }
    assert!(hash.is_empty());
}

// Scenario: a thousand keys, a reorganization, five hundred steps: reads
// hit every key, misses every absent key, and the migration is still in
// flight.
#[test]
fn scenario_half_migrated_reads() {
    let mut hash = RehashingHashMap::new();
    for i in 0..1000u64 {
        hash.insert(i, i);
    }
    hash.shrink_to_fit();
    for _ in 0..500 {
        hash.rehash();
    }
    assert!(hash.is_rehashing());
    assert_eq!(hash.len(), 1000);
    for i in 0..1000u64 {
        assert_eq!(hash.get(&i), Some(&i));
    }
    for i in 1000..2000u64 {
        assert_eq!(hash.get(&i), None);
    }
}

// Scenario: an insert that touches the only pending entry finalizes the
// migration as a side effect and still reports the previous value.
#[test]
fn scenario_single_key_insert_finalizes() {
    let mut hash = RehashingHashMap::new();
    assert_eq!(hash.insert(0, 2), None);
    hash.shrink_to_fit();
    assert!(hash.is_rehashing());
    assert_eq!(hash.insert(0, 5), Some(2));
    assert!(!hash.is_rehashing());
    assert_eq!(hash.get(&0), Some(&5));
}

// Scenario: bulk construction equals the same bindings made one by one.
#[test]
fn scenario_bulk_equals_incremental() {
    let bulk = RehashingHashMap::from_iter(vec![(1, 1), (2, 2), (3, 3)]);
    assert_eq!(bulk.len(), 3);
    let mut one_by_one = RehashingHashMap::new();
    one_by_one.insert(1, 1);
    one_by_one.insert(2, 2);
    one_by_one.insert(3, 3);
    assert!(bulk.eq(&one_by_one));
}

// A repeated key in a bulk load keeps the later binding.
#[test]
fn extend_later_binding_wins() {
    let mut hash = RehashingHashMap::new();
    hash.extend(vec![(7, 1), (8, 2), (7, 3)]);
    assert_eq!(hash.len(), 2);
    assert_eq!(hash.get(&7), Some(&3));
    assert_eq!(hash.get(&8), Some(&2));
}

// Lookups on an empty container miss rather than fail.
#[test]
fn empty_lookups_miss() {
    let mut hash = RehashingHashMap::new();
    assert_eq!(hash.get(&0), None);
    assert_eq!(hash.remove(&0), None);
    assert!(!hash.contains_key(&0));
    assert!(hash.get_mut(&0).is_none());
    assert_eq!(hash.len(), 0);
}

// Clear abandons an in-flight reorganization outright.
#[test]
fn clear_abandons_migration() {
    let mut hash = RehashingHashMap::new();
    for i in 0..100u64 {
        hash.insert(i, i);
    }
    hash.shrink_to_fit();
    hash.rehash();
    assert!(hash.is_rehashing());
    hash.clear();
    assert!(!hash.is_rehashing());
    assert!(hash.is_empty());
    assert!(hash.assert_state());
}

// Requesting a reorganization while one is in flight is a no-op.
#[test]
fn shrink_is_idempotent() {
    let mut hash = RehashingHashMap::new();
    for i in 0..10u64 {
        hash.insert(i, i);
    }
    hash.shrink_to_fit();
    hash.rehash();
    hash.shrink_to_fit();
    let mut steps = 0;
    while hash.is_rehashing() {
        hash.rehash();
        steps += 1;
    }
    assert!(steps <= 10);
    for i in 0..10u64 {
        assert_eq!(hash.get(&i), Some(&i));
    }
}

// The default container is the empty quiescent one.
#[test]
fn default_is_empty() {
    let hash: RehashingHashMap = Default::default();
    assert!(hash.is_empty());
    assert!(!hash.is_rehashing());
}

// Keys and values walk the same entries: pairing them up again restores
// the container's contents.
#[test]
fn keys_values_consistent() {
    let mut hash = RehashingHashMap::new();
    for i in 0..20u64 {
        hash.insert(i, i + 100);
    }
    hash.shrink_to_fit();
    for _ in 0..7 {
        hash.rehash();
    }
    let mut ks = hash.keys();
    let mut seen = HashSet::new();
    while let Some(k) = ks.next() {
        assert_eq!(hash.get(&k), Some(&(k + 100)));
        assert!(seen.insert(k));
    }
    assert_eq!(seen.len(), 20);
    let mut vs = hash.values();
    let mut count = 0;
    while let Some(v) = vs.next() {
        assert!((100..120).contains(&v));
        count += 1;
    }
    assert_eq!(count, 20);
}

// The cursors report exact sizes up front and count down as they yield.
#[test]
fn cursor_size_hints() {
    let mut hash = RehashingHashMap::new();
    for i in 0..5u64 {
        hash.insert(i, i);
    }
    let mut it = hash.iter();
    assert_eq!(it.size_hint(), (5, Some(5)));
    it.next();
    assert_eq!(it.size_hint(), (4, Some(4)));
    assert_eq!(it.len(), 4);
}
