use fastmap::murmur_hash64a;
use fastmap::FastMap;
use fastmap::HashStrategy;
use fastmap::Murmur2_64a;

#[test]
fn new_map_is_empty_with_four_slots() {
    let mut map: FastMap<u64> = FastMap::new();
    assert_eq!(map.len(), 0);
    assert_eq!(map.capacity(), 4);
    assert!(map.is_empty());
    assert!(!map.contains_key(21));
    assert!(map.get(21).is_none());
}

#[test]
fn insert_then_get() {
    let mut map: FastMap<u64> = FastMap::new();
    assert!(map.insert(21, 42));
    let val = map.get(21);
    assert!(val.is_some());
    assert_eq!(*val.unwrap(), 42);
    assert!(map.contains_key(21));
    assert_eq!(map.len(), 1);
}

#[test]
fn round_trip_many_keys() {
    let mut map: FastMap<u64> = FastMap::with_capacity(4);
    for k in 0..200u64 {
        assert!(map.insert(k, 1000 + k));
    }
    assert_eq!(map.len(), 200);
    for k in 0..200u64 {
        assert_eq!(*map.get(k).unwrap(), 1000 + k);
    }
}

#[test]
fn round_trip_insertion_order_does_not_matter() {
    let mut forward: FastMap<u64> = FastMap::new();
    let mut backward: FastMap<u64> = FastMap::new();
    for k in 0..100u64 {
        forward.insert(k, 3 * k);
    }
    for k in (0..100u64).rev() {
        backward.insert(k, 3 * k);
    }
    assert_eq!(forward.len(), backward.len());
    for k in 0..100u64 {
        assert_eq!(*forward.get(k).unwrap(), 3 * k);
        assert_eq!(*backward.get(k).unwrap(), 3 * k);
    }
}

#[test]
fn duplicate_insert_is_a_no_op_keeping_the_first_value() {
    let mut map: FastMap<u64> = FastMap::new();
    assert!(map.insert(7, 1));
    assert!(!map.insert(7, 2));
    assert_eq!(*map.get(7).unwrap(), 1);
    assert_eq!(map.len(), 1);
    // Still a no-op after more traffic around it.
    for k in 100..140u64 {
        map.insert(k, k);
    }
    assert!(!map.insert(7, 3));
    assert_eq!(*map.get(7).unwrap(), 1);
}

#[test]
fn remove_returns_the_value_and_leaves_the_key_absent() {
    let mut map: FastMap<u64> = FastMap::new();
    map.insert(21, 42);
    let val = map.remove(21);
    assert!(val.is_some());
    assert_eq!(val.unwrap(), 42);
    assert!(!map.contains_key(21));
    assert!(map.get(21).is_none());
    assert_eq!(map.remove(21), None);
    assert_eq!(map.len(), 0);
}

#[test]
fn remove_keeps_every_other_binding() {
    let mut map: FastMap<u64> = FastMap::new();
    for k in 0..50u64 {
        map.insert(k, k + 1);
    }
    for k in (0..50u64).step_by(2) {
        assert_eq!(map.remove(k), Some(k + 1));
    }
    assert_eq!(map.len(), 25);
    for k in 0..50u64 {
        if k % 2 == 0 {
            assert!(!map.contains_key(k));
        } else {
            assert_eq!(*map.get(k).unwrap(), k + 1);
        }
    }
}

#[test]
fn count_invariant_after_mixed_operations() {
    let mut map: FastMap<u64> = FastMap::new();
    assert!(map.assert_count());
    for k in 0..100u64 {
        map.insert(k, k);
        assert!(map.assert_count());
    }
    for k in 30..60u64 {
        map.remove(k);
        assert!(map.assert_count());
    }
    for k in 40..50u64 {
        map.insert(k, k);
    }
    assert!(map.assert_count());
    assert_eq!(map.load(), map.len() as u64);
}

#[test]
fn load_factor_stays_at_or_under_seventy_percent() {
    let mut map: FastMap<u64> = FastMap::new();
    for k in 0..500u64 {
        map.insert(k, k);
        assert!(map.len() * 100 <= map.capacity() * 70);
    }
}

#[test]
fn growth_preserves_every_entry() {
    let mut map: FastMap<u64> = FastMap::with_capacity(4);
    let initial_capacity = map.capacity();
    for k in 0..50u64 {
        map.insert(k, 7000 + k);
    }
    assert!(map.capacity() > initial_capacity);
    assert_eq!(map.len(), 50);
    for k in 0..50u64 {
        assert_eq!(*map.get(k).unwrap(), 7000 + k);
    }
    assert!(!map.contains_key(50));
}

#[test]
fn capacity_is_a_power_of_two_at_least_the_request() {
    for request in [0usize, 1, 2, 3, 4, 5, 7, 8, 9, 15, 16, 17, 20, 100, 1000] {
        let map: FastMap<u64> = FastMap::with_capacity(request);
        let cap = map.capacity();
        assert!(cap >= request);
        assert!(cap >= 4);
        assert_eq!(cap & (cap - 1), 0, "capacity {cap} is not a power of two");
    }
}

#[test]
fn small_table_grows_at_least_twice_for_ten_keys() {
    let mut map: FastMap<u64> = FastMap::with_capacity(4);
    assert_eq!(map.capacity(), 4);
    for k in 1..=10u64 {
        map.insert(k, k);
    }
    assert_eq!(map.len(), 10);
    // Two doublings at least: from 4 slots to 16 or beyond.
    assert!(map.capacity() >= 16);
}

#[test]
fn clear_empties_the_table_and_keeps_the_capacity() {
    let mut map: FastMap<u64> = FastMap::new();
    for k in 0..40u64 {
        map.insert(k, k);
    }
    let cap = map.capacity();
    map.clear();
    assert_eq!(map.len(), 0);
    assert!(map.is_empty());
    assert_eq!(map.capacity(), cap);
    for k in 0..40u64 {
        assert!(!map.contains_key(k));
    }
    // The table is fully usable after a clear.
    map.insert(3, 33);
    assert_eq!(*map.get(3).unwrap(), 33);
}

#[test]
fn get_mut_updates_in_place() {
    let mut map: FastMap<u64> = FastMap::new();
    map.insert(21, 42);
    assert_eq!(*map.get(21).unwrap(), 42);
    {
        let val = map.get_mut(21).unwrap();
        *val += 1;
    }
    assert_eq!(*map.get(21).unwrap(), 43);
    assert!(map.get_mut(99).is_none());
}

/// Finds `n` distinct keys whose probe sequences all start at the last
/// slot of a table of `cap` slots.
fn keys_homed_at_tail(cap: u64, n: usize) -> Vec<u64> {
    let mut keys = Vec::new();
    let mut k = 0u64;
    while keys.len() < n {
        let digest = murmur_hash64a(&k.to_le_bytes(), 0);
        if digest & (cap - 1) == cap - 1 {
            keys.push(k);
        }
        k += 1;
    }
    keys
}

#[test]
fn probe_wraps_around_the_end_of_the_array() {
    // Two keys whose probe starts at the very last slot of a four-slot
    // table: the second one must wrap to slot zero.
    let keys = keys_homed_at_tail(4, 2);
    let mut map: FastMap<u64> = FastMap::with_capacity(4);
    map.insert(keys[0], 1);
    map.insert(keys[1], 2);
    assert_eq!(map.capacity(), 4);
    assert_eq!(*map.get(keys[0]).unwrap(), 1);
    assert_eq!(*map.get(keys[1]).unwrap(), 2);
}

#[test]
fn lookup_probes_through_a_tombstone_at_the_tail() {
    let keys = keys_homed_at_tail(4, 2);
    let mut map: FastMap<u64> = FastMap::with_capacity(4);
    map.insert(keys[0], 1);
    map.insert(keys[1], 2);
    // Tombstone the entry at the tail slot; the wrapped entry must still
    // be reachable through it.
    assert_eq!(map.remove(keys[0]), Some(1));
    assert_eq!(*map.get(keys[1]).unwrap(), 2);
    assert!(!map.contains_key(keys[0]));
}

#[test]
fn insert_reuses_a_tombstone() {
    let keys = keys_homed_at_tail(4, 2);
    let mut map: FastMap<u64> = FastMap::with_capacity(4);
    map.insert(keys[0], 1);
    map.insert(keys[1], 2);
    map.remove(keys[0]);
    // A fresh key homed at the same slot may reuse the tombstone; either
    // way both entries are found and the capacity did not change.
    map.insert(keys[0], 10);
    assert_eq!(map.capacity(), 4);
    assert_eq!(*map.get(keys[0]).unwrap(), 10);
    assert_eq!(*map.get(keys[1]).unwrap(), 2);
}

#[test]
fn stress_insert_remove_reinsert() {
    let mut map: FastMap<u64> = FastMap::new();
    for k in 0..1000u64 {
        assert!(map.insert(k, k * k));
    }
    for k in (0..1000u64).step_by(3) {
        assert_eq!(map.remove(k), Some(k * k));
    }
    for k in (0..1000u64).step_by(3) {
        assert!(map.insert(k, k + 1));
    }
    for k in 0..1000u64 {
        let expect = if k % 3 == 0 { k + 1 } else { k * k };
        assert_eq!(*map.get(k).unwrap(), expect);
    }
    assert!(map.assert_count());
}

#[test]
fn values_can_be_non_copy() {
    let mut map: FastMap<String> = FastMap::new();
    map.insert(21, String::from("Eat my shorts"));
    assert_eq!(map.get(21).unwrap(), "Eat my shorts");
    let taken = map.remove(21).unwrap();
    assert_eq!(taken, "Eat my shorts");
    assert!(map.get(21).is_none());
}

#[test]
fn caller_supplied_hasher_state_seeds_the_table() {
    // The strategy is injectable: a hasher whose accumulated state is
    // nonzero seeds every digest differently, and the table still honors
    // the same contracts.
    let mut hasher = Murmur2_64a::new();
    hasher.write(b"seed material");
    assert_ne!(hasher.finish(), 0);
    let mut map: FastMap<u64, Murmur2_64a> = FastMap::with_hasher(8, hasher);
    for k in 0..20u64 {
        assert!(map.insert(k, k + 1));
    }
    for k in 0..20u64 {
        assert_eq!(*map.get(k).unwrap(), k + 1);
    }
    assert_eq!(map.remove(3), Some(4));
    assert!(!map.contains_key(3));
    assert!(map.assert_count());
}

#[test]
fn collisions_histogram_counts_every_live_entry() {
    let mut map: FastMap<u64> = FastMap::new();
    for k in 0..100u64 {
        map.insert(k, k);
    }
    let mut hist = map.collisions();
    let mut total = 0u64;
    let mut it = hist.iter();
    while let Some((_, count)) = it.next() {
        total += *count;
    }
    assert_eq!(total, map.len() as u64);
    drop(it);
    assert!(hist.assert_count());
}

#[test]
fn collisions_of_a_single_entry_is_one_at_distance_zero() {
    let mut map: FastMap<u64> = FastMap::new();
    map.insert(5, 50);
    let hist = map.collisions();
    assert_eq!(hist.len(), 1);
    assert_eq!(*hist.get(0).unwrap(), 1);
}

#[test]
fn collisions_of_an_empty_table_is_empty() {
    let map: FastMap<u64> = FastMap::new();
    let hist = map.collisions();
    assert_eq!(hist.len(), 0);
}
