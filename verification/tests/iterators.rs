use fastmap::FastMap;

#[test]
fn iter_yields_exactly_the_live_entries() {
    let mut map: FastMap<u64> = FastMap::new();
    for k in 0..30u64 {
        map.insert(k, 100 + k);
    }
    map.remove(10);
    map.remove(20);
    let mut seen: Vec<(u64, u64)> = Vec::new();
    let mut it = map.iter();
    while let Some((k, v)) = it.next() {
        seen.push((k, *v));
    }
    seen.sort();
    let expected: Vec<(u64, u64)> = (0..30u64)
        .filter(|k| *k != 10 && *k != 20)
        .map(|k| (k, 100 + k))
        .collect();
    assert_eq!(seen, expected);
}

#[test]
fn iter_of_an_empty_table_yields_nothing() {
    let map: FastMap<u64> = FastMap::new();
    let mut it = map.iter();
    assert!(it.next().is_none());
    assert!(it.next().is_none());
}

#[test]
fn iter_is_exhausted_after_the_last_entry() {
    let mut map: FastMap<u64> = FastMap::new();
    map.insert(1, 11);
    let mut it = map.iter();
    assert!(it.next().is_some());
    assert!(it.next().is_none());
    assert!(it.next().is_none());
}

#[test]
fn keys_projects_the_same_scan() {
    let mut map: FastMap<u64> = FastMap::new();
    for k in [3u64, 1, 4, 1, 5, 9, 2, 6] {
        map.insert(k, k);
    }
    let mut seen: Vec<u64> = Vec::new();
    let mut keys = map.keys();
    while let Some(k) = keys.next() {
        seen.push(k);
    }
    seen.sort();
    assert_eq!(seen, vec![1, 2, 3, 4, 5, 6, 9]);
}

#[test]
fn values_projects_the_same_scan() {
    let mut map: FastMap<u64> = FastMap::new();
    for k in 0..8u64 {
        map.insert(k, 2 * k);
    }
    let mut seen: Vec<u64> = Vec::new();
    let mut values = map.values();
    while let Some(v) = values.next() {
        seen.push(*v);
    }
    seen.sort();
    assert_eq!(seen, vec![0, 2, 4, 6, 8, 10, 12, 14]);
}

#[test]
fn iter_mut_updates_every_value_in_place() {
    let mut map: FastMap<u64> = FastMap::new();
    for k in 0..20u64 {
        map.insert(k, k);
    }
    let mut it = map.iter_mut();
    while let Some((_, v)) = it.next(&mut map) {
        *v += 1000;
    }
    for k in 0..20u64 {
        assert_eq!(*map.get(k).unwrap(), k + 1000);
    }
    assert_eq!(map.len(), 20);
}

#[test]
fn iter_mut_visits_each_live_entry_once() {
    let mut map: FastMap<u64> = FastMap::new();
    for k in 0..10u64 {
        map.insert(k, 0);
    }
    map.remove(4);
    let mut visited = 0u64;
    let mut it = map.iter_mut();
    while let Some((_, v)) = it.next(&mut map) {
        *v += 1;
        visited += 1;
    }
    assert_eq!(visited, 9);
    for k in 0..10u64 {
        if k == 4 {
            assert!(map.get(k).is_none());
        } else {
            assert_eq!(*map.get(k).unwrap(), 1);
        }
    }
}
