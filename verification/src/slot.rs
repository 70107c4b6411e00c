//! The storage model of the table: a flat sequence of slots, each either a
//! live entry, a tombstone, or vacant, together with the spec functions
//! that read such a sequence as a mathematical map and the lemmas that
//! relate slot updates to map operations.

use vstd::prelude::*;

use crate::hash::key_digest;
use crate::hash::HashStrategy;

verus! {

/// The atomic storage unit of the table.
pub enum Slot<V> {
    /// A live entry; `digest` caches the full hash of `key`, so probes can
    /// compare digests first and rebuilds need not rehash the key.
    Occupied { digest: u64, key: u64, value: V },
    /// Previously occupied, now logically removed: probes skip it, and an
    /// insertion may reuse it.
    Tombstone,
    /// Never occupied: a vacant slot ends every probe sequence that
    /// reaches it.
    Vacant,
}

impl<V> Slot<V> {
    pub open spec fn is_occupied(self) -> bool {
        self is Occupied
    }

    pub open spec fn is_vacant(self) -> bool {
        self is Vacant
    }

    /// The key of an occupied slot.
    pub open spec fn key_of(self) -> u64
        recommends
            self is Occupied,
    {
        match self {
            Slot::Occupied { key, .. } => key,
            _ => 0,
        }
    }

    /// The value of an occupied slot.
    pub open spec fn value_of(self) -> V
        recommends
            self is Occupied,
    {
        match self {
            Slot::Occupied { value, .. } => value,
            _ => arbitrary(),
        }
    }

    /// The cached digest of an occupied slot.
    pub open spec fn digest_of(self) -> u64
        recommends
            self is Occupied,
    {
        match self {
            Slot::Occupied { digest, .. } => digest,
            _ => 0,
        }
    }

    /// The slot is occupied and holds `key`.
    pub open spec fn has_key(self, key: u64) -> bool {
        self is Occupied && self.key_of() == key
    }
}

/// How many slots of `s` are occupied.
pub open spec fn count_occupied<V>(s: Seq<Slot<V>>) -> nat
    decreases s.len(),
{
    if s.len() == 0 {
        0
    } else {
        count_occupied(s.drop_last()) + if s.last() is Occupied {
            1nat
        } else {
            0nat
        }
    }
}

/// The mathematical map held by a slot sequence: the key/value pairs of
/// its occupied slots.
pub open spec fn map_of<V>(s: Seq<Slot<V>>) -> Map<u64, V>
    decreases s.len(),
{
    if s.len() == 0 {
        Map::empty()
    } else if s.last() is Occupied {
        map_of(s.drop_last()).insert(s.last().key_of(), s.last().value_of())
    } else {
        map_of(s.drop_last())
    }
}

/// Some occupied slot of `s` holds `key`.
pub open spec fn has_key_in<V>(s: Seq<Slot<V>>, key: u64) -> bool {
    exists|i: int| 0 <= i < s.len() && #[trigger] s[i].has_key(key)
}

/// No two occupied slots hold equal keys.
pub open spec fn keys_unique<V>(s: Seq<Slot<V>>) -> bool {
    forall|i: int, j: int|
        0 <= i < s.len() && 0 <= j < s.len() && #[trigger] s[i].is_occupied()
            && #[trigger] s[j].is_occupied() && s[i].key_of() == s[j].key_of() ==> i == j
}

/// Every occupied slot caches exactly the digest of its key under `seed`.
pub open spec fn digests_ok<V, S: HashStrategy>(s: Seq<Slot<V>>, seed: u64) -> bool {
    forall|i: int|
        0 <= i < s.len() && #[trigger] s[i].is_occupied() ==> s[i].digest_of() == key_digest::<S>(
            s[i].key_of(),
            seed,
        )
}

/// Every occupied slot of `s` that holds `key` caches digest `d`.
pub open spec fn digest_coherent<V>(s: Seq<Slot<V>>, key: u64, d: u64) -> bool {
    forall|i: int| 0 <= i < s.len() && #[trigger] s[i].has_key(key) ==> s[i].digest_of() == d
}

/// The home index of a digest in a table of `len` slots.
pub open spec fn home_of(digest: u64, len: int) -> int {
    (digest as int) % len
}

/// The index probed `j` steps after the home index of `digest`, advancing
/// by one per step and wrapping modulo the table length.
pub open spec fn probe_of<V>(s: Seq<Slot<V>>, digest: u64, j: int) -> int {
    (home_of(digest, s.len() as int) + j) % (s.len() as int)
}

/// Every slot on the probe path of `digest` strictly before step `j` is
/// not vacant.
pub open spec fn path_clear<V>(s: Seq<Slot<V>>, digest: u64, j: int) -> bool {
    forall|j2: int| 0 <= j2 < j ==> !s[#[trigger] probe_of(s, digest, j2)].is_vacant()
}

/// The occupied slot at index `i` is reached by the probe sequence of its
/// own digest before that sequence meets any vacant slot.
pub open spec fn slot_reachable<V>(s: Seq<Slot<V>>, i: int) -> bool {
    exists|j: int|
        0 <= j < s.len() && #[trigger] probe_of(s, s[i].digest_of(), j) == i && path_clear(
            s,
            s[i].digest_of(),
            j,
        )
}

/// Every occupied slot is reachable: starting a probe at the home index of
/// its digest reaches it before any vacant slot.
pub open spec fn probe_ok<V>(s: Seq<Slot<V>>) -> bool {
    forall|i: int| 0 <= i < s.len() && #[trigger] s[i].is_occupied() ==> slot_reachable(s, i)
}

/// The structural invariants of a slot sequence under hash seed `seed`.
pub open spec fn table_ok<V, S: HashStrategy>(s: Seq<Slot<V>>, seed: u64) -> bool {
    &&& keys_unique(s)
    &&& digests_ok::<V, S>(s, seed)
    &&& probe_ok(s)
}

/// The slots strictly before probe step `j` hold neither a vacant slot nor
/// `key`: what a probe loop has established about the part of the path it
/// has already scanned.
pub open spec fn scanned_clear<V>(s: Seq<Slot<V>>, key: u64, d: u64, j: int) -> bool {
    forall|j2: int|
        0 <= j2 < j ==> !s[#[trigger] probe_of(s, d, j2)].is_vacant() && !s[probe_of(
            s,
            d,
            j2,
        )].has_key(key)
}

/// The index of the first occupied slot at or after `from`, or the
/// length of the sequence if every later slot is a tombstone or vacant.
pub open spec fn first_occupied<V>(s: Seq<Slot<V>>, from: int) -> int
    decreases s.len() - from,
    when 0 <= from <= s.len()
{
    if from >= s.len() {
        s.len() as int
    } else if s[from].is_occupied() {
        from
    } else {
        first_occupied(s, from + 1)
    }
}

/// `first_occupied` lands on an occupied slot, skips no occupied slot,
/// and never moves backwards.
pub proof fn lemma_first_occupied<V>(s: Seq<Slot<V>>, from: int)
    requires
        0 <= from <= s.len(),
    ensures
        from <= first_occupied(s, from) <= s.len(),
        first_occupied(s, from) < s.len() ==> s[first_occupied(s, from)].is_occupied(),
        forall|p: int| from <= p < first_occupied(s, from) ==> !s[p].is_occupied(),
    decreases s.len() - from,
{
    if from < s.len() && !s[from].is_occupied() {
        lemma_first_occupied(s, from + 1);
    }
}

/// The domain of the map read off a slot sequence is finite.
pub proof fn lemma_map_of_finite<V>(s: Seq<Slot<V>>)
    ensures
        map_of(s).dom().finite(),
    decreases s.len(),
{
    broadcast use vstd::set::group_set_axioms, vstd::map::group_map_axioms;

    if s.len() > 0 {
        lemma_map_of_finite(s.drop_last());
    }
}

/// A key is in the map of a slot sequence exactly when some occupied slot
/// holds it.
pub proof fn lemma_map_of_contains<V>(s: Seq<Slot<V>>, key: u64)
    ensures
        map_of(s).contains_key(key) <==> has_key_in(s, key),
    decreases s.len(),
{
    broadcast use vstd::map::group_map_axioms;

    if s.len() > 0 {
        lemma_map_of_contains(s.drop_last(), key);
        if s.last().has_key(key) {
            assert(s[s.len() - 1].has_key(key));
        }
        if has_key_in(s, key) && !s.last().has_key(key) {
            let i = choose|i: int| 0 <= i < s.len() && #[trigger] s[i].has_key(key);
            assert(s.drop_last()[i].has_key(key));
        }
    }
}

/// In a sequence without duplicate keys, the map binds the key of an
/// occupied slot to that slot's value.
pub proof fn lemma_map_of_value<V>(s: Seq<Slot<V>>, i: int)
    requires
        keys_unique(s),
        0 <= i < s.len(),
        s[i].is_occupied(),
    ensures
        map_of(s).contains_key(s[i].key_of()),
        map_of(s)[s[i].key_of()] == s[i].value_of(),
    decreases s.len(),
{
    broadcast use vstd::map::group_map_axioms;

    if i == s.len() - 1 {
    } else {
        assert(s.drop_last()[i] == s[i]);
        assert(keys_unique(s.drop_last())) by {
            assert forall|i2: int, j2: int|
                0 <= i2 < s.drop_last().len() && 0 <= j2 < s.drop_last().len()
                    && #[trigger] s.drop_last()[i2].is_occupied()
                    && #[trigger] s.drop_last()[j2].is_occupied() && s.drop_last()[i2].key_of()
                    == s.drop_last()[j2].key_of() implies i2 == j2 by {
                assert(s[i2].is_occupied());
                assert(s[j2].is_occupied());
            }
        }
        lemma_map_of_value(s.drop_last(), i);
        if s.last() is Occupied {
            assert(s[s.len() - 1].is_occupied());
            assert(s.last().key_of() != s[i].key_of());
        }
    }
}

/// In a sequence without duplicate keys, the size of the map equals the
/// number of occupied slots.
pub proof fn lemma_map_of_len<V>(s: Seq<Slot<V>>)
    requires
        keys_unique(s),
    ensures
        map_of(s).len() == count_occupied(s),
    decreases s.len(),
{
    broadcast use vstd::set::group_set_axioms, vstd::map::group_map_axioms;

    if s.len() > 0 {
        assert(keys_unique(s.drop_last())) by {
            assert forall|i2: int, j2: int|
                0 <= i2 < s.drop_last().len() && 0 <= j2 < s.drop_last().len()
                    && #[trigger] s.drop_last()[i2].is_occupied()
                    && #[trigger] s.drop_last()[j2].is_occupied() && s.drop_last()[i2].key_of()
                    == s.drop_last()[j2].key_of() implies i2 == j2 by {
                assert(s[i2].is_occupied());
                assert(s[j2].is_occupied());
            }
        }
        lemma_map_of_len(s.drop_last());
        lemma_map_of_finite(s.drop_last());
        if s.last() is Occupied {
            assert(s[s.len() - 1].is_occupied());
            assert(!has_key_in(s.drop_last(), s.last().key_of())) by {
                if has_key_in(s.drop_last(), s.last().key_of()) {
                    let i = choose|i: int|
                        0 <= i < s.drop_last().len() && #[trigger] s.drop_last()[i].has_key(
                            s.last().key_of(),
                        );
                    assert(s[i].is_occupied());
                }
            }
            lemma_map_of_contains(s.drop_last(), s.last().key_of());
        }
    }
}

/// Uniqueness of keys carries over to the sequence without its last slot.
pub proof fn lemma_keys_unique_drop_last<V>(s: Seq<Slot<V>>)
    requires
        keys_unique(s),
        s.len() > 0,
    ensures
        keys_unique(s.drop_last()),
{
    assert forall|i2: int, j2: int|
        0 <= i2 < s.drop_last().len() && 0 <= j2 < s.drop_last().len()
            && #[trigger] s.drop_last()[i2].is_occupied()
            && #[trigger] s.drop_last()[j2].is_occupied() && s.drop_last()[i2].key_of()
            == s.drop_last()[j2].key_of() implies i2 == j2 by {
        assert(s[i2].is_occupied());
        assert(s[j2].is_occupied());
    }
}

/// Writing a live entry with a fresh key over a slot that was not occupied
/// inserts exactly that binding into the map and raises the occupied count
/// by one.
pub proof fn lemma_update_to_occupied<V>(s: Seq<Slot<V>>, i: int, d: u64, k: u64, v: V)
    requires
        0 <= i < s.len(),
        !s[i].is_occupied(),
        !has_key_in(s, k),
    ensures
        map_of(s.update(i, Slot::Occupied { digest: d, key: k, value: v })) == map_of(s).insert(
            k,
            v,
        ),
        count_occupied(s.update(i, Slot::Occupied { digest: d, key: k, value: v }))
            == count_occupied(s) + 1,
    decreases s.len(),
{
    broadcast use vstd::map::group_map_axioms;

    let occ = Slot::Occupied { digest: d, key: k, value: v };
    let s2 = s.update(i, occ);
    if i == s.len() - 1 {
        assert(s2.drop_last() =~= s.drop_last());
        assert(s2.last() == occ);
        assert(map_of(s2) == map_of(s.drop_last()).insert(k, v));
        assert(map_of(s) == map_of(s.drop_last()));
    } else {
        assert(s2.drop_last() =~= s.drop_last().update(i, occ));
        assert(s2.last() == s.last());
        assert(!has_key_in(s.drop_last(), k)) by {
            if has_key_in(s.drop_last(), k) {
                let i2 = choose|i2: int|
                    0 <= i2 < s.drop_last().len() && #[trigger] s.drop_last()[i2].has_key(k);
                assert(s[i2].has_key(k));
            }
        }
        assert(s.drop_last()[i] == s[i]);
        lemma_update_to_occupied(s.drop_last(), i, d, k, v);
        if s.last() is Occupied {
            let k2 = s.last().key_of();
            let v2 = s.last().value_of();
            assert(!s[s.len() - 1].has_key(k));
            assert(k2 != k);
            assert(map_of(s.drop_last()).insert(k, v).insert(k2, v2) =~= map_of(
                s.drop_last(),
            ).insert(k2, v2).insert(k, v));
        }
    }
}

/// Tombstoning an occupied slot removes exactly its binding from the map
/// and lowers the occupied count by one.
pub proof fn lemma_update_to_tombstone<V>(s: Seq<Slot<V>>, i: int)
    requires
        keys_unique(s),
        0 <= i < s.len(),
        s[i].is_occupied(),
    ensures
        map_of(s.update(i, Slot::Tombstone)) == map_of(s).remove(s[i].key_of()),
        count_occupied(s.update(i, Slot::Tombstone)) == count_occupied(s) - 1,
    decreases s.len(),
{
    broadcast use vstd::map::group_map_axioms;

    let k = s[i].key_of();
    let s2 = s.update(i, Slot::Tombstone);
    if i == s.len() - 1 {
        assert(s2.drop_last() =~= s.drop_last());
        assert(map_of(s2) == map_of(s.drop_last()));
        assert(map_of(s) == map_of(s.drop_last()).insert(k, s.last().value_of()));
        assert(!has_key_in(s.drop_last(), k)) by {
            if has_key_in(s.drop_last(), k) {
                let i2 = choose|i2: int|
                    0 <= i2 < s.drop_last().len() && #[trigger] s.drop_last()[i2].has_key(k);
                assert(s[i2].is_occupied());
                assert(s[s.len() - 1].is_occupied());
            }
        }
        lemma_map_of_contains(s.drop_last(), k);
        assert(map_of(s.drop_last()).insert(k, s.last().value_of()).remove(k) =~= map_of(
            s.drop_last(),
        ));
    } else {
        lemma_keys_unique_drop_last(s);
        assert(s2.drop_last() =~= s.drop_last().update(i, Slot::Tombstone));
        assert(s2.last() == s.last());
        assert(s.drop_last()[i] == s[i]);
        lemma_update_to_tombstone(s.drop_last(), i);
        if s.last() is Occupied {
            let k2 = s.last().key_of();
            let v2 = s.last().value_of();
            assert(s[s.len() - 1].is_occupied());
            assert(k2 != k);
            assert(map_of(s.drop_last()).remove(k).insert(k2, v2) =~= map_of(
                s.drop_last(),
            ).insert(k2, v2).remove(k));
        }
    }
}

/// A sequence of vacant slots holds the empty map and no occupied slot.
pub proof fn lemma_all_vacant<V>(s: Seq<Slot<V>>)
    requires
        forall|i: int| 0 <= i < s.len() ==> s[i] is Vacant,
    ensures
        map_of(s) == Map::<u64, V>::empty(),
        count_occupied(s) == 0,
    decreases s.len(),
{
    if s.len() > 0 {
        assert(forall|i: int| 0 <= i < s.drop_last().len() ==> s.drop_last()[i] is Vacant);
        lemma_all_vacant(s.drop_last());
        assert(!(s[s.len() - 1] is Occupied));
    }
}

/// If every slot is occupied, the occupied count is the whole length.
pub proof fn lemma_count_occupied_full<V>(s: Seq<Slot<V>>)
    requires
        forall|i: int| 0 <= i < s.len() ==> s[i].is_occupied(),
    ensures
        count_occupied(s) == s.len(),
    decreases s.len(),
{
    if s.len() > 0 {
        assert(forall|i: int| 0 <= i < s.drop_last().len() ==> s.drop_last()[i].is_occupied());
        lemma_count_occupied_full(s.drop_last());
        assert(s[s.len() - 1].is_occupied());
    }
}

/// The occupied count never exceeds the length.
pub proof fn lemma_count_occupied_le_len<V>(s: Seq<Slot<V>>)
    ensures
        count_occupied(s) <= s.len(),
    decreases s.len(),
{
    if s.len() > 0 {
        lemma_count_occupied_le_len(s.drop_last());
    }
}

/// A prefix never holds more occupied slots than the whole sequence.
pub proof fn lemma_count_occupied_take_le<V>(s: Seq<Slot<V>>, n: int)
    requires
        0 <= n <= s.len(),
    ensures
        count_occupied(s.take(n)) <= count_occupied(s),
    decreases s.len() - n,
{
    if n == s.len() {
        assert(s.take(n) =~= s);
    } else {
        assert(s.take(n + 1).drop_last() =~= s.take(n));
        assert(s.take(n + 1).last() == s[n]);
        lemma_count_occupied_take_le(s, n + 1);
    }
}

/// An occupied slot makes the occupied count positive.
pub proof fn lemma_count_occupied_pos<V>(s: Seq<Slot<V>>, i: int)
    requires
        0 <= i < s.len(),
        s[i].is_occupied(),
    ensures
        count_occupied(s) >= 1,
    decreases s.len(),
{
    if i == s.len() - 1 {
    } else {
        assert(s.drop_last()[i] == s[i]);
        lemma_count_occupied_pos(s.drop_last(), i);
    }
}

/// Replacing the value of an occupied slot, keeping its key and digest,
/// rebinds exactly that key in the map, keeps the occupied count, and
/// preserves every structural invariant.
pub proof fn lemma_table_update_value<V, S: HashStrategy>(s: Seq<Slot<V>>, i: int, v2: V, seed: u64)
    requires
        table_ok::<V, S>(s, seed),
        0 <= i < s.len(),
        s[i].is_occupied(),
    ensures
        ({
            let s2 = s.update(
                i,
                Slot::Occupied { digest: s[i].digest_of(), key: s[i].key_of(), value: v2 },
            );
            &&& map_of(s2) == map_of(s).insert(s[i].key_of(), v2)
            &&& count_occupied(s2) == count_occupied(s)
            &&& table_ok::<V, S>(s2, seed)
        }),
{
    let occ = Slot::Occupied { digest: s[i].digest_of(), key: s[i].key_of(), value: v2 };
    let s2 = s.update(i, occ);
    lemma_update_value_map(s, i, v2);
    assert(keys_unique(s2)) by {
        assert forall|i2: int, j2: int|
            0 <= i2 < s2.len() && 0 <= j2 < s2.len() && #[trigger] s2[i2].is_occupied()
                && #[trigger] s2[j2].is_occupied() && s2[i2].key_of()
                == s2[j2].key_of() implies i2 == j2 by {
            assert(s[i2].is_occupied());
            assert(s[j2].is_occupied());
            assert(s[i2].key_of() == s2[i2].key_of());
            assert(s[j2].key_of() == s2[j2].key_of());
        }
    }
    assert(digests_ok::<V, S>(s2, seed)) by {
        assert forall|i2: int|
            0 <= i2 < s2.len() && #[trigger] s2[i2].is_occupied() implies s2[i2].digest_of()
            == key_digest::<S>(s2[i2].key_of(), seed) by {
            assert(s[i2].is_occupied());
        }
    }
    assert(probe_ok(s2)) by {
        assert forall|i2: int|
            0 <= i2 < s2.len() && #[trigger] s2[i2].is_occupied() implies slot_reachable(
            s2,
            i2,
        ) by {
            assert(s[i2].is_occupied());
            let j2 = choose|j2: int|
                0 <= j2 < s.len() && #[trigger] probe_of(s, s[i2].digest_of(), j2) == i2
                    && path_clear(s, s[i2].digest_of(), j2);
            lemma_path_clear_mono(s, s2, s[i2].digest_of(), j2);
            assert(s2[i2].digest_of() == s[i2].digest_of());
            assert(probe_of(s2, s2[i2].digest_of(), j2) == i2 && path_clear(
                s2,
                s2[i2].digest_of(),
                j2,
            ));
        }
    }
}

/// The map effect of replacing an occupied slot's value in place.
proof fn lemma_update_value_map<V>(s: Seq<Slot<V>>, i: int, v2: V)
    requires
        keys_unique(s),
        0 <= i < s.len(),
        s[i].is_occupied(),
    ensures
        ({
            let s2 = s.update(
                i,
                Slot::Occupied { digest: s[i].digest_of(), key: s[i].key_of(), value: v2 },
            );
            &&& map_of(s2) == map_of(s).insert(s[i].key_of(), v2)
            &&& count_occupied(s2) == count_occupied(s)
        }),
    decreases s.len(),
{
    broadcast use vstd::map::group_map_axioms;

    let k = s[i].key_of();
    let occ = Slot::Occupied { digest: s[i].digest_of(), key: k, value: v2 };
    let s2 = s.update(i, occ);
    if i == s.len() - 1 {
        assert(s2.drop_last() =~= s.drop_last());
        assert(map_of(s2) == map_of(s.drop_last()).insert(k, v2));
        assert(map_of(s) == map_of(s.drop_last()).insert(k, s.last().value_of()));
        assert(map_of(s.drop_last()).insert(k, s.last().value_of()).insert(k, v2) =~= map_of(
            s.drop_last(),
        ).insert(k, v2));
    } else {
        lemma_keys_unique_drop_last(s);
        assert(s2.drop_last() =~= s.drop_last().update(i, occ));
        assert(s2.last() == s.last());
        assert(s.drop_last()[i] == s[i]);
        lemma_update_value_map(s.drop_last(), i, v2);
        if s.last() is Occupied {
            let k2 = s.last().key_of();
            let vl = s.last().value_of();
            assert(s[s.len() - 1].is_occupied());
            assert(k2 != k);
            assert(map_of(s.drop_last()).insert(k, v2).insert(k2, vl) =~= map_of(
                s.drop_last(),
            ).insert(k2, vl).insert(k, v2));
        }
    }
}

/// In a nonempty table every index is reached by the probe sequence of
/// any digest within one full cycle.
pub proof fn lemma_probe_covers<V>(s: Seq<Slot<V>>, d: u64, i: int)
    requires
        s.len() > 0,
        0 <= i < s.len(),
    ensures
        exists|j: int| 0 <= j < s.len() && #[trigger] probe_of(s, d, j) == i,
{
    let len = s.len() as int;
    let home = home_of(d, len);
    assert(0 <= home < len) by {
        vstd::arithmetic::div_mod::lemma_mod_division_less_than_divisor(d as int, len);
        vstd::arithmetic::div_mod::lemma_mod_bound(d as int, len);
    }
    let j = if i >= home {
        i - home
    } else {
        i - home + len
    };
    assert(0 <= j < len);
    assert((home + j) % len == i) by {
        if i >= home {
            vstd::arithmetic::div_mod::lemma_small_mod(i as nat, len as nat);
        } else {
            vstd::arithmetic::div_mod::lemma_mod_add_multiples_vanish(i, len);
            vstd::arithmetic::div_mod::lemma_small_mod(i as nat, len as nat);
        }
    }
    assert(probe_of(s, d, j) == i);
}

/// A clear probe path stays clear in a table of the same length whose
/// vacant slots are a subset of the old ones.
pub proof fn lemma_path_clear_mono<V>(s1: Seq<Slot<V>>, s2: Seq<Slot<V>>, d: u64, j: int)
    requires
        s1.len() == s2.len(),
        forall|p: int| 0 <= p < s2.len() && #[trigger] s2[p].is_vacant() ==> s1[p].is_vacant(),
        path_clear(s1, d, j),
        0 <= j <= s1.len(),
    ensures
        path_clear(s2, d, j),
{
    assert forall|j2: int| 0 <= j2 < j implies !s2[#[trigger] probe_of(s2, d, j2)].is_vacant() by {
        assert(probe_of(s2, d, j2) == probe_of(s1, d, j2));
        assert(0 <= probe_of(s1, d, j2) < s1.len()) by {
            vstd::arithmetic::div_mod::lemma_mod_division_less_than_divisor(
                home_of(d, s1.len() as int) + j2,
                s1.len() as int,
            );
            vstd::arithmetic::div_mod::lemma_mod_bound(
                home_of(d, s1.len() as int) + j2,
                s1.len() as int,
            );
        }
        assert(!s1[probe_of(s1, d, j2)].is_vacant());
    }
}

/// Probe positions stay inside the table.
pub proof fn lemma_probe_in_range<V>(s: Seq<Slot<V>>, d: u64, j: int)
    requires
        s.len() > 0,
    ensures
        0 <= probe_of(s, d, j) < s.len(),
{
    vstd::arithmetic::div_mod::lemma_mod_division_less_than_divisor(
        home_of(d, s.len() as int) + j,
        s.len() as int,
    );
    vstd::arithmetic::div_mod::lemma_mod_bound(
        home_of(d, s.len() as int) + j,
        s.len() as int,
    );
}

/// Writing a live entry over a tombstone or vacant slot keeps every
/// occupied slot reachable: the untouched slots keep their old witness,
/// and the new entry is reachable along the path that the probe that
/// chose its slot has just scanned.
pub proof fn lemma_probe_ok_update_occupied<V>(
    s: Seq<Slot<V>>,
    i: int,
    d: u64,
    k: u64,
    v: V,
    j: int,
)
    requires
        probe_ok(s),
        0 <= i < s.len(),
        !s[i].is_occupied(),
        0 <= j < s.len(),
        probe_of(s, d, j) == i,
        path_clear(s, d, j),
    ensures
        probe_ok(s.update(i, Slot::Occupied { digest: d, key: k, value: v })),
{
    let occ = Slot::Occupied { digest: d, key: k, value: v };
    let s2 = s.update(i, occ);
    assert forall|i2: int|
        0 <= i2 < s2.len() && #[trigger] s2[i2].is_occupied() implies slot_reachable(s2, i2) by {
        if i2 == i {
            assert(probe_of(s2, d, j) == probe_of(s, d, j));
            lemma_path_clear_mono(s, s2, d, j);
            assert(s2[i2].digest_of() == d);
            assert(probe_of(s2, s2[i2].digest_of(), j) == i2 && path_clear(
                s2,
                s2[i2].digest_of(),
                j,
            ));
        } else {
            assert(s2[i2] == s[i2]);
            assert(s[i2].is_occupied());
            let j2 = choose|j2: int|
                0 <= j2 < s.len() && #[trigger] probe_of(s, s[i2].digest_of(), j2) == i2
                    && path_clear(s, s[i2].digest_of(), j2);
            lemma_path_clear_mono(s, s2, s[i2].digest_of(), j2);
            assert(probe_of(s2, s2[i2].digest_of(), j2) == i2 && path_clear(
                s2,
                s2[i2].digest_of(),
                j2,
            ));
        }
    }
}

/// Tombstoning a slot keeps every remaining occupied slot reachable: a
/// tombstone is not vacant, so no probe path loses a step.
pub proof fn lemma_probe_ok_update_tombstone<V>(s: Seq<Slot<V>>, i: int)
    requires
        probe_ok(s),
        0 <= i < s.len(),
    ensures
        probe_ok(s.update(i, Slot::Tombstone)),
{
    let s2 = s.update(i, Slot::Tombstone);
    assert forall|i2: int|
        0 <= i2 < s2.len() && #[trigger] s2[i2].is_occupied() implies slot_reachable(s2, i2) by {
        assert(s2[i2] == s[i2]);
        assert(s[i2].is_occupied());
        let j2 = choose|j2: int|
            0 <= j2 < s.len() && #[trigger] probe_of(s, s[i2].digest_of(), j2) == i2 && path_clear(
                s,
                s[i2].digest_of(),
                j2,
            );
        lemma_path_clear_mono(s, s2, s[i2].digest_of(), j2);
        assert(probe_of(s2, s2[i2].digest_of(), j2) == i2 && path_clear(
            s2,
            s2[i2].digest_of(),
            j2,
        ));
    }
}

/// A probe that scanned `j` steps without meeting `key` or a vacant slot,
/// and then met a vacant slot (or scanned the whole table), proves `key`
/// absent: a present key would be reachable, and its witness step can be
/// neither before `j` (scanned, no match), at `j` (vacant), nor after `j`
/// (its path would cross the vacant slot).
pub proof fn lemma_probe_miss<V>(s: Seq<Slot<V>>, key: u64, d: u64, j: int)
    requires
        probe_ok(s),
        digest_coherent(s, key, d),
        s.len() > 0,
        0 <= j <= s.len(),
        scanned_clear(s, key, d, j),
        j < s.len() ==> s[probe_of(s, d, j)].is_vacant(),
    ensures
        !has_key_in(s, key),
{
    if has_key_in(s, key) {
        let i = choose|i: int| 0 <= i < s.len() && #[trigger] s[i].has_key(key);
        assert(s[i].is_occupied());
        assert(s[i].digest_of() == d);
        let jk = choose|jk: int|
            0 <= jk < s.len() && #[trigger] probe_of(s, d, jk) == i && path_clear(s, d, jk);
        if jk < j {
            assert(!s[probe_of(s, d, jk)].has_key(key));
        } else if jk == j {
            assert(s[probe_of(s, d, j)].is_vacant());
        } else {
            assert(j < jk);
            assert(!s[probe_of(s, d, j)].is_vacant());
        }
        assert(false);
    }
}

} // verus!
