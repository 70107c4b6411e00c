//! The hash table engine: an open-addressing table over a flat array of
//! slots, with linear probing, tombstone deletion, and power-of-two
//! capacity growth once the load factor passes 70 percent.

use vstd::prelude::*;

use vstd::arithmetic::power2::pow2;
use vstd::arithmetic::power2::lemma_pow2_strictly_increases;
use vstd::arithmetic::power2::lemma_pow2_unfold;
use vstd::arithmetic::power2::lemma2_to64;
use vstd::arithmetic::power2::lemma2_to64_rest;
use vstd::bits::low_bits_mask;
use vstd::bits::lemma_u64_low_bits_mask_is_mod;

use crate::hash::Murmur2_64a;
use crate::hash::HashStrategy;
use crate::hash::key_digest;
use crate::slot::Slot;
use crate::slot::count_occupied;
use crate::slot::map_of;
use crate::slot::has_key_in;
use crate::slot::keys_unique;
use crate::slot::digests_ok;
use crate::slot::digest_coherent;
use crate::slot::home_of;
use crate::slot::probe_of;
use crate::slot::path_clear;
use crate::slot::probe_ok;
use crate::slot::table_ok;
use crate::slot::scanned_clear;
use crate::slot::lemma_map_of_finite;
use crate::slot::lemma_map_of_contains;
use crate::slot::lemma_map_of_value;
use crate::slot::lemma_map_of_len;
use crate::slot::lemma_update_to_occupied;
use crate::slot::lemma_update_to_tombstone;
use crate::slot::lemma_probe_covers;
use crate::slot::lemma_probe_in_range;
use crate::slot::lemma_probe_miss;
use crate::slot::lemma_probe_ok_update_occupied;
use crate::slot::lemma_probe_ok_update_tombstone;

verus! {

/// A map from `u64` keys to values over an open-addressing slot array,
/// parameterized over its hashing strategy, which defaults to the
/// built-in MurmurHash2 hasher.
///
/// The abstract value of a table is the mathematical map of its live
/// entries; every operation's contract is stated against that map.
pub struct FastMap<V, S = Murmur2_64a> {
    /// The flat slot array; its length is the physical capacity.
    pub(crate) slots: Vec<Slot<V>>,
    /// The capacity exponent: the slot array holds `pow2(size)` slots.
    pub(crate) size: u32,
    /// Always `capacity - 1`, used as a bit mask for the fast modulus.
    pub(crate) mod_mask: u64,
    /// The number of occupied slots; tombstones are not counted.
    pub(crate) count: usize,
    /// The hashing strategy; its accumulated state seeds every key digest.
    pub(crate) hasher: S,
}

impl<V, S> View for FastMap<V, S> {
    type V = Map<u64, V>;

    open(crate) spec fn view(&self) -> Map<u64, V> {
        map_of(self.slots@)
    }
}

/// The result of probing for a key: either the index of the occupied slot
/// that holds it, or — with the key proved absent — the index where an
/// insertion should write: the first tombstone on the probe path if there
/// was one, otherwise the vacant slot that ended the probe.
pub(crate) enum Probe {
    Found(usize),
    Missing(usize),
}

impl<V, S: HashStrategy> FastMap<V, S> {
    /// The seed under which every stored digest was computed: the
    /// hashing strategy's accumulated state.
    pub open(crate) spec fn seed_spec(&self) -> u64 {
        self.hasher.state()
    }

    /// The physical capacity: the length of the slot array.
    pub open(crate) spec fn cap_spec(&self) -> nat {
        self.slots@.len()
    }

    /// The slot sequence of the table, in physical index order: the order
    /// in which iteration visits it.
    pub open(crate) spec fn slots_spec(&self) -> Seq<Slot<V>> {
        self.slots@
    }

    /// Well-formedness, except for the load-factor bound: the capacity is
    /// the power of two named by `size` (at least four slots), the mask
    /// matches it, `count` counts exactly the occupied slots, no key is
    /// stored twice, every stored digest is the digest of its key, and
    /// every live entry is reachable by its probe sequence.
    pub open(crate) spec fn wf_core(&self) -> bool {
        &&& self.slots@.len() == pow2(self.size as nat)
        &&& self.size >= 2
        &&& self.mod_mask as int == self.slots@.len() - 1
        &&& self.count as nat == count_occupied(self.slots@)
        &&& table_ok::<V, S>(self.slots@, self.seed_spec())
    }

    /// The full invariant: well-formed, and the load factor is at or
    /// under the 70 percent growth threshold.
    pub open(crate) spec fn wf(&self) -> bool {
        &&& self.wf_core()
        &&& 100 * (self.count as int) <= 70 * (self.slots@.len() as int)
    }

    /// Creates an empty table with the given hashing strategy, whose
    /// capacity is the least power of two that is at least `capacity`,
    /// and at least four.
    ///
    /// The bound on `capacity` is a machine limit: the chosen power of
    /// two must itself fit in `usize`.
    pub fn with_hasher(capacity: usize, hasher: S) -> (r: FastMap<V, S>)
        requires
            capacity <= usize::MAX / 2,
        ensures
            r.wf(),
            r@ == Map::<u64, V>::empty(),
            r.seed_spec() == hasher.state(),
            r.cap_spec() >= capacity,
            exists|e: nat| r.cap_spec() == pow2(e),
            capacity <= 4 ==> r.cap_spec() == 4,
            capacity > 4 ==> r.cap_spec() < 2 * capacity,
    {
        let mut size: u32 = 2;
        let mut cap: usize = 4;
        proof {
            lemma2_to64();
        }
        while cap < capacity
            invariant
                cap == pow2(size as nat),
                size >= 2,
                cap >= 4,
                capacity <= usize::MAX / 2,
                cap == 4 || cap < 2 * capacity,
                capacity <= 4 ==> cap == 4,
            decreases usize::MAX - cap,
        {
            proof {
                lemma2_to64();
                lemma2_to64_rest();
                if size >= 64 {
                    lemma_pow2_strictly_increases(64, size as nat);
                }
                lemma_pow2_unfold((size + 1) as nat);
            }
            cap = cap * 2;
            size = size + 1;
        }
        let mut slots: Vec<Slot<V>> = Vec::new();
        let mut i: usize = 0;
        while i < cap
            invariant
                slots@.len() == i,
                i <= cap,
                forall|p: int| 0 <= p < i ==> slots@[p] is Vacant,
            decreases cap - i,
        {
            slots.push(Slot::Vacant);
            i = i + 1;
        }
        let r = FastMap {
            slots,
            size,
            mod_mask: (cap - 1) as u64,
            count: 0,
            hasher,
        };
        proof {
            crate::slot::lemma_all_vacant(r.slots@);
        }
        r
    }

    /// The number of live entries in the table.
    pub fn len(&self) -> (r: usize)
        requires
            self.wf(),
        ensures
            r == self@.len(),
    {
        proof {
            lemma_map_of_len(self.slots@);
        }
        self.count
    }

    /// The total number of physical slots, tombstones included.
    pub fn capacity(&self) -> (r: usize)
        ensures
            r == self.cap_spec(),
    {
        self.slots.len()
    }

    /// Whether the table holds no live entry.
    pub fn is_empty(&mut self) -> (r: bool)
        requires
            old(self).wf(),
        ensures
            *final(self) == *old(self),
            r == (old(self)@.len() == 0),
    {
        proof {
            lemma_map_of_len(self.slots@);
        }
        self.count == 0
    }

    /// The digest of `key` under this table's hash strategy, and the home
    /// index where its probe sequence starts.
    fn calc_index(&self, key: u64) -> (r: (u64, usize))
        requires
            self.wf_core(),
        ensures
            r.0 == key_digest::<S>(key, self.seed_spec()),
            r.1 as int == home_of(r.0, self.slots@.len() as int),
            r.1 < self.slots@.len(),
    {
        let bytes = vstd::bytes::u64_to_le_bytes(key);
        let mut hasher = self.hasher.build_hasher();
        hasher.write(bytes.as_slice());
        let hash = hasher.finish();
        let cap = self.slots.len();
        proof {
            lemma_exp_below_64(self.size as nat, self.slots@.len());
            assert(self.mod_mask == low_bits_mask(self.size as nat) as u64);
            lemma_u64_low_bits_mask_is_mod(hash, self.size as nat);
            vstd::arithmetic::div_mod::lemma_mod_division_less_than_divisor(
                hash as int,
                cap as int,
            );
            vstd::arithmetic::div_mod::lemma_mod_bound(hash as int, cap as int);
        }
        let ix = (hash & self.mod_mask) as usize;
        (hash, ix)
    }

    /// A well-formed table has at least four slots, and fewer live
    /// entries than slots.
    proof fn lemma_room(&self)
        requires
            self.wf(),
        ensures
            self.slots@.len() >= 4,
            count_occupied(self.slots@) < self.slots@.len(),
    {
        lemma2_to64();
        if self.size > 2 {
            lemma_pow2_strictly_increases(2, self.size as nat);
        }
    }

    /// Every occupied slot that holds `key` caches the digest that
    /// `calc_index` computes for `key`.
    proof fn lemma_coherent(&self, key: u64)
        requires
            self.wf_core(),
        ensures
            digest_coherent(self.slots@, key, key_digest::<S>(key, self.seed_spec())),
    {
        assert forall|i: int|
            0 <= i < self.slots@.len() && #[trigger] self.slots@[i].has_key(key) implies self.slots@[i].digest_of()
            == key_digest::<S>(key, self.seed_spec()) by {
            assert(self.slots@[i].is_occupied());
        }
    }

    /// Returns a reference to the value stored under `key`, or `None` if
    /// no live entry holds `key`.
    pub fn get(&self, key: u64) -> (r: Option<&V>)
        requires
            self.wf(),
        ensures
            match r {
                Some(v) => self@.contains_key(key) && *v == self@[key],
                None => !self@.contains_key(key),
            },
            r is Some <==> self@.contains_key(key),
    {
        let (digest, home) = self.calc_index(key);
        proof {
            self.lemma_room();
            self.lemma_coherent(key);
            lemma_map_of_contains(self.slots@, key);
        }
        match probe_slot(&self.slots, digest, home, key) {
            Probe::Found(i) => {
                proof {
                    lemma_map_of_value(self.slots@, i as int);
                }
                match &self.slots[i] {
                    Slot::Occupied { value, .. } => Some(value),
                    _ => unreached(),
                }
            },
            Probe::Missing(_) => None,
        }
    }

    /// Whether a live entry holds `key`.
    pub fn contains_key(&self, key: u64) -> (r: bool)
        requires
            self.wf(),
        ensures
            r == self@.contains_key(key),
    {
        match self.get(key) {
            Some(_) => true,
            None => false,
        }
    }

}

/// A capacity exponent stays under 64, because the capacity itself fits
/// in `usize`.
proof fn lemma_exp_below_64(size: nat, len: nat)
    requires
        len == pow2(size),
        len <= usize::MAX,
    ensures
        size < 64,
{
    lemma2_to64();
    lemma2_to64_rest();
    if size >= 64 {
        if size > 64 {
            lemma_pow2_strictly_increases(64, size);
        }
        assert(pow2(size) >= pow2(64));
    }
}

/// Writes a live entry with a fresh key into the slot that its probe
/// chose, and re-establishes every structural invariant.
fn write_at<V, S: HashStrategy>(
    slots: &mut Vec<Slot<V>>,
    w: usize,
    digest: u64,
    key: u64,
    value: V,
    Ghost(seed): Ghost<u64>,
)
    requires
        w < old(slots)@.len(),
        table_ok::<V, S>(old(slots)@, seed),
        digest == key_digest::<S>(key, seed),
        !has_key_in(old(slots)@, key),
        !old(slots)@[w as int].is_occupied(),
        exists|j: int|
            0 <= j < old(slots)@.len() && #[trigger] probe_of(old(slots)@, digest, j) == w
                && path_clear(old(slots)@, digest, j),
    ensures
        final(slots)@.len() == old(slots)@.len(),
        table_ok::<V, S>(final(slots)@, seed),
        map_of(final(slots)@) == map_of(old(slots)@).insert(key, value),
        count_occupied(final(slots)@) == count_occupied(old(slots)@) + 1,
{
    let ghost s = old(slots)@;
    let occ = Slot::Occupied { digest, key, value };
    slots[w] = occ;
    proof {
        let s2 = slots@;
        assert(s2 =~= s.update(w as int, Slot::Occupied { digest, key, value }));
        lemma_update_to_occupied(s, w as int, digest, key, value);
        let j = choose|j: int|
            0 <= j < s.len() && #[trigger] probe_of(s, digest, j) == w && path_clear(s, digest, j);
        lemma_probe_ok_update_occupied(s, w as int, digest, key, value, j);
        assert(keys_unique(s2)) by {
            assert forall|i2: int, j2: int|
                0 <= i2 < s2.len() && 0 <= j2 < s2.len() && #[trigger] s2[i2].is_occupied()
                    && #[trigger] s2[j2].is_occupied() && s2[i2].key_of()
                    == s2[j2].key_of() implies i2 == j2 by {
                if i2 != w && j2 != w {
                    assert(s[i2].is_occupied());
                    assert(s[j2].is_occupied());
                } else if i2 == w && j2 != w {
                    assert(s[j2].has_key(key));
                } else if i2 != w && j2 == w {
                    assert(s[i2].has_key(key));
                }
            }
        }
        assert(digests_ok::<V, S>(s2, seed)) by {
            assert forall|i2: int|
                0 <= i2 < s2.len() && #[trigger] s2[i2].is_occupied() implies s2[i2].digest_of()
                == key_digest::<S>(s2[i2].key_of(), seed) by {
                if i2 != w {
                    assert(s[i2].is_occupied());
                }
            }
        }
    }
}

/// Probes `slots` for `key`, whose digest is `digest` and whose probe
/// sequence starts at `home`. Advances one slot per step, wrapping at the
/// end of the array; skips tombstones; stops at a match or at the first
/// vacant slot (or after a full cycle).
fn probe_slot<V>(slots: &Vec<Slot<V>>, digest: u64, home: usize, key: u64) -> (r: Probe)
    requires
        slots@.len() >= 2,
        probe_ok(slots@),
        digest_coherent(slots@, key, digest),
        count_occupied(slots@) < slots@.len(),
        home as int == home_of(digest, slots@.len() as int),
    ensures
        match r {
            Probe::Found(i) => i < slots@.len() && slots@[i as int].has_key(key),
            Probe::Missing(w) => {
                &&& !has_key_in(slots@, key)
                &&& w < slots@.len()
                &&& !slots@[w as int].is_occupied()
                &&& exists|j: int|
                    0 <= j < slots@.len() && #[trigger] probe_of(slots@, digest, j) == w
                        && path_clear(slots@, digest, j)
            },
        },
{
    let cap = slots.len();
    let mut j: usize = 0;
    let mut idx: usize = home;
    let mut first_free: Option<usize> = None;
    proof {
        vstd::arithmetic::div_mod::lemma_small_mod(home as nat, cap as nat);
    }
    while j < cap
        invariant
            0 <= j <= cap,
            cap == slots@.len(),
            cap >= 2,
            probe_ok(slots@),
            digest_coherent(slots@, key, digest),
            count_occupied(slots@) < slots@.len(),
            home as int == home_of(digest, cap as int),
            idx as int == probe_of(slots@, digest, j as int),
            idx < cap,
            scanned_clear(slots@, key, digest, j as int),
            match first_free {
                Some(w) => w < cap && !slots@[w as int].is_occupied() && exists|jt: int|
                    0 <= jt < j && #[trigger] probe_of(slots@, digest, jt) == w && path_clear(
                        slots@,
                        digest,
                        jt,
                    ),
                None => forall|j2: int|
                    0 <= j2 < j ==> slots@[#[trigger] probe_of(slots@, digest, j2)].is_occupied(),
            },
        decreases cap - j,
    {
        match &slots[idx] {
            Slot::Occupied { digest: d2, key: k2, .. } => {
                if *d2 == digest && *k2 == key {
                    return Probe::Found(idx);
                }
                proof {
                    assert(!slots@[idx as int].has_key(key));
                }
            },
            Slot::Tombstone => {
                if first_free.is_none() {
                    first_free = Some(idx);
                }
            },
            Slot::Vacant => {
                proof {
                    lemma_probe_miss(slots@, key, digest, j as int);
                }
                match first_free {
                    Some(w) => {
                        return Probe::Missing(w);
                    },
                    None => {
                        return Probe::Missing(idx);
                    },
                }
            },
        }
        proof {
            vstd::arithmetic::div_mod::lemma_small_mod(1nat, cap as nat);
            vstd::arithmetic::div_mod::lemma_add_mod_noop(
                home_of(digest, cap as int) + j,
                1,
                cap as int,
            );
            if idx + 1 == cap {
                vstd::arithmetic::div_mod::lemma_mod_self_0(cap as int);
            } else {
                vstd::arithmetic::div_mod::lemma_small_mod((idx + 1) as nat, cap as nat);
            }
            lemma_probe_in_range(slots@, digest, j + 1);
        }
        j = j + 1;
        idx = if idx + 1 == cap {
            0
        } else {
            idx + 1
        };
    }
    proof {
        lemma_probe_miss(slots@, key, digest, cap as int);
    }
    match first_free {
        Some(w) => Probe::Missing(w),
        None => {
            proof {
                assert forall|i: int| 0 <= i < cap implies slots@[i].is_occupied() by {
                    lemma_probe_covers(slots@, digest, i);
                    let j2 = choose|j2: int|
                        0 <= j2 < slots@.len() && #[trigger] probe_of(slots@, digest, j2) == i;
                    assert(slots@[probe_of(slots@, digest, j2)].is_occupied());
                }
                crate::slot::lemma_count_occupied_full(slots@);
            }
            unreached()
        },
    }
}

/// Probes for the fresh key `key` and writes its entry into the chosen
/// slot: the first tombstone on its probe path, or the vacant slot that
/// ended the probe.
fn place_entry<V, S: HashStrategy>(
    slots: &mut Vec<Slot<V>>,
    digest: u64,
    home: usize,
    key: u64,
    value: V,
    Ghost(seed): Ghost<u64>,
)
    requires
        old(slots)@.len() >= 2,
        table_ok::<V, S>(old(slots)@, seed),
        count_occupied(old(slots)@) < old(slots)@.len(),
        home as int == home_of(digest, old(slots)@.len() as int),
        digest == key_digest::<S>(key, seed),
        !has_key_in(old(slots)@, key),
    ensures
        final(slots)@.len() == old(slots)@.len(),
        table_ok::<V, S>(final(slots)@, seed),
        map_of(final(slots)@) == map_of(old(slots)@).insert(key, value),
        count_occupied(final(slots)@) == count_occupied(old(slots)@) + 1,
{
    proof {
        assert forall|i: int|
            0 <= i < slots@.len() && #[trigger] slots@[i].has_key(key) implies slots@[i].digest_of()
            == digest by {
            assert(slots@[i].is_occupied());
        }
    }
    match probe_slot(slots, digest, home, key) {
        Probe::Found(i) => {
            proof {
                assert(slots@[i as int].has_key(key));
            }
            unreached()
        },
        Probe::Missing(w) => {
            write_at::<V, S>(slots, w, digest, key, value, Ghost(seed));
        },
    }
}

impl<V, S: HashStrategy> FastMap<V, S> {
    /// Doubles the capacity: allocates a fresh, all-vacant slot array of
    /// twice the size and reinserts every live entry at the index its
    /// cached digest chooses under the new mask. Tombstones are purged;
    /// the live count and the abstract map do not change.
    fn increase_cache(&mut self)
        requires
            old(self).wf_core(),
            2 * old(self).slots@.len() <= usize::MAX,
        ensures
            final(self).wf_core(),
            final(self)@ == old(self)@,
            final(self).count == old(self).count,
            final(self).seed_spec() == old(self).seed_spec(),
            final(self).cap_spec() == 2 * old(self).cap_spec(),
    {
        let cap = self.slots.len();
        let new_cap = cap * 2;
        proof {
            lemma_exp_below_64(self.size as nat, self.slots@.len());
            lemma_pow2_unfold((self.size + 1) as nat);
            lemma2_to64();
            if self.size > 2 {
                lemma_pow2_strictly_increases(2, self.size as nat);
            }
            assert(cap >= 4);
        }
        let mut fresh: Vec<Slot<V>> = Vec::new();
        let mut i: usize = 0;
        while i < new_cap
            invariant
                fresh@.len() == i,
                i <= new_cap,
                forall|p: int| 0 <= p < i ==> fresh@[p] is Vacant,
            decreases new_cap - i,
        {
            fresh.push(Slot::Vacant);
            i = i + 1;
        }
        let mut old_slots = fresh;
        core::mem::swap(&mut self.slots, &mut old_slots);
        self.size = self.size + 1;
        self.mod_mask = (new_cap - 1) as u64;
        let ghost m0 = map_of(old_slots@);
        let ghost c0 = count_occupied(old_slots@);
        let ghost seed = self.seed_spec();
        proof {
            crate::slot::lemma_all_vacant(self.slots@);
            crate::slot::lemma_count_occupied_le_len(old_slots@);
            assert(map_of(self.slots@).union_prefer_right(map_of(old_slots@)) =~= m0);
        }
        while old_slots.len() > 0
            invariant
                self.slots@.len() == new_cap,
                new_cap >= 4,
                self.slots@.len() == pow2(self.size as nat),
                self.size >= 2,
                self.mod_mask as int == self.slots@.len() - 1,
                self.slots@.len() <= usize::MAX,
                table_ok::<V, S>(self.slots@, seed),
                seed == self.seed_spec(),
                keys_unique(old_slots@),
                digests_ok::<V, S>(old_slots@, seed),
                count_occupied(self.slots@) + count_occupied(old_slots@) == c0,
                c0 < new_cap,
                forall|k2: u64| #[trigger]
                    has_key_in(old_slots@, k2) ==> !has_key_in(self.slots@, k2),
                map_of(self.slots@).union_prefer_right(map_of(old_slots@)) == m0,
                self.count == old(self).count,
            decreases old_slots@.len(),
        {
            let ghost prev = old_slots@;
            let slot = old_slots.pop().unwrap();
            proof {
                assert(old_slots@ =~= prev.drop_last());
                crate::slot::lemma_keys_unique_drop_last(prev);
                assert(digests_ok::<V, S>(old_slots@, seed)) by {
                    assert forall|i2: int|
                        0 <= i2 < old_slots@.len()
                            && #[trigger] old_slots@[i2].is_occupied() implies old_slots@[i2].digest_of()
                        == key_digest::<S>(old_slots@[i2].key_of(), seed) by {
                        assert(prev[i2].is_occupied());
                    }
                }
                assert forall|k2: u64| #[trigger]
                    has_key_in(old_slots@, k2) implies has_key_in(prev, k2) by {
                    let i2 = choose|i2: int|
                        0 <= i2 < old_slots@.len() && #[trigger] old_slots@[i2].has_key(k2);
                    assert(prev[i2].has_key(k2));
                }
            }
            match slot {
                Slot::Occupied { digest, key, value } => {
                    proof {
                        let last = prev.len() - 1;
                        assert(prev[last].is_occupied());
                        assert(prev[last].has_key(key));
                        assert(has_key_in(prev, key));
                        assert(digest == key_digest::<S>(key, seed));
                        assert(!has_key_in(self.slots@, key));
                        assert(!has_key_in(old_slots@, key)) by {
                            if has_key_in(old_slots@, key) {
                                let i2 = choose|i2: int|
                                    0 <= i2 < old_slots@.len() && #[trigger] old_slots@[i2].has_key(
                                        key,
                                    );
                                assert(prev[i2].is_occupied());
                                assert(prev[last].is_occupied());
                            }
                        }
                        lemma_map_of_contains(old_slots@, key);
                        assert(map_of(prev) == map_of(old_slots@).insert(key, value));
                        lemma_exp_below_64(self.size as nat, self.slots@.len());
                        assert(self.mod_mask == low_bits_mask(self.size as nat) as u64);
                        lemma_u64_low_bits_mask_is_mod(digest, self.size as nat);
                        vstd::arithmetic::div_mod::lemma_mod_division_less_than_divisor(
                            digest as int,
                            new_cap as int,
                        );
                        vstd::arithmetic::div_mod::lemma_mod_bound(digest as int, new_cap as int);
                    }
                    let home = (digest & self.mod_mask) as usize;
                    let ghost before = self.slots@;
                    place_entry::<V, S>(&mut self.slots, digest, home, key, value, Ghost(seed));
                    proof {
                        assert forall|k2: u64| #[trigger]
                            has_key_in(old_slots@, k2) implies !has_key_in(self.slots@, k2) by {
                            lemma_map_of_contains(self.slots@, k2);
                            lemma_map_of_contains(before, k2);
                            assert(has_key_in(prev, k2));
                            if k2 == key {
                                assert(!has_key_in(old_slots@, key));
                            }
                        }
                        assert(map_of(self.slots@).union_prefer_right(map_of(old_slots@))
                            =~= m0) by {
                            broadcast use vstd::map::group_map_axioms;

                            assert(map_of(self.slots@) == map_of(before).insert(key, value));
                            assert(map_of(prev) == map_of(old_slots@).insert(key, value));
                            lemma_map_of_contains(old_slots@, key);
                        }
                    }
                },
                _ => {
                    proof {
                        assert(count_occupied(prev) == count_occupied(old_slots@));
                        assert(map_of(prev) == map_of(old_slots@));
                    }
                },
            }
        }
        proof {
            assert(old_slots@.len() == 0);
            assert(map_of(old_slots@) =~= Map::<u64, V>::empty());
            assert(map_of(self.slots@).union_prefer_right(Map::<u64, V>::empty()) =~= map_of(
                self.slots@,
            ));
            assert(self@ == m0);
        }
    }

    /// Grows the table, doubling its capacity each time, until the load
    /// factor is at or under the 70 percent threshold.
    fn ensure_load_rate(&mut self)
        requires
            old(self).wf_core(),
            20 * (old(self).count as int) <= 7 * (usize::MAX as int),
        ensures
            final(self).wf(),
            final(self)@ == old(self)@,
            final(self).count == old(self).count,
            final(self).seed_spec() == old(self).seed_spec(),
            final(self).cap_spec() >= old(self).cap_spec(),
    {
        while (self.count as u128) * 100 > (self.slots.len() as u128) * 70
            invariant
                self.wf_core(),
                20 * (self.count as int) <= 7 * (usize::MAX as int),
                self@ == old(self)@,
                self.count == old(self).count,
                self.seed_spec() == old(self).seed_spec(),
                self.cap_spec() >= old(self).cap_spec(),
            decreases vstd::math::max(
                100 * (self.count as int) - 70 * (self.slots@.len() as int),
                0int,
            ),
        {
            proof {
                assert(self.slots@.len() <= usize::MAX);
                assert(70 * (self.slots@.len() as int) < 100 * (self.count as int));
                assert(2 * self.slots@.len() <= usize::MAX) by {
                    assert(
                        14 * (self.slots@.len() as int) < 20 * (self.count as int)
                    );
                }
                crate::slot::lemma_count_occupied_le_len(self.slots@);
            }
            self.increase_cache();
        }
    }

    /// Inserts `key` with `value`. If a live entry already holds `key`,
    /// the table is unchanged and the insert reports `false`; it does not
    /// overwrite the existing value. Otherwise the entry is written (into
    /// the first tombstone on its probe path, or the vacant slot that
    /// ended the probe), and the load factor is rechecked — after every
    /// insertion, so it never exceeds the threshold once the insert
    /// returns — growing the table if the threshold was passed.
    ///
    /// The bound on the length is a machine limit: it keeps the grown
    /// capacity within `usize`.
    pub fn insert(&mut self, key: u64, value: V) -> (r: bool)
        requires
            old(self).wf(),
            20 * (old(self)@.len() + 1) <= 7 * usize::MAX,
        ensures
            final(self).wf(),
            r == !old(self)@.contains_key(key),
            final(self)@ == (if r {
                old(self)@.insert(key, value)
            } else {
                old(self)@
            }),
            100 * final(self)@.len() <= 70 * final(self).cap_spec(),
            final(self).cap_spec() >= old(self).cap_spec(),
            final(self).seed_spec() == old(self).seed_spec(),
    {
        proof {
            lemma_map_of_len(self.slots@);
            self.lemma_room();
            self.lemma_coherent(key);
            lemma_map_of_contains(self.slots@, key);
        }
        let (digest, home) = self.calc_index(key);
        match probe_slot(&self.slots, digest, home, key) {
            Probe::Found(i) => {
                proof {
                    assert(self.slots@[i as int].has_key(key));
                }
                false
            },
            Probe::Missing(w) => {
                let ghost seed = self.seed_spec();
                write_at::<V, S>(&mut self.slots, w, digest, key, value, Ghost(seed));
                self.count = self.count + 1;
                proof {
                    lemma_map_of_len(self.slots@);
                }
                self.ensure_load_rate();
                proof {
                    lemma_map_of_len(self.slots@);
                }
                true
            },
        }
    }

    /// Removes the live entry holding `key` and returns its value by
    /// ownership transfer, or returns `None` if no live entry holds
    /// `key`. The slot becomes a tombstone; no other slot moves, so every
    /// other key's probe sequence is preserved.
    pub fn remove(&mut self, key: u64) -> (r: Option<V>)
        requires
            old(self).wf(),
        ensures
            final(self).wf(),
            match r {
                Some(v) => old(self)@.contains_key(key) && v == old(self)@[key],
                None => !old(self)@.contains_key(key),
            },
            r is Some <==> old(self)@.contains_key(key),
            final(self)@ == old(self)@.remove(key),
            final(self).cap_spec() == old(self).cap_spec(),
            final(self).seed_spec() == old(self).seed_spec(),
    {
        proof {
            self.lemma_room();
            self.lemma_coherent(key);
            lemma_map_of_contains(self.slots@, key);
        }
        let (digest, home) = self.calc_index(key);
        match probe_slot(&self.slots, digest, home, key) {
            Probe::Found(i) => {
                let ghost s = self.slots@;
                proof {
                    assert(s[i as int].has_key(key));
                    lemma_map_of_value(s, i as int);
                    crate::slot::lemma_count_occupied_pos(s, i as int);
                }
                let mut taken = Slot::Tombstone;
                core::mem::swap(&mut self.slots[i], &mut taken);
                self.count = self.count - 1;
                proof {
                    assert(self.slots@ =~= s.update(i as int, Slot::Tombstone));
                    lemma_update_to_tombstone(s, i as int);
                    lemma_probe_ok_update_tombstone(s, i as int);
                    let s2 = self.slots@;
                    assert(keys_unique(s2)) by {
                        assert forall|i2: int, j2: int|
                            0 <= i2 < s2.len() && 0 <= j2 < s2.len()
                                && #[trigger] s2[i2].is_occupied() && #[trigger] s2[j2].is_occupied()
                                && s2[i2].key_of() == s2[j2].key_of() implies i2 == j2 by {
                            assert(s[i2].is_occupied());
                            assert(s[j2].is_occupied());
                        }
                    }
                    assert(digests_ok::<V, S>(s2, self.seed_spec())) by {
                        assert forall|i2: int|
                            0 <= i2 < s2.len()
                                && #[trigger] s2[i2].is_occupied() implies s2[i2].digest_of()
                            == key_digest::<S>(s2[i2].key_of(), self.seed_spec()) by {
                            assert(s[i2].is_occupied());
                        }
                    }
                }
                match taken {
                    Slot::Occupied { value, .. } => Some(value),
                    _ => unreached(),
                }
            },
            Probe::Missing(_) => {
                proof {
                    broadcast use vstd::map::group_map_axioms;

                    assert(self@.remove(key) =~= self@);
                }
                None
            },
        }
    }

    /// Removes every live entry and tombstone: every slot becomes vacant
    /// and the live count returns to zero. The capacity is retained.
    pub fn clear(&mut self)
        requires
            old(self).wf(),
        ensures
            final(self).wf(),
            final(self)@ == Map::<u64, V>::empty(),
            final(self).cap_spec() == old(self).cap_spec(),
            final(self).seed_spec() == old(self).seed_spec(),
    {
        let cap = self.slots.len();
        let mut i: usize = 0;
        while i < cap
            invariant
                cap == self.slots@.len(),
                i <= cap,
                forall|p: int| 0 <= p < i ==> self.slots@[p] is Vacant,
                self.size == old(self).size,
                self.mod_mask == old(self).mod_mask,
                self.count == old(self).count,
                self.hasher == old(self).hasher,
            decreases cap - i,
        {
            self.slots[i] = Slot::Vacant;
            i = i + 1;
        }
        self.count = 0;
        proof {
            crate::slot::lemma_all_vacant(self.slots@);
        }
    }

    /// Returns a mutable reference to the value stored under `key`, if a
    /// live entry holds it. Writing through the reference rebinds `key`
    /// in the abstract map and nothing else.
    pub fn get_mut(&mut self, key: u64) -> (r: Option<&mut V>)
        requires
            old(self).wf(),
        ensures
            r is Some <==> old(self)@.contains_key(key),
            r matches Some(v) ==> {
                &&& *v == old(self)@[key]
                &&& final(self).wf()
                &&& final(self)@ == old(self)@.insert(key, *final(v))
                &&& final(self).cap_spec() == old(self).cap_spec()
                &&& final(self).seed_spec() == old(self).seed_spec()
            },
            r is None ==> *final(self) == *old(self),
    {
        proof {
            self.lemma_room();
            self.lemma_coherent(key);
            lemma_map_of_contains(self.slots@, key);
        }
        let (digest, home) = self.calc_index(key);
        match probe_slot(&self.slots, digest, home, key) {
            Probe::Found(i) => {
                let ghost s = self.slots@;
                let ghost seed = self.seed_spec();
                proof {
                    assert(s[i as int].has_key(key));
                    lemma_map_of_value(s, i as int);
                    assert forall|v2: V|
                        #![trigger s.update(i as int, Slot::Occupied { digest: s[i as int].digest_of(), key, value: v2 })]
                        {
                            let s2 = s.update(
                                i as int,
                                Slot::Occupied {
                                    digest: s[i as int].digest_of(),
                                    key,
                                    value: v2,
                                },
                            );
                            &&& map_of(s2) == map_of(s).insert(key, v2)
                            &&& count_occupied(s2) == count_occupied(s)
                            &&& table_ok::<V, S>(s2, seed)
                        } by {
                        crate::slot::lemma_table_update_value::<V, S>(s, i as int, v2, seed);
                    }
                }
                match &mut self.slots[i] {
                    Slot::Occupied { value, .. } => Some(value),
                    _ => unreached(),
                }
            },
            Probe::Missing(_) => None,
        }
    }

    /// Counts the occupied slots by a full scan of the array. The result
    /// always equals the number of live entries the table reports.
    pub fn load(&self) -> (r: u64)
        requires
            self.wf(),
        ensures
            r == self@.len(),
    {
        let ghost s = self.slots@;
        let cap = self.slots.len();
        let mut found: u64 = 0;
        let mut i: usize = 0;
        while i < cap
            invariant
                cap == s.len(),
                s == self.slots@,
                i <= cap,
                found == count_occupied(s.take(i as int)),
                found <= i,
            decreases cap - i,
        {
            let occupied = match &self.slots[i] {
                Slot::Occupied { .. } => true,
                _ => false,
            };
            proof {
                assert(s.take(i + 1).drop_last() =~= s.take(i as int));
                assert(s.take(i + 1).last() == s[i as int]);
            }
            if occupied {
                found = found + 1;
            }
            i = i + 1;
        }
        proof {
            assert(s.take(cap as int) =~= s);
            lemma_map_of_len(s);
        }
        found
    }

    /// Checks the count invariant: a full scan counting occupied slots
    /// must match the table's live count exactly. Always true of a
    /// well-formed table.
    pub fn assert_count(&self) -> (r: bool)
        requires
            self.wf(),
        ensures
            r,
    {
        proof {
            lemma_map_of_len(self.slots@);
        }
        self.load() == self.count as u64
    }

    /// A histogram of probe displacement: maps each probe distance that
    /// occurs in the table to the number of live entries stored that
    /// many steps away from their home index. Distance zero means the
    /// entry sits at its home slot; larger distances measure collision
    /// chains.
    ///
    /// The bound on the length is a machine limit carried into the
    /// histogram's own inserts.
    pub fn collisions(&self) -> (r: FastMap<u64>)
        requires
            self.wf(),
            20 * (self@.len() + 1) <= 7 * usize::MAX,
        ensures
            r.wf(),
            forall|d: u64| #[trigger]
                r@.contains_key(d) <==> dist_count(self.slots_spec(), d) > 0,
            forall|d: u64| #[trigger]
                r@.contains_key(d) ==> r@[d] == dist_count(self.slots_spec(), d),
    {
        let ghost s = self.slots@;
        let cap = self.slots.len();
        proof {
            lemma_map_of_len(s);
            lemma_exp_below_64(self.size as nat, s.len());
        }
        let mut hist: FastMap<u64> = FastMap::new();
        let mut i: usize = 0;
        while i < cap
            invariant
                cap == s.len(),
                s == self.slots@,
                self.wf(),
                self@.len() == count_occupied(s),
                20 * (self@.len() + 1) <= 7 * usize::MAX,
                i <= cap,
                hist.wf(),
                forall|d: u64| #[trigger]
                    hist@.contains_key(d) <==> dist_count_upto(s, d, i as int) > 0,
                forall|d: u64| #[trigger]
                    hist@.contains_key(d) ==> hist@[d] == dist_count_upto(s, d, i as int),
                hist@.len() <= count_occupied(s.take(i as int)),
            decreases cap - i,
        {
            let info: Option<u64> = match &self.slots[i] {
                Slot::Occupied { digest, .. } => Some(*digest),
                _ => None,
            };
            match info {
                Some(digest) => {
                    proof {
                        lemma_exp_below_64(self.size as nat, s.len());
                        assert(self.mod_mask == low_bits_mask(self.size as nat) as u64);
                        lemma_u64_low_bits_mask_is_mod(digest, self.size as nat);
                        vstd::arithmetic::div_mod::lemma_mod_division_less_than_divisor(
                            digest as int,
                            cap as int,
                        );
                        vstd::arithmetic::div_mod::lemma_mod_bound(digest as int, cap as int);
                    }
                    let home = (digest & self.mod_mask) as usize;
                    let d: u64 = if i >= home {
                        (i - home) as u64
                    } else {
                        ((i + (cap - home)) as u64)
                    };
                    proof {
                        assert(d as int == distance_of(s, i as int));
                        lemma_dist_count_upto_le(s, d, i as int);
                        crate::slot::lemma_count_occupied_take_le(s, i as int);
                        lemma_map_of_finite(hist.slots@);
                    }
                    let c: u64 = match hist.remove(d) {
                        Some(c) => c,
                        None => 0,
                    };
                    let ghost pre = hist@;
                    let _ = hist.insert(d, c + 1);
                    proof {
                        broadcast use vstd::map::group_map_axioms;

                        assert(hist@ =~= pre.insert(d, (c + 1) as u64));
                        assert(s.take(i + 1).drop_last() =~= s.take(i as int));
                        assert(s.take(i + 1).last() == s[i as int]);
                        assert forall|d2: u64| #[trigger]
                            hist@.contains_key(d2) <==> dist_count_upto(s, d2, i + 1) > 0 by {
                            if d2 != d {
                                assert(dist_count_upto(s, d2, i + 1) == dist_count_upto(
                                    s,
                                    d2,
                                    i as int,
                                ));
                            }
                        }
                        assert forall|d2: u64| #[trigger]
                            hist@.contains_key(d2) implies hist@[d2] == dist_count_upto(
                            s,
                            d2,
                            i + 1,
                        ) by {
                            if d2 != d {
                                assert(dist_count_upto(s, d2, i + 1) == dist_count_upto(
                                    s,
                                    d2,
                                    i as int,
                                ));
                            }
                        }
                    }
                },
                None => {
                    proof {
                        assert(s.take(i + 1).drop_last() =~= s.take(i as int));
                        assert(s.take(i + 1).last() == s[i as int]);
                        assert forall|d2: u64| true implies dist_count_upto(s, d2, i + 1)
                            == dist_count_upto(s, d2, i as int) by {}
                    }
                },
            }
            i = i + 1;
        }
        proof {
            assert(forall|d2: u64|
                dist_count(s, d2) == dist_count_upto(s, d2, cap as int));
        }
        hist
    }
}

/// The probe distance of the occupied slot at `i`: the number of steps
/// its probe sequence takes from its digest's home index to `i`,
/// wrapping at the end of the array.
pub open spec fn distance_of<V>(s: Seq<Slot<V>>, i: int) -> int {
    let home = home_of(s[i].digest_of(), s.len() as int);
    if i >= home {
        i - home
    } else {
        i - home + s.len()
    }
}

/// Among the first `n` slots, how many live entries have probe distance
/// `d`.
pub open spec fn dist_count_upto<V>(s: Seq<Slot<V>>, d: u64, n: int) -> nat
    decreases n,
{
    if n <= 0 {
        0
    } else {
        dist_count_upto(s, d, n - 1) + if s[n - 1].is_occupied() && distance_of(s, n - 1)
            == d as int {
            1nat
        } else {
            0nat
        }
    }
}

/// How many live entries of the table have probe distance `d`.
pub open spec fn dist_count<V>(s: Seq<Slot<V>>, d: u64) -> nat {
    dist_count_upto(s, d, s.len() as int)
}

/// A distance count over the first `n` slots is at most `n`.
proof fn lemma_dist_count_upto_le<V>(s: Seq<Slot<V>>, d: u64, n: int)
    requires
        0 <= n,
    ensures
        dist_count_upto(s, d, n) <= n,
    decreases n,
{
    if n > 0 {
        lemma_dist_count_upto_le(s, d, n - 1);
    }
}

impl<V> FastMap<V> {
    /// Creates an empty table with the default hashing strategy and the
    /// default minimum capacity.
    pub fn new() -> (r: FastMap<V>)
        ensures
            r.wf(),
            r@ == Map::<u64, V>::empty(),
            r.cap_spec() == 4,
    {
        FastMap::with_capacity(4)
    }

    /// Creates an empty table with the default hashing strategy, whose
    /// capacity is the least power of two that is at least `capacity`,
    /// and at least four.
    ///
    /// The bound on `capacity` is a machine limit: the chosen power of
    /// two must itself fit in `usize`.
    pub fn with_capacity(capacity: usize) -> (r: FastMap<V>)
        requires
            capacity <= usize::MAX / 2,
        ensures
            r.wf(),
            r@ == Map::<u64, V>::empty(),
            r.cap_spec() >= capacity,
            exists|e: nat| r.cap_spec() == pow2(e),
            capacity <= 4 ==> r.cap_spec() == 4,
            capacity > 4 ==> r.cap_spec() < 2 * capacity,
    {
        FastMap::with_hasher(capacity, Murmur2_64a::new())
    }
}

} // verus!
