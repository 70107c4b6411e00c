//! The table's laws, stated once over the abstract values that the
//! operation contracts speak of, and proved by Verus: what a sequence of
//! inserts and removes must preserve, and what shape a well-formed table
//! always has.

use vstd::prelude::*;

use vstd::arithmetic::power2::pow2;
use vstd::arithmetic::power2::lemma2_to64;
use vstd::arithmetic::power2::lemma_pow2_strictly_increases;

use crate::slot::count_occupied;
use crate::hash::HashStrategy;
use crate::table::FastMap;

verus! {

/// Round-trip: inserting a binding for a fresh key makes lookup under
/// that key yield exactly the inserted value, and leaves every other
/// key's binding as it was — whatever order earlier insertions came in.
pub proof fn lemma_insert_round_trip<V>(m: Map<u64, V>, key: u64, value: V)
    ensures
        m.insert(key, value).contains_key(key),
        m.insert(key, value)[key] == value,
        forall|k2: u64|
            k2 != key ==> (#[trigger] m.insert(key, value).contains_key(k2) <==> m.contains_key(
                k2,
            )),
        forall|k2: u64|
            k2 != key && m.contains_key(k2) ==> #[trigger] m.insert(key, value)[k2] == m[k2],
{
    broadcast use vstd::map::group_map_axioms;

}

/// Remove-then-absent: after removing a key it is bound to nothing, a
/// second removal changes nothing, and every other binding is kept.
pub proof fn lemma_remove_then_absent<V>(m: Map<u64, V>, key: u64)
    ensures
        !m.remove(key).contains_key(key),
        m.remove(key).remove(key) == m.remove(key),
        forall|k2: u64|
            k2 != key ==> (#[trigger] m.remove(key).contains_key(k2) <==> m.contains_key(k2)),
        forall|k2: u64| k2 != key && m.contains_key(k2) ==> #[trigger] m.remove(key)[k2] == m[k2],
{
    broadcast use vstd::map::group_map_axioms;

    assert(m.remove(key).remove(key) =~= m.remove(key));
}

/// Count invariant: in a well-formed table, a full scan counting the
/// occupied slots finds exactly the reported number of live entries.
/// `load` and `assert_count` check this equality at run time.
pub proof fn lemma_count_invariant<V, S: HashStrategy>(m: &FastMap<V, S>)
    requires
        m.wf(),
    ensures
        count_occupied(m.slots_spec()) == m@.len(),
{
    crate::slot::lemma_map_of_len(m.slots_spec());
}

/// Load-factor bound: a well-formed table keeps its live count at or
/// under 70 percent of its capacity; every operation's contract hands
/// this invariant on.
pub proof fn lemma_load_factor_bound<V, S: HashStrategy>(m: &FastMap<V, S>)
    requires
        m.wf(),
    ensures
        100 * m@.len() <= 70 * m.cap_spec(),
{
    crate::slot::lemma_map_of_len(m.slots_spec());
}

/// The capacity of a well-formed table is always a power of two, and
/// never smaller than four slots.
pub proof fn lemma_capacity_power_of_two<V, S: HashStrategy>(m: &FastMap<V, S>)
    requires
        m.wf(),
    ensures
        exists|e: nat| m.cap_spec() == pow2(e),
        m.cap_spec() >= 4,
{
    lemma2_to64();
    if m.size > 2 {
        lemma_pow2_strictly_increases(2, m.size as nat);
    }
    assert(m.cap_spec() == pow2(m.size as nat));
}

} // verus!
