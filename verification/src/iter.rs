//! Iteration over the table: a lazy scan of the slot array in physical
//! index order that yields only occupied slots, skipping tombstones and
//! vacant slots transparently. `Keys` and `Values` are thin projections
//! over the same scan; `IterMut` yields mutable access to the values.

use vstd::prelude::*;

use crate::slot::Slot;
use crate::slot::first_occupied;
use crate::slot::lemma_first_occupied;
use crate::slot::lemma_map_of_value;
use crate::slot::map_of;
use crate::slot::count_occupied;
use crate::slot::table_ok;
use crate::table::FastMap;
use crate::hash::HashStrategy;

verus! {

/// A read-only pass over the live entries of a table, yielding key/value
/// pairs in slot order. Its abstract value is the slot sequence it scans
/// and the position it has reached.
pub struct Iter<'a, V> {
    pub(crate) slots: &'a Vec<Slot<V>>,
    pub(crate) pos: usize,
}

impl<'a, V> View for Iter<'a, V> {
    type V = (Seq<Slot<V>>, int);

    open(crate) spec fn view(&self) -> (Seq<Slot<V>>, int) {
        (self.slots@, self.pos as int)
    }
}

/// The index of the first occupied slot at or after `from`, found by a
/// linear scan; the array length if there is none.
fn find_next_occupied<V>(slots: &Vec<Slot<V>>, from: usize) -> (r: usize)
    requires
        from <= slots@.len(),
    ensures
        r as int == first_occupied(slots@, from as int),
        from <= r <= slots@.len(),
        r < slots@.len() ==> slots@[r as int].is_occupied(),
{
    let cap = slots.len();
    proof {
        lemma_first_occupied(slots@, from as int);
    }
    let mut i = from;
    while i < cap
        invariant
            cap == slots@.len(),
            from <= i <= cap,
            first_occupied(slots@, from as int) == first_occupied(slots@, i as int),
        decreases cap - i,
    {
        let occupied = match &slots[i] {
            Slot::Occupied { .. } => true,
            _ => false,
        };
        if occupied {
            proof {
                assert(first_occupied(slots@, i as int) == i as int);
            }
            return i;
        }
        i = i + 1;
    }
    i
}

impl<'a, V> Iter<'a, V> {
    /// The position has not run past the end of the slot array.
    pub open(crate) spec fn wf_iter(&self) -> bool {
        self.pos <= self.slots@.len()
    }

    /// A pass that starts at the first slot.
    pub(crate) fn new(slots: &'a Vec<Slot<V>>) -> (r: Iter<'a, V>)
        ensures
            r.wf_iter(),
            r@ == (slots@, 0int),
    {
        Iter { slots, pos: 0 }
    }

    /// Yields the next live entry at or after the current position, or
    /// `None` once only tombstones and vacant slots remain.
    pub fn next(&mut self) -> (r: Option<(u64, &'a V)>)
        requires
            old(self).wf_iter(),
        ensures
            final(self).wf_iter(),
            final(self)@.0 == old(self)@.0,
            ({
                let s = old(self)@.0;
                let f = first_occupied(s, old(self)@.1);
                if f < s.len() {
                    &&& r matches Some((k, v)) && k == s[f].key_of() && *v == s[f].value_of()
                    &&& final(self)@.1 == f + 1
                } else {
                    &&& r is None
                    &&& final(self)@.1 == s.len()
                }
            }),
    {
        let slots: &'a Vec<Slot<V>> = self.slots;
        let f = find_next_occupied(slots, self.pos);
        if f < slots.len() {
            self.pos = f + 1;
            match &slots[f] {
                Slot::Occupied { key, value, .. } => Some((*key, value)),
                _ => unreached(),
            }
        } else {
            self.pos = f;
            None
        }
    }
}

/// A read-only pass that yields only the keys of the live entries.
pub struct Keys<'a, V> {
    pub(crate) inner: Iter<'a, V>,
}

impl<'a, V> View for Keys<'a, V> {
    type V = (Seq<Slot<V>>, int);

    open(crate) spec fn view(&self) -> (Seq<Slot<V>>, int) {
        self.inner@
    }
}

impl<'a, V> Keys<'a, V> {
    pub open(crate) spec fn wf_iter(&self) -> bool {
        self.inner.wf_iter()
    }

    /// Yields the key of the next live entry.
    pub fn next(&mut self) -> (r: Option<u64>)
        requires
            old(self).wf_iter(),
        ensures
            final(self).wf_iter(),
            final(self)@.0 == old(self)@.0,
            ({
                let s = old(self)@.0;
                let f = first_occupied(s, old(self)@.1);
                if f < s.len() {
                    r == Some(s[f].key_of()) && final(self)@.1 == f + 1
                } else {
                    r is None && final(self)@.1 == s.len()
                }
            }),
    {
        match self.inner.next() {
            Some((k, _)) => Some(k),
            None => None,
        }
    }
}

/// A read-only pass that yields only the values of the live entries.
pub struct Values<'a, V> {
    pub(crate) inner: Iter<'a, V>,
}

impl<'a, V> View for Values<'a, V> {
    type V = (Seq<Slot<V>>, int);

    open(crate) spec fn view(&self) -> (Seq<Slot<V>>, int) {
        self.inner@
    }
}

impl<'a, V> Values<'a, V> {
    pub open(crate) spec fn wf_iter(&self) -> bool {
        self.inner.wf_iter()
    }

    /// Yields a reference to the value of the next live entry.
    pub fn next(&mut self) -> (r: Option<&'a V>)
        requires
            old(self).wf_iter(),
        ensures
            final(self).wf_iter(),
            final(self)@.0 == old(self)@.0,
            ({
                let s = old(self)@.0;
                let f = first_occupied(s, old(self)@.1);
                if f < s.len() {
                    &&& r matches Some(v) && *v == s[f].value_of()
                    &&& final(self)@.1 == f + 1
                } else {
                    &&& r is None
                    &&& final(self)@.1 == s.len()
                }
            }),
    {
        match self.inner.next() {
            Some((_, v)) => Some(v),
            None => None,
        }
    }
}

/// A cursor for a pass that hands out mutable access to the values of
/// the live entries, one at a time. The cursor holds no borrow itself:
/// each step takes the table anew, so at most one yielded reference is
/// live at a time. Its abstract value is the position reached.
pub struct IterMut {
    pub(crate) pos: usize,
}

impl View for IterMut {
    type V = int;

    open(crate) spec fn view(&self) -> int {
        self.pos as int
    }
}

impl IterMut {
    /// A pass that starts at the first slot.
    pub(crate) fn new() -> (r: IterMut)
        ensures
            r@ == 0,
    {
        IterMut { pos: 0 }
    }

    /// Yields the key of the next live entry of `map` together with a
    /// mutable reference to its value, or `None` once the scan is done.
    /// Writing through the reference rebinds that key and nothing else.
    pub fn next<'a, V, S: HashStrategy>(&mut self, map: &'a mut FastMap<V, S>) -> (r: Option<(
        u64,
        &'a mut V,
    )>)
        requires
            old(map).wf(),
            0 <= old(self)@ <= old(map).slots_spec().len(),
        ensures
            ({
                let s = old(map).slots_spec();
                let f = first_occupied(s, old(self)@);
                if f < s.len() {
                    &&& r matches Some((k, v)) && k == s[f].key_of() && *v == s[f].value_of() && *v
                        == old(map)@[k]
                    &&& final(self)@ == f + 1
                    &&& r matches Some((k, v)) ==> {
                        &&& final(map).wf()
                        &&& final(map)@ == old(map)@.insert(k, *final(v))
                        &&& final(map).cap_spec() == old(map).cap_spec()
                        &&& final(map).seed_spec() == old(map).seed_spec()
                        &&& final(map).slots_spec().len() == s.len()
                    }
                } else {
                    &&& r is None
                    &&& final(self)@ == s.len()
                    &&& *final(map) == *old(map)
                }
            }),
    {
        let ghost s = map.slots_spec();
        let ghost seed = map.seed_spec();
        let f = find_next_occupied(&map.slots, self.pos);
        if f < map.slots.len() {
            self.pos = f + 1;
            proof {
                lemma_first_occupied(s, old(self).pos as int);
                lemma_map_of_value(s, f as int);
                assert forall|v2: V|
                    #![trigger s.update(f as int, Slot::Occupied { digest: s[f as int].digest_of(), key: s[f as int].key_of(), value: v2 })]
                    {
                        let s2 = s.update(
                            f as int,
                            Slot::Occupied {
                                digest: s[f as int].digest_of(),
                                key: s[f as int].key_of(),
                                value: v2,
                            },
                        );
                        &&& map_of(s2) == map_of(s).insert(s[f as int].key_of(), v2)
                        &&& count_occupied(s2) == count_occupied(s)
                        &&& table_ok::<V, S>(s2, seed)
                    } by {
                    crate::slot::lemma_table_update_value::<V, S>(s, f as int, v2, seed);
                }
            }
            match &mut map.slots[f] {
                Slot::Occupied { key, value, .. } => Some((*key, value)),
                _ => unreached(),
            }
        } else {
            self.pos = f;
            None
        }
    }
}

impl<V, S: HashStrategy> FastMap<V, S> {
    /// A read-only pass over the live entries, in slot order.
    pub fn iter(&self) -> (r: Iter<V>)
        requires
            self.wf(),
        ensures
            r.wf_iter(),
            r@ == (self.slots_spec(), 0int),
            map_of(r@.0) == self@,
    {
        Iter::new(&self.slots)
    }

    /// A pass over the keys of the live entries, in slot order.
    pub fn keys(&mut self) -> (r: Keys<V>)
        requires
            old(self).wf(),
        ensures
            *final(self) == *old(self),
            r.wf_iter(),
            r@ == (old(self).slots_spec(), 0int),
            map_of(r@.0) == old(self)@,
    {
        Keys { inner: Iter::new(&self.slots) }
    }

    /// A pass over the values of the live entries, in slot order.
    pub fn values(&mut self) -> (r: Values<V>)
        requires
            old(self).wf(),
        ensures
            *final(self) == *old(self),
            r.wf_iter(),
            r@ == (old(self).slots_spec(), 0int),
            map_of(r@.0) == old(self)@,
    {
        Values { inner: Iter::new(&self.slots) }
    }

    /// A cursor for a pass that mutates values in place; each step of
    /// the cursor takes the table again.
    pub fn iter_mut(&mut self) -> (r: IterMut)
        requires
            old(self).wf(),
        ensures
            *final(self) == *old(self),
            r@ == 0,
    {
        IterMut::new()
    }
}

} // verus!
