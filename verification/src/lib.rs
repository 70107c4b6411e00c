//! An associative container mapping `u64` keys to values, built on open
//! addressing: a flat array of slots, a fast seedable 64-bit hash
//! (MurmurHash2, variant 64A), linear probing with tombstones, and
//! power-of-two capacity growth driven by a load-factor threshold.

use vstd::prelude::*;

mod hash;
mod iter;
mod laws;
mod slot;
mod table;

pub use hash::murmur_hash64a;
pub use hash::HashStrategy;
pub use laws::lemma_capacity_power_of_two;
pub use laws::lemma_count_invariant;
pub use laws::lemma_insert_round_trip;
pub use laws::lemma_load_factor_bound;
pub use laws::lemma_remove_then_absent;
pub use hash::Murmur2_64a;
pub use iter::Iter;
pub use iter::IterMut;
pub use iter::Keys;
pub use iter::Values;
pub use slot::Slot;
pub use table::FastMap;
