//! MurmurHash2, 64-bit variant "A": a deterministic, seedable hash from a
//! byte string to a 64-bit digest.
//!
//! `murmur2_64a` is the mathematical definition of the algorithm, written
//! over a `Seq<u8>`; `murmur_hash64a` is the executable function, proved to
//! compute exactly that value. `Murmur2_64a` wraps the function in the
//! incremental write/finish shape that hashing frameworks expect: each
//! `write` re-invokes the full algorithm with the previous digest as the
//! new seed, so repeated writes chain rather than concatenate.

use vstd::prelude::*;

verus! {

/// The multiplier constant of MurmurHash2 64A.
pub const MULTIPLIER: u64 = 0xc6a4a7935bd1e995;

/// One full 64-bit block `k` folded into the running state `h`:
/// `k *= m; k ^= k >> 47; k *= m; h ^= k; h *= m`.
pub open spec fn mix_block(h: u64, k: u64) -> u64 {
    let k1 = k.wrapping_mul(MULTIPLIER);
    let k2 = k1 ^ (k1 >> 47);
    let k3 = k2.wrapping_mul(MULTIPLIER);
    (h ^ k3).wrapping_mul(MULTIPLIER)
}

/// The 64-bit little-endian value of the eight bytes starting at `off`.
pub open spec fn le_block(bytes: Seq<u8>, off: int) -> u64 {
    (bytes[off] as u64)
    | ((bytes[off + 1] as u64) << 8)
    | ((bytes[off + 2] as u64) << 16)
    | ((bytes[off + 3] as u64) << 24)
    | ((bytes[off + 4] as u64) << 32)
    | ((bytes[off + 5] as u64) << 40)
    | ((bytes[off + 6] as u64) << 48)
    | ((bytes[off + 7] as u64) << 56)
}

/// The state after folding in the first `n` full 8-byte blocks of `bytes`,
/// starting from `h`.
pub open spec fn fold_blocks(bytes: Seq<u8>, h: u64, n: int) -> u64
    decreases n,
{
    if n <= 0 {
        h
    } else {
        mix_block(fold_blocks(bytes, h, n - 1), le_block(bytes, 8 * (n - 1)))
    }
}

/// The `cnt` tail bytes starting at `off` xor-ed into `h`, each at a shift
/// of eight times its position, most significant tail byte first.
pub open spec fn fold_tail(h: u64, bytes: Seq<u8>, off: int, cnt: int) -> u64
    decreases cnt,
{
    if cnt <= 0 {
        h
    } else {
        fold_tail(
            h ^ ((bytes[off + cnt - 1] as u64) << ((8 * (cnt - 1)) as u64)),
            bytes,
            off,
            cnt - 1,
        )
    }
}

/// The MurmurHash2 64A digest of `bytes` under `seed`: initialize with the
/// length, fold in the full blocks, fold in the tail (with one extra
/// multiply if the tail is nonempty), then avalanche.
pub open spec fn murmur2_64a(bytes: Seq<u8>, seed: u64) -> u64 {
    let len = bytes.len() as int;
    let h0 = seed ^ (len as u64).wrapping_mul(MULTIPLIER);
    let h1 = fold_blocks(bytes, h0, len / 8);
    let h2 = fold_tail(h1, bytes, 8 * (len / 8), len % 8);
    let h3 = if len % 8 > 0 {
        h2.wrapping_mul(MULTIPLIER)
    } else {
        h2
    };
    let h4 = (h3 ^ (h3 >> 47)).wrapping_mul(MULTIPLIER);
    h4 ^ (h4 >> 47)
}

/// A hashing strategy for the table: a seedable hasher with the
/// write/finish contract that standard hashing frameworks use. The
/// strategy's whole behaviour is the spec function `digest_spec`;
/// `write` must fold its input into the accumulated state by exactly
/// that function, with the previous state as the seed, so that repeated
/// writes chain and equal bytes under an equal state always give an
/// equal digest.
pub trait HashStrategy: Sized {
    /// The digest the strategy assigns to `bytes` under the accumulated
    /// state `seed`.
    spec fn digest_spec(seed: u64, bytes: Seq<u8>) -> u64;

    /// The accumulated state: the digest so far, which seeds the next
    /// write.
    spec fn state(&self) -> u64;

    /// A hasher that starts from this one's accumulated state.
    fn build_hasher(&self) -> (r: Self)
        ensures
            r.state() == self.state(),
    ;

    /// Folds `msg` into the accumulated state, re-invoking the full
    /// algorithm with the previous state as the new seed.
    fn write(&mut self, msg: &[u8])
        ensures
            final(self).state() == Self::digest_spec(old(self).state(), msg@),
    ;

    /// The digest accumulated so far.
    fn finish(&self) -> (r: u64)
        ensures
            r == self.state(),
    ;
}

/// The digest a strategy assigns to a `u64` key: the hash of its eight
/// little-endian bytes under the table's accumulated seed.
pub open spec fn key_digest<S: HashStrategy>(key: u64, seed: u64) -> u64 {
    S::digest_spec(seed, vstd::bytes::spec_u64_to_le_bytes(key))
}

/// Computes the MurmurHash2 64A digest of `key` under `seed`.
///
/// Deterministic and pure: equal bytes and seed always give an equal
/// digest. All arithmetic wraps at 64 bits, as the algorithm requires.
pub fn murmur_hash64a(key: &[u8], seed: u64) -> (r: u64)
    ensures
        r == murmur2_64a(key@, seed),
{
    let len = key.len();
    let mut h: u64 = seed ^ (len as u64).wrapping_mul(MULTIPLIER);
    let nblocks = len / 8;

    assert(8 * nblocks + len % 8 == len) by {
        vstd::arithmetic::div_mod::lemma_fundamental_div_mod(len as int, 8);
    }

    let mut i: usize = 0;
    while i < nblocks
        invariant
            i <= nblocks,
            len == key@.len(),
            nblocks == key@.len() as int / 8,
            8 * nblocks <= key@.len(),
            h == fold_blocks(key@, seed ^ (key@.len() as u64).wrapping_mul(MULTIPLIER), i as int),
        decreases nblocks - i,
    {
        let off = 8 * i;
        let k: u64 = (key[off] as u64)
            | ((key[off + 1] as u64) << 8)
            | ((key[off + 2] as u64) << 16)
            | ((key[off + 3] as u64) << 24)
            | ((key[off + 4] as u64) << 32)
            | ((key[off + 5] as u64) << 40)
            | ((key[off + 6] as u64) << 48)
            | ((key[off + 7] as u64) << 56);
        assert(k == le_block(key@, 8 * (i as int)));
        let k = k.wrapping_mul(MULTIPLIER);
        let k = k ^ (k >> 47);
        let k = k.wrapping_mul(MULTIPLIER);
        h = (h ^ k).wrapping_mul(MULTIPLIER);
        i = i + 1;
    }

    let tail_cnt = len % 8;
    let ghost h1 = h;
    let mut j = tail_cnt;
    while j > 0
        invariant
            j <= tail_cnt,
            len == key@.len(),
            tail_cnt == key@.len() as int % 8,
            8 * nblocks + tail_cnt == key@.len(),
            nblocks == key@.len() as int / 8,
            fold_tail(h, key@, 8 * (nblocks as int), j as int) == fold_tail(
                h1,
                key@,
                8 * (nblocks as int),
                tail_cnt as int,
            ),
        decreases j,
    {
        j = j - 1;
        h = h ^ ((key[8 * nblocks + j] as u64) << ((8 * j) as u64));
    }
    if tail_cnt > 0 {
        h = h.wrapping_mul(MULTIPLIER);
    }

    h = (h ^ (h >> 47)).wrapping_mul(MULTIPLIER);
    h = h ^ (h >> 47);
    h
}

/// The default hashing strategy: the seedable hasher around
/// `murmur_hash64a`. Its accumulated state is the digest so far, which
/// also serves as the seed of the next `write`.
#[allow(non_camel_case_types)]
pub struct Murmur2_64a {
    pub(crate) seed: u64,
}

impl Murmur2_64a {
    /// A fresh hasher with seed zero.
    pub fn new() -> (r: Murmur2_64a)
        ensures
            r.state() == 0,
    {
        Murmur2_64a { seed: 0 }
    }
}

impl HashStrategy for Murmur2_64a {
    open spec fn digest_spec(seed: u64, bytes: Seq<u8>) -> u64 {
        murmur2_64a(bytes, seed)
    }

    closed spec fn state(&self) -> u64 {
        self.seed
    }

    /// A hasher that starts from this one's accumulated digest as its
    /// seed.
    fn build_hasher(&self) -> (r: Murmur2_64a) {
        Murmur2_64a { seed: self.seed }
    }

    /// Folds `msg` into the accumulated digest: the full algorithm is
    /// re-invoked with the previous digest as the new seed, so repeated
    /// writes chain.
    fn write(&mut self, msg: &[u8]) {
        self.seed = murmur_hash64a(msg, self.seed);
    }

    /// The digest accumulated so far.
    fn finish(&self) -> (r: u64) {
        self.seed
    }
}

} // verus!
