use fastmap::murmur_hash64a;
use fastmap::HashStrategy;
use fastmap::Murmur2_64a;

// Reference vectors for MurmurHash2 64A with seed 0.

#[test]
fn hash_empty_seed_zero() {
    assert_eq!(murmur_hash64a(b"", 0), 0x0);
}

#[test]
fn hash_test_seed_zero() {
    assert_eq!(murmur_hash64a(b"test", 0), 0x2f4a8724618f4c63);
}

#[test]
fn hash_single_byte() {
    assert_eq!(murmur_hash64a(b"a", 0), 0x071717d2d36b6b11);
}

#[test]
fn hash_exactly_one_block() {
    assert_eq!(murmur_hash64a(b"abcdefgh", 0), 0xafdb0257ff41aa98);
}

#[test]
fn hash_block_plus_tail() {
    assert_eq!(murmur_hash64a(b"abcdefghi", 0), 0xc9b9d84356146ac2);
}

#[test]
fn hash_longer_input() {
    assert_eq!(murmur_hash64a(b"Hello, world!", 0), 0xa0fe1b7e284d2b19);
}

#[test]
fn hash_nonzero_seed() {
    assert_eq!(murmur_hash64a(b"test", 0xadc83b19), 0xff211d0b0982e4e6);
}

#[test]
fn hash_deterministic() {
    let a = murmur_hash64a(b"determinism", 7);
    let b = murmur_hash64a(b"determinism", 7);
    assert_eq!(a, b);
}

#[test]
fn hash_seed_changes_digest() {
    assert_ne!(murmur_hash64a(b"test", 0), murmur_hash64a(b"test", 1));
}

#[test]
fn hasher_single_write_matches_function() {
    let mut h = Murmur2_64a::new();
    h.write(b"test");
    assert_eq!(h.finish(), murmur_hash64a(b"test", 0));
}

#[test]
fn hasher_writes_chain_with_previous_digest_as_seed() {
    // Repeated writes re-invoke the algorithm with the previous digest as
    // the new seed; they do not concatenate the inputs.
    let mut h = Murmur2_64a::new();
    h.write(b"ab");
    h.write(b"cd");
    let chained = murmur_hash64a(b"cd", murmur_hash64a(b"ab", 0));
    assert_eq!(h.finish(), chained);
    assert_ne!(h.finish(), murmur_hash64a(b"abcd", 0));
}

#[test]
fn build_hasher_starts_from_accumulated_digest() {
    let mut h = Murmur2_64a::new();
    h.write(b"state");
    let fresh = h.build_hasher();
    assert_eq!(fresh.finish(), h.finish());
}

#[test]
fn fresh_hasher_finishes_to_zero() {
    let h = Murmur2_64a::new();
    assert_eq!(h.finish(), 0);
}
