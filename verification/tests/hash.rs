use nft_art::utils::FnvHasher;

fn fnv_of(bytes: &[u8]) -> u64 {
    let mut hasher = FnvHasher::new();
    hasher.update(bytes);
    hasher.output()
}

#[test]
fn hash_of_nothing_is_the_offset_basis() {
    assert_eq!(FnvHasher::new().output(), 14695981039346656037);
    assert_eq!(fnv_of(&[]), 14695981039346656037);
    assert_eq!(FnvHasher::default().output(), 0xcbf29ce484222325);
}

#[test]
fn hash_matches_known_vectors() {
    assert_eq!(fnv_of(b"a"), 0xaf63dc4c8601ec8c);
    assert_eq!(fnv_of(b"foobar"), 0x85944171f73967e8);
    assert_eq!(fnv_of(&[0]), 0xaf63bd4c8601b7df);
}

#[test]
fn hash_of_one_byte_is_xor_then_wrapping_multiply() {
    let expected = (14695981039346656037u64 ^ 0x61).wrapping_mul(1099511628211);
    assert_eq!(fnv_of(&[0x61]), expected);
}

#[test]
fn hash_is_deterministic() {
    let bytes: Vec<u8> = (0..=255u8).collect();
    assert_eq!(fnv_of(&bytes), fnv_of(&bytes));
}

#[test]
fn hash_depends_on_order() {
    assert_ne!(fnv_of(b"ab"), fnv_of(b"ba"));
}

#[test]
fn hash_in_pieces_is_hash_of_the_whole() {
    let mut hasher = FnvHasher::new();
    hasher.update(b"foo");
    hasher.update(b"");
    hasher.update(b"bar");
    assert_eq!(hasher.output(), fnv_of(b"foobar"));
}

#[test]
fn hash_goes_on_after_output() {
    let mut hasher = FnvHasher::new();
    hasher.update(b"foo");
    let first = hasher.output();
    assert_eq!(first, fnv_of(b"foo"));
    hasher.update(b"bar");
    assert_eq!(hasher.output(), 0x85944171f73967e8);
}

#[test]
fn hasher_wraps_its_accumulator() {
    let mut hasher = FnvHasher(u64::MAX);
    hasher.update(&[0]);
    assert_eq!(hasher.0, u64::MAX.wrapping_mul(1099511628211));
}
