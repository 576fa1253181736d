use shredstream_proxy::dedup::{fnv1a_hash, Deduper};

#[test]
fn repeat_is_recognised_within_a_generation() {
    let mut d = Deduper::with_seeds(1024, 11, 22, 0);
    let payload = [7u8; 64];
    assert!(!d.observe(&payload));
    for _ in 0..999 {
        assert!(d.observe(&payload));
    }
}

#[test]
fn distinct_payloads_pass_through() {
    let mut d = Deduper::with_seeds(4096, 1, 2, 0);
    let mut dups = 0u64;
    for i in 0..1000u64 {
        let payload = i.to_be_bytes();
        if d.observe(&payload) {
            dups += 1;
        }
    }
    // 262144 bits per bitset and 1000 elements: no false positive here
    assert_eq!(dups, 0);
}

#[test]
fn reset_starts_an_empty_generation() {
    let mut d = Deduper::with_seeds(1024, 5, 6, 0);
    assert!(!d.observe(b"shred"));
    assert!(d.observe(b"shred"));
    d.reset_with_seeds(7, 8, 100);
    assert!(!d.observe(b"shred"));
}

#[test]
fn maybe_reset_honours_the_interval() {
    let mut d = Deduper::with_seeds(1024, 5, 6, 1000);
    assert!(!d.observe(b"shred"));
    // too early: the generation is kept
    d.maybe_reset(1500, 1000);
    assert!(d.observe(b"shred"));
    // due: the generation is cleared
    d.maybe_reset(2000, 1000);
    assert!(!d.observe(b"shred"));
}

#[test]
fn random_seeds_still_dedup() {
    let mut d = Deduper::new_random(1024, 0);
    assert!(!d.observe(b"payload"));
    assert!(d.observe(b"payload"));
}

#[test]
fn fnv1a_matches_reference_values() {
    // seeded with the standard FNV-1a offset basis, empty input returns it
    let basis: u64 = 0xcbf29ce484222325;
    assert_eq!(fnv1a_hash(basis, b""), basis);
    // the classic FNV-1a test vector for "a"
    assert_eq!(fnv1a_hash(basis, b"a"), 0xaf63dc4c8601ec8c);
    // and for "foobar"
    assert_eq!(fnv1a_hash(basis, b"foobar"), 0x85944171f73967e8);
}
