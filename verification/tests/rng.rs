use terminal_snake::game::rng::{fnv1a64, Pcg32};

#[test]
fn pcg32_matches_reference_vectors() {
    let mut r = Pcg32::new(42);
    assert_eq!(r.next_u32(), 0xa15c02b7);
    assert_eq!(r.next_u32(), 0x7b47f409);
    assert_eq!(r.next_u32(), 0xba1d3330);
}

#[test]
fn fnv1a64_matches_reference_vectors() {
    assert_eq!(fnv1a64(b""), 0xcbf29ce484222325);
    assert_eq!(fnv1a64(b"a"), 0xaf63dc4c8601ec8c);
}

#[test]
fn below_is_in_range() {
    let mut r = Pcg32::new(7);
    for _ in 0..10_000 {
        assert!(r.below(504) < 504);
    }
    assert_eq!(Pcg32::new(1).below(1), 0);
}

#[test]
fn same_seed_same_sequence() {
    let mut a = Pcg32::new(99);
    let mut b = Pcg32::new(99);
    for _ in 0..16 {
        assert_eq!(a.next_u32(), b.next_u32());
    }
}

#[test]
fn fnv1a64_of_a_longer_input() {
    // FNV-1a-64 of "foobar" from the reference test suite.
    assert_eq!(fnv1a64(b"foobar"), 0x85944171f73967e8);
}

#[test]
fn below_a_power_of_two_is_the_draw_masked() {
    // 2^k divides 2^32, so nothing is rejected and the first draw is reduced.
    let mut a = Pcg32::new(42);
    let mut b = Pcg32::new(42);
    let w = a.next_u32();
    assert_eq!(b.below(16), w % 16);
}

#[test]
fn below_rejects_the_incomplete_block() {
    // With bound 3 the threshold is 2^32 mod 3 = 1: only a draw of 0 is
    // rejected. Check that the accepted value matches the first draw >= 1.
    let mut a = Pcg32::new(5);
    let mut b = Pcg32::new(5);
    let v = b.below(3);
    let mut w = a.next_u32();
    while w < 1 {
        w = a.next_u32();
    }
    assert_eq!(v, w % 3);
    assert_eq!(a.next_u32(), b.next_u32());
}

#[test]
fn different_seeds_give_different_first_words() {
    assert_ne!(Pcg32::new(1).next_u32(), Pcg32::new(2).next_u32());
}

#[test]
fn below_accepts_every_draw_for_a_power_of_two() {
    for k in 0..8u32 {
        let bound = 1u32 << k;
        let mut a = Pcg32::new(13 + k as u64);
        let mut b = Pcg32::new(13 + k as u64);
        let w = b.next_u32();
        assert_eq!(a.below(bound), w % bound);
        // Exactly one draw was consumed.
        assert_eq!(a.next_u32(), b.next_u32());
    }
}

#[test]
fn below_skips_every_rejected_draw_before_the_first_accepted_one() {
    // Bound 2^31 + 1 leaves a threshold of 2^31 - 1, so about half of the
    // draws are rejected; some seed among the first few starts with a run of
    // rejections.
    let bound: u32 = 0x8000_0001;
    let threshold = bound.wrapping_neg() % bound;
    assert_eq!(threshold, 0x7fff_ffff);
    let mut seen_rejection = false;
    for seed in 0..64u64 {
        let mut a = Pcg32::new(seed);
        let mut b = Pcg32::new(seed);
        let v = b.below(bound);
        let mut w = a.next_u32();
        while w < threshold {
            seen_rejection = true;
            w = a.next_u32();
        }
        assert_eq!(v, w % bound, "seed {seed}");
        assert_eq!(a.next_u32(), b.next_u32(), "seed {seed}");
    }
    assert!(seen_rejection);
}
