use sim_core::rng::{fnv1a64, SimRng};

#[test]
fn same_seed_and_domain_reproduce_the_same_sequence() {
    let mut a = SimRng::from_seed(42, "economy");
    let mut b = SimRng::from_seed(42, "economy");
    let seq_a: Vec<u64> = (0..50).map(|_| a.next_u64()).collect();
    let seq_b: Vec<u64> = (0..50).map(|_| b.next_u64()).collect();
    assert_eq!(seq_a, seq_b);
}

#[test]
fn different_domains_diverge_even_with_the_same_seed() {
    let mut a = SimRng::from_seed(42, "economy");
    let mut b = SimRng::from_seed(42, "worldgen");
    assert_ne!(a.next_u64(), b.next_u64());
}

#[test]
fn consuming_one_stream_does_not_affect_a_sibling_stream() {
    let world_seed = 7;
    let mut worldgen_untouched = SimRng::from_seed(world_seed, "worldgen");

    let mut economy = SimRng::from_seed(world_seed, "economy");
    for _ in 0..1000 {
        economy.next_u64();
    }
    let mut worldgen_after = SimRng::from_seed(world_seed, "worldgen");

    assert_eq!(worldgen_untouched.next_u64(), worldgen_after.next_u64());
}

#[test]
fn next_below_stays_in_bounds() {
    let mut rng = SimRng::from_seed(1, "test");
    for _ in 0..1000 {
        assert!(rng.next_below(6) < 6);
    }
}

#[test]
fn next_below_never_escapes_its_bound() {
    let mut rng = SimRng::from_seed(123, "property:next_below");
    const SAMPLES: usize = 50_000;

    for &bound in &[1u32, 2, 3, 7, 16, 100, 10_000] {
        let mut seen_nonzero = false;
        for _ in 0..SAMPLES {
            let v = rng.next_below(bound);
            assert!(
                v < bound,
                "next_below({bound}) produced {v}, outside [0, {bound})"
            );
            seen_nonzero |= v != 0;
        }
        if bound > 1 {
            assert!(
                seen_nonzero,
                "next_below({bound}) returned 0 for all {SAMPLES} samples"
            );
        }
    }
}

#[test]
fn fnv1a64_matches_the_published_reference_values() {
    assert_eq!(fnv1a64(b""), 0xcbf29ce484222325);
    assert_eq!(fnv1a64(b"a"), 0xaf63dc4c8601ec8c);
    assert_eq!(fnv1a64(b"economy"), 11674275441615311479);
}

#[test]
fn a_seeded_stream_produces_its_exact_xoshiro_sequence() {
    let mut rng = SimRng::from_seed(42, "economy");
    assert_eq!(rng.next_u64(), 2477465821112062068);
    assert_eq!(rng.next_u64(), 11829710158324357442);
    assert_eq!(rng.next_u64(), 8301786118246061033);
}

#[test]
fn next_below_is_the_next_draw_modulo_the_bound() {
    let mut rng = SimRng::from_seed(1, "test");
    let draws: Vec<u32> = (0..5).map(|_| rng.next_below(6)).collect();
    assert_eq!(draws, vec![4, 2, 4, 4, 5]);
}

#[test]
fn pick_index_matches_next_below_on_the_same_stream() {
    let mut a = SimRng::from_seed(9, "pick");
    let mut b = SimRng::from_seed(9, "pick");
    for _ in 0..100 {
        assert_eq!(a.pick_index(17), b.next_below(17) as usize);
    }
}

#[test]
fn chance_scaled_is_certain_at_two_to_the_53_and_impossible_at_zero() {
    let mut rng = SimRng::from_seed(5, "chance");
    for _ in 0..1000 {
        assert!(rng.chance_scaled(1u64 << 53));
        assert!(!rng.chance_scaled(0));
    }
}

#[test]
fn a_stream_rebuilt_from_its_state_continues_identically() {
    let mut saved = SimRng::from_seed(77, "save");
    saved.next_u64();
    let mut restored = SimRng::from_state(saved.state());
    for _ in 0..20 {
        assert_eq!(saved.next_u64(), restored.next_u64());
    }
}
