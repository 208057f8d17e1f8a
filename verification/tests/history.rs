use sim_core::history::{generate_backstory, template_pools};
use sim_core::rng::SimRng;

#[test]
fn templates_pass_the_copy_lint_rule() {
    for pool in template_pools() {
        for template in pool {
            assert!(
                !template.contains('\u{2014}'),
                "template contains an em dash: {template}"
            );
            assert!(
                !template.contains(';'),
                "template contains a semicolon: {template}"
            );
        }
    }
}

#[test]
fn same_rng_state_produces_the_same_backstory() {
    let mut a = SimRng::from_seed(4242, "worldgen");
    let mut b = SimRng::from_seed(4242, "worldgen");
    assert_eq!(
        generate_backstory(&mut a, "Kestrel Union"),
        generate_backstory(&mut b, "Kestrel Union")
    );
}

#[test]
fn different_draws_can_produce_different_backstories() {
    let mut rng = SimRng::from_seed(1, "worldgen");
    let blurbs: std::collections::HashSet<String> = (0..20)
        .map(|_| generate_backstory(&mut rng, "Kestrel Union"))
        .collect();
    assert!(
        blurbs.len() > 1,
        "expected varied output across draws, got {blurbs:?}"
    );
}

#[test]
fn every_pool_is_reachable() {
    let pools = template_pools();
    let mut rng = SimRng::from_seed(99, "test:history-coverage");
    let mut seen = std::collections::HashSet::new();
    for _ in 0..500 {
        let blurb = generate_backstory(&mut rng, "Test Nation");
        for (i, pool) in pools.iter().enumerate() {
            if pool
                .iter()
                .any(|t| blurb == t.replace("{name}", "Test Nation"))
            {
                seen.insert(i);
            }
        }
    }
    assert_eq!(seen.len(), pools.len(), "not every pool was drawn from");
}

#[test]
fn backstory_substitutes_the_country_name() {
    let mut rng = SimRng::from_seed(7, "worldgen");
    let blurb = generate_backstory(&mut rng, "Free Cities of Oridine");
    assert!(
        blurb.starts_with("Free Cities of Oridine"),
        "expected the country name at the start of the blurb, got: {blurb}"
    );
    assert!(!blurb.contains("{name}"));
}

#[test]
fn a_backstory_is_its_drawn_template_with_the_name_filled_in() {
    let mut probe = SimRng::from_seed(4242, "worldgen");
    let pool = probe.pick_index(3);
    let index = probe.pick_index(5);
    let expected = template_pools()[pool][index].replace("{name}", "Kestrel Union");
    let mut rng = SimRng::from_seed(4242, "worldgen");
    assert_eq!(generate_backstory(&mut rng, "Kestrel Union"), expected);
    assert_eq!(rng, probe);
}
