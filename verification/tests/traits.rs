use sim_core::dynasty::has_no_duplicate_traits;
use sim_core::rng::SimRng;
use sim_core::traits::{all_traits, generate, generate_for_character, Trait, MAX_TRAITS_PER_CHARACTER};

#[test]
fn same_seed_and_character_id_generate_the_same_traits() {
    let a = generate_for_character(42, 7);
    let b = generate_for_character(42, 7);
    assert_eq!(a, b);
}

#[test]
fn different_character_ids_can_diverge_even_with_the_same_seed() {
    let traits: Vec<Vec<Trait>> = (0..20).map(|id| generate_for_character(42, id)).collect();
    assert!(
        traits.windows(2).any(|pair| pair[0] != pair[1]),
        "expected at least some variation in traits across characters, got {traits:?}"
    );
}

#[test]
fn generating_one_characters_traits_does_not_affect_a_sibling() {
    let alone = generate_for_character(99, 5);

    let _ = generate_for_character(99, 1);
    let _ = generate_for_character(99, 2);
    let _ = generate_for_character(99, 3);
    let after_siblings = generate_for_character(99, 5);

    assert_eq!(alone, after_siblings);
}

#[test]
fn every_character_has_between_one_and_the_max_traits() {
    for id in 0..500 {
        let traits = generate_for_character(1, id);
        assert!(!traits.is_empty());
        assert!(traits.len() <= MAX_TRAITS_PER_CHARACTER);
    }
}

#[test]
fn traits_for_a_character_never_contain_duplicates() {
    for id in 0..500 {
        let traits = generate_for_character(2026, id);
        let mut unique = traits.clone();
        unique.sort_by_key(|t| all_traits().iter().position(|a| a == t).unwrap());
        unique.dedup();
        assert_eq!(
            unique.len(),
            traits.len(),
            "duplicate trait for character {id}: {traits:?}"
        );
    }
}

#[test]
fn a_known_character_gets_its_exact_traits() {
    assert_eq!(generate_for_character(42, 7), vec![Trait::Charismatic, Trait::Reckless]);
    let mut rng = SimRng::from_seed(42, "traits:7");
    assert_eq!(generate(&mut rng), generate_for_character(42, 7));
}

#[test]
fn about_three_in_ten_characters_get_a_second_trait() {
    let doubles = (0..2000).filter(|&id| generate_for_character(7, id).len() == 2).count();
    assert!((450..750).contains(&doubles), "got {doubles} of 2000");
}

#[test]
fn duplicate_traits_are_detected() {
    assert!(has_no_duplicate_traits(&[Trait::Ambitious]));
    assert!(has_no_duplicate_traits(&[]));
    assert!(has_no_duplicate_traits(&[Trait::Ambitious, Trait::Frugal, Trait::Sickly]));
    assert!(!has_no_duplicate_traits(&[Trait::Ambitious, Trait::Frugal, Trait::Ambitious]));
}

#[test]
fn a_character_with_duplicate_traits_is_invalid() {
    let mut traits = vec![Trait::Ambitious];
    assert!(has_no_duplicate_traits(&traits));

    traits.push(Trait::Ambitious);
    assert!(!has_no_duplicate_traits(&traits));
}
