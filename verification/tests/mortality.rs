use sim_core::mortality::{age_and_roll_mortality, mortality_threshold, Vitals};
use sim_core::rng::SimRng;

#[test]
fn mortality_probability_is_monotonically_non_decreasing_with_age() {
    let mut previous = mortality_threshold(0);
    for age in 1..200 {
        let current = mortality_threshold(age);
        assert!(current >= previous, "threshold decreased at age {age}");
        previous = current;
    }
}

#[test]
fn mortality_thresholds_match_the_bracket_probabilities() {
    let scale = (1u64 << 53) as f64;
    for (age, p) in [(0u32, 0.002), (39, 0.002), (40, 0.004), (60, 0.015), (75, 0.045), (90, 0.12), (105, 0.35), (300, 0.35)] {
        let t = mortality_threshold(age);
        assert!(t <= 1u64 << 53);
        assert_eq!(t, (p * scale).ceil() as u64, "age {age}");
    }
}

#[test]
fn a_living_characters_age_increases_by_one_year() {
    let mut members = vec![Vitals { age_years: 30, alive: true }];
    let mut rng = SimRng::from_seed(1, "dynasty:mortality");
    age_and_roll_mortality(&mut members, &mut rng);
    assert_eq!(members[0].age_years, 31);
}

#[test]
fn a_dead_character_never_ages_or_rolls_again() {
    let mut members = vec![Vitals { age_years: 50, alive: false }];
    let mut rng = SimRng::from_seed(1, "dynasty:mortality");
    let before = rng.clone();
    age_and_roll_mortality(&mut members, &mut rng);
    assert_eq!(members[0], Vitals { age_years: 50, alive: false });
    assert_eq!(rng, before, "no draw is made for a dead member");
}

#[test]
fn a_dead_character_never_re_animates_across_many_years() {
    let mut members = vec![Vitals { age_years: 50, alive: false }];
    let mut rng = SimRng::from_seed(1, "dynasty:mortality");
    for _ in 0..500 {
        age_and_roll_mortality(&mut members, &mut rng);
    }
    assert!(!members[0].alive);
    assert_eq!(members[0].age_years, 50);
}

#[test]
fn an_ancient_character_eventually_dies_within_a_bounded_number_of_years() {
    let mut members = vec![Vitals { age_years: 150, alive: true }];
    let mut rng = SimRng::from_seed(1, "dynasty:mortality");
    let died = (0..500).any(|_| {
        age_and_roll_mortality(&mut members, &mut rng);
        !members[0].alive
    });
    assert!(died, "an ancient character never died across 500 years");
}

fn run(seed: u64, base_age: u32, years: usize) -> Vec<Vitals> {
    let mut members: Vec<Vitals> = (0..30).map(|id| Vitals { age_years: base_age + id, alive: true }).collect();
    let mut rng = SimRng::from_seed(seed, "dynasty:mortality");
    for _ in 0..years {
        age_and_roll_mortality(&mut members, &mut rng);
    }
    members
}

#[test]
fn same_seed_produces_the_same_death_ticks() {
    assert_eq!(run(2026, 20, 80), run(2026, 20, 80));
}

#[test]
fn different_seeds_can_produce_different_death_ticks() {
    assert_ne!(run(1, 60, 100), run(2, 60, 100));
}
