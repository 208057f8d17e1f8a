use sim_core::birth::{birth_domain, child_is_due, next_character_id, plan_birth, HeadRecord, MAX_FERTILE_AGE, MIN_FERTILE_AGE};
use sim_core::portrait::PortraitDescriptor;
use sim_core::traits;

fn head(age_years: u32, alive: bool, home_city: Option<u32>) -> HeadRecord {
    HeadRecord { id: 1, alive, age_years, home_city }
}

fn find_seed_with_a_birth(head_age: u32) -> (u64, u64) {
    for seed in 0..500u64 {
        for year in 1..50u64 {
            if plan_birth(seed, Some(head(head_age, true, Some(7))), &[1], year).is_some() {
                return (seed, year);
            }
        }
    }
    panic!("expected at least one (seed, year) combination to produce a birth");
}

#[test]
fn the_birth_domain_names_the_head_and_year() {
    assert_eq!(birth_domain(12, 2026), "dynasty:birth:12:2026");
    assert_eq!(birth_domain(0, 0), "dynasty:birth:0:0");
}

#[test]
fn same_seed_and_year_produce_the_same_birth_outcome() {
    let (seed, year) = find_seed_with_a_birth(30);
    let a = plan_birth(seed, Some(head(30, true, Some(7))), &[1], year);
    let b = plan_birth(seed, Some(head(30, true, Some(7))), &[1], year);
    assert_eq!(a, b);
}

#[test]
fn a_birth_adds_a_child_at_age_zero_in_the_heads_home_city() {
    let (seed, year) = find_seed_with_a_birth(30);
    let child = plan_birth(seed, Some(head(30, true, Some(42))), &[1], year).expect("expected a birth");
    assert_eq!(child.home_city, Some(42));
    assert_eq!(child.id, 2);
    assert_eq!(child.portrait, PortraitDescriptor::generate_for_character(seed, 2));
    assert_eq!(child.traits, traits::generate_for_character(seed, 2));
    assert!(!child.name.is_empty());
    assert_ne!(child.id, 1, "the child is not the head");
}

#[test]
fn a_new_childs_id_never_collides_with_an_existing_member() {
    let (seed, year) = find_seed_with_a_birth(30);
    let ids = [1, 5, 3];
    let child = plan_birth(seed, Some(head(30, true, Some(7))), &ids, year).unwrap();
    assert!(!ids.contains(&child.id));
    assert_eq!(child.id, 6);
    assert_eq!(next_character_id(&[]), 1);
}

#[test]
fn a_dead_head_never_has_a_child() {
    for year in 1..50 {
        assert_eq!(plan_birth(1, Some(head(30, false, Some(7))), &[1], year), None);
    }
}

#[test]
fn a_head_outside_the_fertile_age_range_never_has_a_child() {
    for &age in &[0, 5, 17, 46, 90] {
        for year in 1..200 {
            assert_eq!(plan_birth(1, Some(head(age, true, Some(7))), &[1], year), None);
        }
    }
}

#[test]
fn a_head_with_no_dynasty_member_produces_no_birth() {
    assert_eq!(plan_birth(1, None, &[], 1), None);
}

#[test]
fn different_years_can_diverge_even_with_the_same_seed() {
    let outcomes: Vec<bool> = (1..80)
        .map(|year| plan_birth(1, Some(head(30, true, Some(7))), &[1], year).is_some())
        .collect();
    assert!(outcomes.iter().any(|b| *b) && outcomes.iter().any(|b| !*b));
}

#[test]
fn the_fertile_range_is_inclusive_at_both_ends() {
    let seen = |age: u32| (0..300u64).any(|year| plan_birth(3, Some(head(age, true, None)), &[1], year).is_some());
    assert!(seen(MIN_FERTILE_AGE));
    assert!(seen(MAX_FERTILE_AGE));
}

#[test]
fn no_child_is_due_for_a_dead_or_infertile_head_whatever_the_ids() {
    for year in 0..40u64 {
        assert!(!child_is_due(9, Some(head(30, false, None)), year));
        assert!(!child_is_due(9, Some(head(90, true, None)), year));
        assert!(!child_is_due(9, None, year));
        assert!(plan_birth(9, Some(head(30, false, None)), &[1, u32::MAX], year).is_none());
    }
}

#[test]
fn a_child_is_due_exactly_when_one_is_planned() {
    let (seed, year) = find_seed_with_a_birth(30);
    assert!(child_is_due(seed, Some(head(30, true, Some(7))), year));
    for y in 1..50u64 {
        let planned = plan_birth(seed, Some(head(30, true, Some(7))), &[1], y).is_some();
        assert_eq!(child_is_due(seed, Some(head(30, true, Some(7))), y), planned);
    }
}
