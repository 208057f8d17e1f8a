use sim_core::career::{start_career, CareerTrack};
use sim_core::dynasty::MemberRecord;
use sim_core::events::{
    family_seed_money_condition, risky_investment_domain, risky_investment_succeeds,
    risky_investment_tip_condition, FAMILY_SEED_MONEY_ADULT_AGE,
};
use sim_core::rng::SimRng;

fn founder(alive: bool, age_years: u32) -> Vec<MemberRecord> {
    vec![MemberRecord { id: 1, name: "Founder".into(), age_years, alive }]
}

#[test]
fn family_seed_money_is_eligible_for_an_unemployed_adult() {
    assert!(family_seed_money_condition(&founder(true, 28), &[], 1));
    assert!(family_seed_money_condition(&founder(true, FAMILY_SEED_MONEY_ADULT_AGE), &[], 1));
    assert!(!family_seed_money_condition(&founder(true, FAMILY_SEED_MONEY_ADULT_AGE - 1), &[], 1));
}

#[test]
fn family_seed_money_is_not_eligible_once_employed() {
    let careers = vec![start_career(1, CareerTrack::Corporate, 1, 7, &[7], &[]).unwrap()];
    assert!(!family_seed_money_condition(&founder(true, 28), &careers, 1));
}

#[test]
fn family_seed_money_is_not_eligible_for_a_dead_character() {
    assert!(!family_seed_money_condition(&founder(false, 28), &[], 1));
}

#[test]
fn an_unknown_character_is_never_eligible() {
    assert!(!family_seed_money_condition(&founder(true, 28), &[], 2));
    assert!(!risky_investment_tip_condition(&founder(true, 28), &[], 2, true));
}

#[test]
fn risky_investment_tip_requires_wealth_and_a_career() {
    let members = founder(true, 28);
    assert!(!risky_investment_tip_condition(&members, &[], 1, true), "unemployed");
    let careers = vec![start_career(1, CareerTrack::Corporate, 1, 7, &[7], &[]).unwrap()];
    let minimum = 500.0f64;
    assert!(!risky_investment_tip_condition(&members, &careers, 1, minimum - 1.0 >= minimum), "not enough wealth");
    assert!(risky_investment_tip_condition(&members, &careers, 1, minimum >= minimum));
    assert!(!risky_investment_tip_condition(&founder(false, 28), &careers, 1, true), "dead");
}

#[test]
fn risky_investment_tip_invest_is_deterministic_for_the_same_seed_and_year() {
    for year in 0..20 {
        assert_eq!(risky_investment_succeeds(2026, 1, year), risky_investment_succeeds(2026, 1, year));
    }
}

#[test]
fn the_investment_roll_is_a_fifty_five_percent_chance_on_its_own_stream() {
    assert_eq!(risky_investment_domain(4, 2031), "events:risky_investment_tip:4:2031");
    let wins = (0..4000u64).filter(|&year| risky_investment_succeeds(9, 1, year)).count();
    assert!((2000..2400).contains(&wins), "got {wins} of 4000");
    // The same decision as a plain 0.55 chance on that stream.
    for year in 0..50u64 {
        let mut rng = SimRng::from_seed(9, &format!("events:risky_investment_tip:1:{year}"));
        let top = rng.next_u64() >> 11;
        let expected = (top as f64) * (1.0 / (1u64 << 53) as f64) < 0.55;
        assert_eq!(risky_investment_succeeds(9, 1, year), expected);
    }
}
