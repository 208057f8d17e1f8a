use sim_core::dynasty::plan_founder;
use sim_core::portrait::PortraitDescriptor;
use sim_core::rng::SimRng;
use sim_core::traits;

#[test]
fn the_founder_is_member_one_with_their_own_streams() {
    let founder = plan_founder(2026, Some(4));
    assert_eq!(founder.id, 1);
    assert_eq!(founder.home_city, Some(4));
    assert_eq!(founder.portrait, PortraitDescriptor::generate_for_character(2026, 1));
    assert_eq!(founder.traits, traits::generate_for_character(2026, 1));
    let mut rng = SimRng::from_seed(2026, "dynasty");
    assert_eq!(founder.age_years, 28 + (rng.next_u64() % 20) as u32);
    assert_eq!(founder.wealth_draw, rng.next_u64());
}

#[test]
fn the_founder_is_always_between_28_and_47() {
    for seed in 0..300u64 {
        let founder = plan_founder(seed, None);
        assert!((28..=47).contains(&founder.age_years));
        assert_eq!(founder, plan_founder(seed, None));
    }
}
