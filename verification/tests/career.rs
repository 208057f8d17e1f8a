use sim_core::career::{settle_careers, start_career, Career, CareerTrack, StartCareerError, MIN_WEEKS_BEFORE_PROMOTION};
use sim_core::rng::SimRng;

#[test]
fn corporate_ladder_runs_analyst_to_manager_to_director() {
    let track = CareerTrack::Corporate;
    assert_eq!(track.job_title(0), "Analyst");
    assert_eq!(track.job_title(1), "Manager");
    assert_eq!(track.job_title(2), "Director");
    assert_eq!(track.max_level(), 2);
}

#[test]
fn a_level_past_the_top_rung_clamps_rather_than_panics() {
    let track = CareerTrack::Corporate;
    assert_eq!(track.job_title(200), track.job_title(track.max_level()));
}

#[test]
fn starting_a_career_in_an_unknown_city_is_refused() {
    let err = start_career(1, CareerTrack::Corporate, 7, 999, &[], &[])
        .expect_err("an empty sector has no city 999 to hire in");
    assert_eq!(err, StartCareerError::UnknownEmployerCity(999));
}

#[test]
fn starting_a_career_in_a_known_city_succeeds_at_the_bottom_rung() {
    let career = start_career(1, CareerTrack::Corporate, 7, 1, &[1], &[])
        .expect("should hire into a known city");
    assert_eq!(career.level, 0);
    assert_eq!(career.weeks_at_level, 0);
    assert_eq!(career.job_title(), "Analyst");
}

#[test]
fn a_character_already_on_a_track_cannot_start_a_second_career_on_it() {
    let existing = vec![start_career(1, CareerTrack::Corporate, 7, 1, &[1], &[]).unwrap()];

    let err = start_career(2, CareerTrack::Corporate, 7, 1, &[1], &existing)
        .expect_err("character 7 already holds a Corporate career");
    assert_eq!(
        err,
        StartCareerError::AlreadyOnTrack {
            character_id: 7,
            track: CareerTrack::Corporate,
        }
    );
}

#[test]
fn an_unknown_city_is_reported_before_a_duplicate_track() {
    let existing = vec![start_career(1, CareerTrack::Corporate, 7, 1, &[1], &[]).unwrap()];
    assert_eq!(
        start_career(2, CareerTrack::Corporate, 7, 5, &[1], &existing),
        Err(StartCareerError::UnknownEmployerCity(5))
    );
    assert!(start_career(2, CareerTrack::Corporate, 8, 1, &[1], &existing).is_ok());
}

fn fresh_career() -> Career {
    start_career(1, CareerTrack::Corporate, 7, 1, &[1], &[]).unwrap()
}

#[test]
fn no_promotion_is_rolled_before_the_minimum_tenure_is_reached() {
    let mut career = fresh_career();
    for _ in 0..(MIN_WEEKS_BEFORE_PROMOTION - 1) {
        career.settle_week(Some(true));
    }
    assert_eq!(career.level, 0, "no promotion before minimum tenure");
    assert_eq!(career.weeks_at_level, MIN_WEEKS_BEFORE_PROMOTION - 1);
    career.settle_week(Some(true));
    assert_eq!(career.level, 1);
    assert_eq!(career.weeks_at_level, 0);
}

#[test]
fn a_week_without_a_resolvable_employer_still_advances_tenure_but_never_promotes() {
    let mut career = fresh_career();
    for _ in 0..100 {
        career.settle_week(None);
    }
    assert_eq!(career.level, 0);
    assert_eq!(career.weeks_at_level, 100);
}

#[test]
fn promotion_never_advances_past_the_ladders_top_rung() {
    let mut career = fresh_career();
    for _ in 0..2000 {
        career.settle_week(Some(true));
        assert!(career.is_valid());
    }
    assert_eq!(career.level, CareerTrack::Corporate.max_level());
    assert_eq!(career.job_title(), "Director");
}

#[test]
fn a_failed_roll_keeps_the_rung_and_the_tenure() {
    let mut career = fresh_career();
    for _ in 0..20 {
        career.settle_week(Some(false));
    }
    assert_eq!((career.level, career.weeks_at_level), (0, 20));
}

#[test]
fn a_character_is_eventually_promoted_off_the_bottom_rung() {
    let mut career = fresh_career();
    for _ in 0..104 {
        career.settle_week(Some(true));
    }
    assert!(career.level > 0, "expected at least one promotion");
}

fn job(id: u32, level: u8, weeks_at_level: u32) -> Career {
    Career { id, track: CareerTrack::Corporate, character_id: id, employer_city_id: 1, level, weeks_at_level }
}

#[test]
fn a_week_draws_once_per_career_whose_city_resolves() {
    let mut careers = vec![job(1, 0, 0), job(2, 0, 0), job(3, 0, 0)];
    let mut rng = SimRng::from_seed(7, "career");
    let mut expected = SimRng::from_seed(7, "career");
    expected.next_u64();
    expected.next_u64();
    settle_careers(&mut careers, &[Some(0), None, Some(1 << 53)], &mut rng);
    assert_eq!(rng.state(), expected.state());
    assert!(careers.iter().all(|c| c.weeks_at_level == 1 && c.level == 0));
}

#[test]
fn a_certain_roll_promotes_only_an_eligible_career() {
    let ready = MIN_WEEKS_BEFORE_PROMOTION - 1;
    let mut careers = vec![job(1, 0, ready), job(2, 0, ready - 1), job(3, 2, ready), job(4, 0, ready)];
    let mut rng = SimRng::from_seed(7, "career");
    settle_careers(&mut careers, &[Some(1 << 53), Some(1 << 53), Some(1 << 53), Some(0)], &mut rng);
    assert_eq!((careers[0].level, careers[0].weeks_at_level), (1, 0));
    assert_eq!((careers[1].level, careers[1].weeks_at_level), (0, ready));
    assert_eq!((careers[2].level, careers[2].weeks_at_level), (2, ready + 1));
    assert_eq!((careers[3].level, careers[3].weeks_at_level), (0, ready + 1));
}
