use sim_core::time::{SimClock, DAYS_PER_YEAR};

#[test]
fn boundaries_trigger_at_expected_ticks() {
    let mut clock = SimClock::new();
    assert!(clock.is_week_boundary());
    assert!(clock.is_month_boundary());
    assert!(clock.is_year_boundary());

    for _ in 0..6 {
        clock.advance_one_day();
    }
    assert!(!clock.is_week_boundary());

    for _ in 0..1 {
        clock.advance_one_day();
    }
    assert!(clock.is_week_boundary());
}

#[test]
fn year_and_day_of_year_derive_from_tick() {
    let mut clock = SimClock::new();
    for _ in 0..(DAYS_PER_YEAR + 5) {
        clock.advance_one_day();
    }
    assert_eq!(clock.year(), 1);
    assert_eq!(clock.day_of_year(), 5);
}

#[test]
fn year_and_day_recompose_the_tick() {
    let clock = SimClock { tick: 1_234_567 };
    assert_eq!(clock.year() * DAYS_PER_YEAR + clock.day_of_year(), clock.tick);
    assert_eq!(clock.year(), 3429);
    assert_eq!(clock.day_of_year(), 127);
}

#[test]
fn month_boundaries_fall_every_thirty_days_and_on_every_year_boundary() {
    assert!(SimClock { tick: 30 }.is_month_boundary());
    assert!(!SimClock { tick: 31 }.is_month_boundary());
    let year_end = SimClock { tick: 720 };
    assert!(year_end.is_year_boundary() && year_end.is_month_boundary());
    assert_eq!(SimClock::default(), SimClock::new());
}

#[test]
fn boundaries_recur_with_their_period() {
    let mut clock = SimClock::new();
    for day in 1..=(3 * 360u64) {
        clock.advance_one_day();
        assert_eq!(clock.is_week_boundary(), day % 7 == 0);
        assert_eq!(clock.is_month_boundary(), day % 30 == 0);
        assert_eq!(clock.is_year_boundary(), day % 360 == 0);
        if clock.is_year_boundary() {
            assert!(clock.is_month_boundary());
        }
    }
}
