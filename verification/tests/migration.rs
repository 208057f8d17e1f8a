use sim_core::migration::apply_migration;

#[test]
fn migrants_leave_poorer_cities_and_the_remainder_goes_to_the_best_city() {
    let mut sizes = vec![1_000, 500, 2_000];
    apply_migration(&mut sizes, &[10, 5, 0], &[0, 0, 12], Some(2));
    assert_eq!(sizes, vec![990, 495, 2_015]);
}

#[test]
fn moving_people_conserves_the_total() {
    let mut sizes = vec![40_000, 12_345, 999, 700_000];
    let before: u64 = sizes.iter().sum();
    apply_migration(&mut sizes, &[400, 123, 9, 0], &[0, 0, 0, 500], Some(3));
    let after: u64 = sizes.iter().sum();
    assert_eq!(before, after);
}

#[test]
fn no_movement_leaves_every_city_as_it_was() {
    let mut sizes = vec![3, 4, 5];
    apply_migration(&mut sizes, &[0, 0, 0], &[0, 0, 0], None);
    assert_eq!(sizes, vec![3, 4, 5]);
}
