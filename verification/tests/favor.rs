use sim_core::favor::{contains_id, vet_favor, GrantFavorError};
use sim_core::invariants::{check_dynasty_head, InvariantViolation};

fn positive(magnitude: f64) -> bool {
    magnitude.is_finite() && magnitude > 0.0
}

const MEMBERS: [u32; 2] = [1, 2];

#[test]
fn granting_a_favor_between_two_existing_members_succeeds() {
    assert_eq!(vet_favor(&MEMBERS, 1, 2, positive(3.0)), Ok(()));
}

#[test]
fn granting_a_favor_with_an_unknown_creditor_is_refused() {
    assert_eq!(
        vet_favor(&MEMBERS, 999, 2, positive(3.0)),
        Err(GrantFavorError::UnknownCreditor(999))
    );
}

#[test]
fn granting_a_favor_with_an_unknown_debtor_is_refused() {
    assert_eq!(
        vet_favor(&MEMBERS, 1, 999, positive(3.0)),
        Err(GrantFavorError::UnknownDebtor(999))
    );
}

#[test]
fn granting_a_favor_with_a_non_positive_magnitude_is_refused() {
    assert_eq!(vet_favor(&MEMBERS, 1, 2, positive(0.0)), Err(GrantFavorError::InvalidFavor));
    assert_eq!(vet_favor(&MEMBERS, 1, 2, positive(f64::NAN)), Err(GrantFavorError::InvalidFavor));
    assert_eq!(vet_favor(&MEMBERS, 1, 2, positive(f64::INFINITY)), Err(GrantFavorError::InvalidFavor));
}

#[test]
fn granting_a_favor_to_oneself_is_refused_even_though_the_id_exists() {
    assert_eq!(vet_favor(&MEMBERS, 1, 1, positive(3.0)), Err(GrantFavorError::InvalidFavor));
}

#[test]
fn an_unknown_creditor_is_reported_before_an_unknown_debtor() {
    assert_eq!(
        vet_favor(&MEMBERS, 7, 8, positive(-1.0)),
        Err(GrantFavorError::UnknownCreditor(7))
    );
}

#[test]
fn contains_id_finds_only_listed_ids() {
    assert!(contains_id(&[3, 1, 4], 4));
    assert!(!contains_id(&[3, 1, 4], 2));
    assert!(!contains_id(&[], 0));
}

#[test]
fn a_dangling_dynasty_head_is_caught() {
    let violation = check_dynasty_head(&[1, 2], 999_999).expect("head 999999 is not a member");
    assert_eq!(
        violation,
        InvariantViolation("dynasty head_character_id does not reference an existing member".to_string())
    );
}

#[test]
fn a_head_among_the_members_is_no_violation() {
    assert_eq!(check_dynasty_head(&[1, 2], 2), None);
}
