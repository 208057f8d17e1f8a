use sim_core::dynasty::MemberRecord;
use sim_core::lobbying::{lobbying_head, LobbyRefusal};

fn member(id: u32, alive: bool) -> MemberRecord {
    MemberRecord { id, name: format!("Member {id}"), age_years: 40, alive }
}

#[test]
fn lobbying_an_unknown_country_is_refused() {
    let members = vec![member(1, true)];
    assert_eq!(lobbying_head(&[5, 6], &members, 1, 999_999), Err(LobbyRefusal::UnknownCountry(999_999)));
}

#[test]
fn the_country_is_checked_before_the_head() {
    let members = vec![member(1, false)];
    assert_eq!(lobbying_head(&[5], &members, 1, 7), Err(LobbyRefusal::UnknownCountry(7)));
    assert_eq!(lobbying_head(&[5], &members, 1, 5), Err(LobbyRefusal::HeadUnavailable));
}

#[test]
fn the_living_head_pays() {
    let members = vec![member(3, true), member(1, true)];
    assert_eq!(lobbying_head(&[5], &members, 1, 5), Ok(1));
    assert_eq!(lobbying_head(&[5], &members, 2, 5), Err(LobbyRefusal::HeadUnavailable));
}
