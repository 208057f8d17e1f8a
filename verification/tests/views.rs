use sim_core::career::{start_career, CareerTrack};
use sim_core::dynasty::{member_summaries, DynastyMemberSummary, DynastyRole, MemberRecord};
use sim_core::events::PendingEvent;
use sim_core::views::{career_view, pending_event_views, CityName};

fn members() -> Vec<MemberRecord> {
    vec![
        MemberRecord { id: 1, name: "Elder".into(), age_years: 70, alive: false },
        MemberRecord { id: 2, name: "Heir".into(), age_years: 34, alive: true },
    ]
}

#[test]
fn member_summaries_mark_the_head_and_preserve_alive_state() {
    let summaries = member_summaries(&members(), 2);
    assert_eq!(
        summaries,
        vec![
            DynastyMemberSummary {
                id: 1,
                name: "Elder".into(),
                age_years: 70,
                alive: false,
                role: DynastyRole::Member,
            },
            DynastyMemberSummary {
                id: 2,
                name: "Heir".into(),
                age_years: 34,
                alive: true,
                role: DynastyRole::Head,
            },
        ]
    );
}

#[test]
fn career_view_resolves_character_and_employer_names() {
    let career = start_career(1, CareerTrack::Corporate, 2, 5, &[5], &[]).unwrap();
    let cities = vec![CityName { id: 5, name: "Port Adren".into() }];
    let view = career_view(&career, &members(), &cities);
    assert_eq!(view.character_name, "Heir");
    assert_eq!(view.employer_city_name, "Port Adren");
    assert_eq!(view.job_title, "Analyst");
    assert_eq!(view.track, "Corporate");
    let orphan = career_view(&career, &[], &[]);
    assert_eq!(orphan.character_name, "Unknown");
    assert_eq!(orphan.employer_city_name, "Unknown city");
}

#[test]
fn pending_event_view_omits_a_stale_unknown_key_rather_than_panicking() {
    let pending = vec![
        PendingEvent { id: 1, key: "no_longer_exists".into(), character_id: 2, raised_year: 0 },
        PendingEvent { id: 2, key: "family_seed_money".into(), character_id: 2, raised_year: 3 },
    ];
    let views = pending_event_views(&pending, &members());
    assert_eq!(views.len(), 1);
    assert_eq!(views[0].id, 2);
    assert_eq!(views[0].title, "A relative offers seed money");
    assert_eq!(views[0].character_name, "Heir");
    let keys: Vec<&str> = views[0].choices.iter().map(|c| c.key.as_str()).collect();
    assert_eq!(keys, vec!["accept", "decline"]);
}
