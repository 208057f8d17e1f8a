use sim_core::events::{scan_candidates, 
    all_events, definition, resolve_pending_event, scan_for_eligible_events, EventLog, PendingEvent,
    ResolveEventError, ResolvedEvent,
};

#[test]
fn every_event_key_is_unique() {
    let events = all_events();
    let mut keys: Vec<&str> = events.iter().map(|d| d.key).collect();
    let len_before_dedup = keys.len();
    keys.sort_unstable();
    keys.dedup();
    assert_eq!(
        keys.len(),
        len_before_dedup,
        "duplicate event key in ALL_EVENTS"
    );
}

#[test]
fn every_definition_has_at_least_one_choice_with_a_unique_key() {
    for def in all_events() {
        assert!(!def.choices.is_empty(), "event {} has no choices", def.key);
        let mut choice_keys: Vec<&str> = def.choices.iter().map(|c| c.key).collect();
        let len_before_dedup = choice_keys.len();
        choice_keys.sort_unstable();
        choice_keys.dedup();
        assert_eq!(
            choice_keys.len(),
            len_before_dedup,
            "event {} has duplicate choice keys",
            def.key
        );
    }
}

#[test]
fn definition_looks_up_known_and_unknown_keys() {
    assert!(definition("family_seed_money").is_some());
    assert!(definition("risky_investment_tip").is_some());
    assert!(definition("does_not_exist").is_none());
}

#[test]
fn event_log_reports_history_correctly() {
    let mut log = EventLog::default();
    assert!(!log.has_ever_resolved("family_seed_money", 1));
    assert_eq!(log.last_resolved_year("family_seed_money", 1), None);

    log.resolved.push(ResolvedEvent {
        key: "family_seed_money".to_string(),
        character_id: 1,
        choice_key: "accept".to_string(),
        year: 5,
    });
    assert!(log.has_ever_resolved("family_seed_money", 1));
    assert!(!log.has_ever_resolved("family_seed_money", 2));
    assert_eq!(log.last_resolved_year("family_seed_money", 1), Some(5));
}

#[test]
fn last_resolved_year_is_the_latest_not_the_last_logged() {
    let mut log = EventLog::default();
    for year in [4, 9, 6] {
        log.resolved.push(ResolvedEvent {
            key: "risky_investment_tip".to_string(),
            character_id: 3,
            choice_key: "decline".to_string(),
            year,
        });
    }
    assert_eq!(log.last_resolved_year("risky_investment_tip", 3), Some(9));
    assert_eq!(log.last_resolved_year("risky_investment_tip", 4), None);
}

/// Condition table where every event's condition holds for every candidate.
fn all_hold(candidates: usize) -> Vec<Vec<bool>> {
    vec![vec![true; candidates], vec![true; candidates]]
}

#[test]
fn scanning_raises_a_pending_event_when_the_condition_matches() {
    let mut pending = Vec::new();
    let log = EventLog::default();
    scan_for_eligible_events(&mut pending, &log, &[1], &[vec![true], vec![false]], 0);
    assert_eq!(
        pending,
        vec![PendingEvent {
            id: 1,
            key: "family_seed_money".to_string(),
            character_id: 1,
            raised_year: 0,
        }]
    );
}

#[test]
fn scanning_raises_in_catalog_then_candidate_order_with_consecutive_ids() {
    let mut pending = vec![PendingEvent {
        id: 10,
        key: "other".to_string(),
        character_id: 9,
        raised_year: 0,
    }];
    let log = EventLog::default();
    scan_for_eligible_events(&mut pending, &log, &[1, 2], &all_hold(2), 3);
    let raised: Vec<(u32, &str, u32)> = pending[1..]
        .iter()
        .map(|p| (p.id, p.key.as_str(), p.character_id))
        .collect();
    assert_eq!(
        raised,
        vec![
            (11, "family_seed_money", 1),
            (12, "family_seed_money", 2),
            (13, "risky_investment_tip", 1),
            (14, "risky_investment_tip", 2),
        ]
    );
}

#[test]
fn scanning_twice_does_not_duplicate_an_already_pending_event() {
    let mut pending = Vec::new();
    let log = EventLog::default();
    scan_for_eligible_events(&mut pending, &log, &[1, 2], &all_hold(2), 0);
    let count_after_first_scan = pending.len();
    scan_for_eligible_events(&mut pending, &log, &[1, 2], &all_hold(2), 0);
    assert_eq!(pending.len(), count_after_first_scan);
}

#[test]
fn a_non_repeatable_event_never_recurs_after_being_resolved() {
    let mut pending = Vec::new();
    let mut log = EventLog::default();
    scan_for_eligible_events(&mut pending, &log, &[1], &[vec![true], vec![false]], 0);
    let pending_id = pending[0].id;
    resolve_pending_event(&mut pending, &mut log, pending_id, "decline", 0).unwrap();

    for year in 0..50 {
        scan_for_eligible_events(&mut pending, &log, &[1], &[vec![true], vec![false]], year);
        assert!(pending.is_empty());
    }
}

#[test]
fn a_repeatable_event_respects_its_cooldown_then_recurs() {
    let mut pending = Vec::new();
    let mut log = EventLog::default();
    let conditions = vec![vec![false], vec![true]];
    scan_for_eligible_events(&mut pending, &log, &[1], &conditions, 2);
    let pending_id = pending[0].id;
    resolve_pending_event(&mut pending, &mut log, pending_id, "decline", 2).unwrap();

    for year in 2..5 {
        scan_for_eligible_events(&mut pending, &log, &[1], &conditions, year);
        assert!(pending.is_empty(), "raised within the cooldown in year {year}");
    }
    scan_for_eligible_events(&mut pending, &log, &[1], &conditions, 5);
    assert_eq!(pending.len(), 1);
    assert_eq!(pending[0].key, "risky_investment_tip");
}

#[test]
fn resolving_an_unknown_pending_id_is_refused_and_leaves_state_untouched() {
    let mut pending = Vec::new();
    let mut log = EventLog::default();
    scan_for_eligible_events(&mut pending, &log, &[1], &all_hold(1), 0);
    let (pending_before, log_before) = (pending.clone(), log.clone());
    let err = resolve_pending_event(&mut pending, &mut log, 999_999, "accept", 0).unwrap_err();
    assert_eq!(err, ResolveEventError::UnknownPendingEvent(999_999));
    assert_eq!((pending, log), (pending_before, log_before));
}

#[test]
fn resolving_an_unknown_choice_key_is_refused_and_leaves_state_untouched() {
    let mut pending = Vec::new();
    let mut log = EventLog::default();
    scan_for_eligible_events(&mut pending, &log, &[1], &all_hold(1), 0);
    let pending_id = pending[0].id;
    let (pending_before, log_before) = (pending.clone(), log.clone());

    let err = resolve_pending_event(&mut pending, &mut log, pending_id, "not_a_real_choice", 0).unwrap_err();

    assert_eq!(
        err,
        ResolveEventError::UnknownChoice("not_a_real_choice".to_string())
    );
    assert_eq!((pending, log), (pending_before, log_before));
}

#[test]
fn resolving_a_stale_key_is_refused_as_an_unknown_definition() {
    let mut pending = vec![PendingEvent {
        id: 4,
        key: "retired_event".to_string(),
        character_id: 1,
        raised_year: 0,
    }];
    let mut log = EventLog::default();
    assert_eq!(
        resolve_pending_event(&mut pending, &mut log, 4, "accept", 0),
        Err(ResolveEventError::UnknownEventDefinition("retired_event".to_string()))
    );
    assert_eq!(pending.len(), 1);
}

#[test]
fn resolving_removes_the_pending_event_and_appends_to_the_log() {
    let mut pending = Vec::new();
    let mut log = EventLog::default();
    scan_for_eligible_events(&mut pending, &log, &[1], &all_hold(1), 0);
    let pending_id = pending
        .iter()
        .find(|p| p.character_id == 1 && p.key == "family_seed_money")
        .unwrap()
        .id;

    let resolved = resolve_pending_event(&mut pending, &mut log, pending_id, "accept", 7).unwrap();

    assert_eq!(resolved.key, "family_seed_money");
    assert!(!pending.iter().any(|p| p.id == pending_id));
    assert!(log.has_ever_resolved("family_seed_money", 1));
    assert_eq!(
        log.resolved,
        vec![ResolvedEvent {
            key: "family_seed_money".to_string(),
            character_id: 1,
            choice_key: "accept".to_string(),
            year: 7,
        }]
    );
}

#[test]
fn a_second_scan_in_the_same_year_raises_nothing_more() {
    let mut pending = Vec::new();
    let log = EventLog::default();
    scan_for_eligible_events(&mut pending, &log, &[1, 2], &all_hold(2), 4);
    let after_first = pending.clone();
    assert_eq!(after_first.len(), 4);
    scan_for_eligible_events(&mut pending, &log, &[1, 2], &all_hold(2), 4);
    assert_eq!(pending, after_first);
}

#[test]
fn the_scan_considers_the_living_members_in_order() {
    let member = |id: u32, alive: bool| sim_core::dynasty::MemberRecord { id, name: String::new(), age_years: 30, alive };
    assert_eq!(scan_candidates(&[member(3, true), member(1, false), member(2, true)]), vec![3, 2]);
    assert!(scan_candidates(&[]).is_empty());
}
