//! Read-only, display-ready views for the UI: pending events with their
//! choices, and careers with resolved names. Ids that no longer resolve
//! are shown with a placeholder name rather than failing.

use vstd::prelude::*;
use crate::career::{Career, CareerTrack, ladder_title, top_level};
use crate::dynasty::MemberRecord;
use crate::events::{self, PendingEvent, CATALOG_LEN, catalog_key, catalog_title, catalog_choice_keys, catalog_choice_labels};
use crate::world::EntityId;

verus! {

#[derive(Debug, Clone, PartialEq)]
pub struct EventChoiceView {
    pub key: String,
    pub label: String,
}

#[derive(Debug, Clone, PartialEq)]
pub struct PendingEventView {
    pub id: EntityId,
    pub key: String,
    pub title: String,
    pub character_id: EntityId,
    pub character_name: String,
    pub raised_year: u64,
    pub choices: Vec<EventChoiceView>,
}

#[derive(Debug, Clone, PartialEq)]
pub struct CareerView {
    pub id: EntityId,
    pub character_id: EntityId,
    pub character_name: String,
    pub track: String,
    pub job_title: String,
    pub employer_city_id: EntityId,
    pub employer_city_name: String,
}

/// A city's display name, by id.
#[derive(Debug, Clone)]
pub struct CityName {
    pub id: EntityId,
    pub name: String,
}

/// The name of the first member with id `id`, or `"Unknown"`.
pub open spec fn member_name(members: Seq<MemberRecord>, id: EntityId) -> Seq<char> {
    if exists|i: int| 0 <= i < members.len() && members[i].id == id {
        members[choose|i: int| 0 <= i < members.len() && members[i].id == id
            && forall|j: int| 0 <= j < i ==> members[j].id != id].name@
    } else {
        "Unknown"@
    }
}

/// The name of the first city with id `id`, or `"Unknown city"`.
pub open spec fn city_name_of(cities: Seq<CityName>, id: EntityId) -> Seq<char> {
    if exists|i: int| 0 <= i < cities.len() && cities[i].id == id {
        cities[choose|i: int| 0 <= i < cities.len() && cities[i].id == id
            && forall|j: int| 0 <= j < i ==> cities[j].id != id].name@
    } else {
        "Unknown city"@
    }
}

pub fn character_name(members: &[MemberRecord], character_id: EntityId) -> (name: String)
    ensures
        name@ == member_name(members@, character_id),
{
    let mut i: usize = 0;
    while i < members.len()
        invariant
            i <= members@.len(),
            forall|j: int| 0 <= j < i ==> members@[j].id != character_id,
        decreases members@.len() - i,
    {
        if members[i].id == character_id {
            let ghost k = choose|k: int| 0 <= k < members@.len() && members@[k].id == character_id
                && forall|j: int| 0 <= j < k ==> members@[j].id != character_id;
            assert(k == i) by {
                if k < i {} else if k > i { assert(members@[i as int].id == character_id); }
            }
            return members[i].name.clone();
        }
        i += 1;
    }
    String::from_str("Unknown")
}

pub fn city_name(cities: &[CityName], city_id: EntityId) -> (name: String)
    ensures
        name@ == city_name_of(cities@, city_id),
{
    let mut i: usize = 0;
    while i < cities.len()
        invariant
            i <= cities@.len(),
            forall|j: int| 0 <= j < i ==> cities@[j].id != city_id,
        decreases cities@.len() - i,
    {
        if cities[i].id == city_id {
            let ghost k = choose|k: int| 0 <= k < cities@.len() && cities@[k].id == city_id
                && forall|j: int| 0 <= j < k ==> cities@[j].id != city_id;
            assert(k == i) by {
                if k < i {} else if k > i { assert(cities@[i as int].id == city_id); }
            }
            return cities[i].name.clone();
        }
        i += 1;
    }
    String::from_str("Unknown city")
}

/// `view` shows pending event `p` of catalog entry `d`.
pub open spec fn shows_pending(view: PendingEventView, p: PendingEvent, d: int, members: Seq<MemberRecord>) -> bool {
    &&& view.id == p.id
    &&& view.key@ == p.key@
    &&& view.title@ == catalog_title(d)
    &&& view.character_id == p.character_id
    &&& view.character_name@ == member_name(members, p.character_id)
    &&& view.raised_year == p.raised_year
    &&& view.choices@.len() == catalog_choice_keys(d).len()
    &&& forall|k: int| 0 <= k < view.choices@.len() ==> (#[trigger] view.choices@[k]).key@ == catalog_choice_keys(d)[k]
        && view.choices@[k].label@ == catalog_choice_labels(d)[k]
}

/// `view` shows pending event `p`, whose key is a catalog key.
pub open spec fn is_view_of(view: PendingEventView, p: PendingEvent, members: Seq<MemberRecord>) -> bool {
    exists|d: int| 0 <= d < CATALOG_LEN && catalog_key(d) == p.key@ && shows_pending(view, p, d, members)
}

/// The view of one pending event, or `None` when its key names no catalog
/// entry (a stale save), which is omitted rather than failing.
pub fn pending_event_view(pending: &PendingEvent, members: &[MemberRecord]) -> (view: Option<PendingEventView>)
    ensures
        match view {
            Some(v) => is_view_of(v, *pending, members@),
            None => forall|d: int| 0 <= d < CATALOG_LEN ==> catalog_key(d) != pending.key@,
        },
{
    let def = match events::definition(pending.key.as_str()) {
        Some(def) => def,
        None => {
            return None;
        },
    };
    let ghost d = choose|d: int| 0 <= d < CATALOG_LEN && catalog_key(d) == pending.key@
        && events::is_catalog_entry(def, d);
    let mut choices: Vec<EventChoiceView> = Vec::new();
    let mut k: usize = 0;
    while k < def.choices.len()
        invariant
            k <= def.choices@.len(),
            events::is_catalog_entry(def, d),
            choices@.len() == k,
            forall|j: int| 0 <= j < k ==> (#[trigger] choices@[j]).key@ == catalog_choice_keys(d)[j]
                && choices@[j].label@ == catalog_choice_labels(d)[j],
        decreases def.choices@.len() - k,
    {
        let choice = def.choices[k];
        choices.push(EventChoiceView { key: String::from_str(choice.key), label: String::from_str(choice.label) });
        k += 1;
    }
    Some(PendingEventView {
        id: pending.id,
        key: pending.key.clone(),
        title: String::from_str(def.title),
        character_id: pending.character_id,
        character_name: character_name(members, pending.character_id),
        raised_year: pending.raised_year,
        choices,
    })
}

/// Whether `key` names a catalog entry.
pub open spec fn known_event_key(key: Seq<char>) -> bool {
    exists|d: int| 0 <= d < CATALOG_LEN && catalog_key(d) == key
}

/// The pending events a view list shows: those whose key the catalog
/// knows, in pending order.
pub open spec fn shown_pending(pending: Seq<PendingEvent>) -> Seq<PendingEvent> {
    pending.filter(|p: PendingEvent| known_event_key(p.key@))
}

/// Views of every pending event whose key the catalog knows, in pending
/// order; stale keys are omitted.
pub fn pending_event_views(pending: &[PendingEvent], members: &[MemberRecord]) -> (views: Vec<PendingEventView>)
    ensures
        views@.len() == shown_pending(pending@).len(),
        forall|i: int| 0 <= i < views@.len() ==> is_view_of(#[trigger] views@[i], shown_pending(pending@)[i], members@),
{
    let mut views: Vec<PendingEventView> = Vec::new();
    let mut i: usize = 0;
    while i < pending.len()
        invariant
            i <= pending@.len(),
            views@.len() == shown_pending(pending@.take(i as int)).len(),
            forall|k: int| 0 <= k < views@.len() ==>
                is_view_of(#[trigger] views@[k], shown_pending(pending@.take(i as int))[k], members@),
        decreases pending@.len() - i,
    {
        let ghost before = shown_pending(pending@.take(i as int));
        let ghost old_views = views@;
        proof {
            assert(pending@.take(i + 1).drop_last() =~= pending@.take(i as int));
            reveal_with_fuel(Seq::filter, 1);
        }
        match pending_event_view(&pending[i], members) {
            Some(view) => {
                assert(shown_pending(pending@.take(i + 1)) == before.push(pending@[i as int]));
                views.push(view);
            },
            None => {
                assert(shown_pending(pending@.take(i + 1)) == before);
            },
        }
        let ghost after = shown_pending(pending@.take(i + 1));
        assert forall|k: int| 0 <= k < views@.len() implies is_view_of(#[trigger] views@[k], after[k], members@) by {
            if k < old_views.len() {
                assert(views@[k] == old_views[k]);
                assert(after[k] == before[k]);
            }
        }
        i += 1;
    }
    assert(pending@.take(pending@.len() as int) =~= pending@);
    views
}

pub open spec fn track_name(track: CareerTrack) -> Seq<char> {
    match track {
        CareerTrack::Corporate => "Corporate"@,
    }
}

/// The display view of a career, resolving the holder's and the employer
/// city's names.
pub fn career_view(career: &Career, members: &[MemberRecord], cities: &[CityName]) -> (view: CareerView)
    ensures
        view.id == career.id,
        view.character_id == career.character_id,
        view.character_name@ == member_name(members@, career.character_id),
        view.track@ == track_name(career.track),
        view.job_title@ == ladder_title(career.track,
            if career.level <= top_level(career.track) { career.level as int } else { top_level(career.track) as int }),
        view.employer_city_id == career.employer_city_id,
        view.employer_city_name@ == city_name_of(cities@, career.employer_city_id),
{
    let track = match career.track {
        CareerTrack::Corporate => String::from_str("Corporate"),
    };
    CareerView {
        id: career.id,
        character_id: career.character_id,
        character_name: character_name(members, career.character_id),
        track,
        job_title: String::from_str(career.job_title()),
        employer_city_id: career.employer_city_id,
        employer_city_name: city_name(cities, career.employer_city_id),
    }
}

} // verus!
