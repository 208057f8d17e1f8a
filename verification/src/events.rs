//! The event framework's bookkeeping: the static catalog of events and
//! their choices, pending events raised for characters, the append-only
//! log of resolved events (which doubles as the "has this happened before"
//! flag store), the yearly scan that raises eligible events, and the
//! resolution of a pending event by the player's choice.
//!
//! Event conditions and choice effects read and change fractional world
//! state, so they are evaluated outside this crate: the scan takes each
//! condition's outcome as a plain table, and resolution hands back the
//! resolved event for its effect to be applied.

use vstd::prelude::*;
use crate::career::Career;
use crate::dynasty::MemberRecord;
use crate::rng::{SimRng, seeded_state, stream_value, threshold_for_chance, lemma_top_bits_below};
use crate::text::{decimal, decimal_string, str_eq, tagged};
use crate::world::EntityId;

verus! {

/// One option a player can pick when an event is presented.
#[derive(Debug, Clone, Copy, PartialEq, Eq)]
pub struct EventChoiceDefinition {
    /// Stable identifier of this choice within its event, e.g. `"accept"`.
    pub key: &'static str,
    /// Player-facing label.
    pub label: &'static str,
}

/// A catalog entry: an event's identity, choices, and repeat rule.
#[derive(Debug, Clone, PartialEq, Eq)]
pub struct EventDefinition {
    /// Stable identifier, unique across the catalog.
    pub key: &'static str,
    /// Player-facing title.
    pub title: &'static str,
    /// Never empty.
    pub choices: Vec<EventChoiceDefinition>,
    /// If `false`, once a character has resolved this event it never
    /// becomes eligible for them again.
    pub repeatable: bool,
    /// For a repeatable event: years after a character's latest resolution
    /// before it can be raised for them again.
    pub cooldown_years: u64,
}

pub const CATALOG_LEN: usize = 2;

pub open spec fn catalog_key(d: int) -> Seq<char> {
    if d == 0 { "family_seed_money"@ } else { "risky_investment_tip"@ }
}

pub open spec fn catalog_title(d: int) -> Seq<char> {
    if d == 0 { "A relative offers seed money"@ } else { "A colleague shares an investment tip"@ }
}

pub open spec fn catalog_repeatable(d: int) -> bool {
    d != 0
}

pub open spec fn catalog_cooldown(d: int) -> u64 {
    if d == 0 { 0 } else { 3 }
}

pub open spec fn catalog_choice_keys(d: int) -> Seq<Seq<char>> {
    if d == 0 { seq!["accept"@, "decline"@] } else { seq!["invest"@, "decline"@] }
}

pub open spec fn catalog_choice_labels(d: int) -> Seq<Seq<char>> {
    if d == 0 { seq!["Accept the money"@, "Politely decline"@] } else { seq!["Invest"@, "Decline"@] }
}

/// `def` is catalog entry `d`.
pub open spec fn is_catalog_entry(def: EventDefinition, d: int) -> bool {
    &&& def.key@ == catalog_key(d)
    &&& def.title@ == catalog_title(d)
    &&& def.repeatable == catalog_repeatable(d)
    &&& def.cooldown_years == catalog_cooldown(d)
    &&& def.choices@.len() == catalog_choice_keys(d).len()
    &&& forall|k: int| 0 <= k < def.choices@.len() ==> (#[trigger] def.choices@[k]).key@ == catalog_choice_keys(d)[k]
        && def.choices@[k].label@ == catalog_choice_labels(d)[k]
}

/// Catalog entry `d` (0: family seed money, 1: risky investment tip).
pub fn catalog_entry(d: usize) -> (def: EventDefinition)
    requires
        d < CATALOG_LEN,
    ensures
        is_catalog_entry(def, d as int),
{
    if d == 0 {
        let choices = vec![
            EventChoiceDefinition { key: "accept", label: "Accept the money" },
            EventChoiceDefinition { key: "decline", label: "Politely decline" },
        ];
        EventDefinition {
            key: "family_seed_money",
            title: "A relative offers seed money",
            choices,
            repeatable: false,
            cooldown_years: 0,
        }
    } else {
        let choices = vec![
            EventChoiceDefinition { key: "invest", label: "Invest" },
            EventChoiceDefinition { key: "decline", label: "Decline" },
        ];
        EventDefinition {
            key: "risky_investment_tip",
            title: "A colleague shares an investment tip",
            choices,
            repeatable: true,
            cooldown_years: 3,
        }
    }
}

/// Every event definition, in the fixed order that scanning follows.
pub fn all_events() -> (defs: Vec<EventDefinition>)
    ensures
        defs@.len() == CATALOG_LEN,
        forall|d: int| 0 <= d < CATALOG_LEN ==> is_catalog_entry(#[trigger] defs@[d], d),
{
    let mut defs: Vec<EventDefinition> = Vec::new();
    let mut d: usize = 0;
    while d < CATALOG_LEN
        invariant
            d <= CATALOG_LEN,
            defs@.len() == d,
            forall|e: int| 0 <= e < d ==> is_catalog_entry(#[trigger] defs@[e], e),
        decreases CATALOG_LEN - d,
    {
        defs.push(catalog_entry(d));
        d += 1;
    }
    defs
}

/// The catalog keys are distinct.
pub proof fn lemma_catalog_keys_are_unique()
    ensures
        catalog_key(0) != catalog_key(1),
{
    reveal_strlit("family_seed_money");
    reveal_strlit("risky_investment_tip");
    assert(catalog_key(0)[0] != catalog_key(1)[0]);
}

/// Whether `text` follows the player-facing copy rule: no em dash and no
/// semicolon.
pub open spec fn follows_copy_rule(text: Seq<char>) -> bool {
    forall|k: int| 0 <= k < text.len() ==> #[trigger] text[k] != '\u{2014}' && text[k] != ';'
}

/// Every event title and choice label follows the player-facing copy rule.
pub proof fn lemma_catalog_copy_follows_the_rule(d: int)
    requires
        0 <= d < CATALOG_LEN,
    ensures
        follows_copy_rule(catalog_title(d)),
        forall|k: int| 0 <= k < catalog_choice_labels(d).len() ==> follows_copy_rule(#[trigger] catalog_choice_labels(d)[k]),
{
    reveal_strlit("A relative offers seed money");
    reveal_strlit("A colleague shares an investment tip");
    reveal_strlit("Accept the money");
    reveal_strlit("Politely decline");
    reveal_strlit("Invest");
    reveal_strlit("Decline");
}

/// Look up a catalog entry by key: the entry with that key, or `None` for a
/// key the catalog doesn't hold.
pub fn definition(key: &str) -> (found: Option<EventDefinition>)
    ensures
        match found {
            Some(def) => exists|d: int| 0 <= d < CATALOG_LEN && catalog_key(d) == key@ && is_catalog_entry(def, d),
            None => forall|d: int| 0 <= d < CATALOG_LEN ==> catalog_key(d) != key@,
        },
{
    let mut d: usize = 0;
    while d < CATALOG_LEN
        invariant
            d <= CATALOG_LEN,
            forall|e: int| 0 <= e < d ==> catalog_key(e) != key@,
        decreases CATALOG_LEN - d,
    {
        let def = catalog_entry(d);
        if str_eq(def.key, key) {
            return Some(def);
        }
        d += 1;
    }
    None
}

/// An event raised for a character but not yet resolved.
#[derive(Debug, Clone, PartialEq, Eq)]
pub struct PendingEvent {
    /// Unique among pending events; newly raised events get ids above every
    /// id already pending.
    pub id: EntityId,
    /// A catalog key.
    pub key: String,
    pub character_id: EntityId,
    /// In-world year the event became eligible.
    pub raised_year: u64,
}

/// One resolved event: who, which event, which choice, and when.
#[derive(Debug, Clone, PartialEq, Eq)]
pub struct ResolvedEvent {
    pub key: String,
    pub character_id: EntityId,
    pub choice_key: String,
    pub year: u64,
}

/// A pending event as plain values.
pub struct PendingView {
    pub id: EntityId,
    pub key: Seq<char>,
    pub character_id: EntityId,
    pub raised_year: u64,
}

/// A resolved event as plain values.
pub struct ResolvedView {
    pub key: Seq<char>,
    pub character_id: EntityId,
    pub choice_key: Seq<char>,
    pub year: u64,
}

impl View for PendingEvent {
    type V = PendingView;

    open spec fn view(&self) -> PendingView {
        PendingView { id: self.id, key: self.key@, character_id: self.character_id, raised_year: self.raised_year }
    }
}

impl View for ResolvedEvent {
    type V = ResolvedView;

    open spec fn view(&self) -> ResolvedView {
        ResolvedView { key: self.key@, character_id: self.character_id, choice_key: self.choice_key@, year: self.year }
    }
}

/// Every event ever resolved, append-only.
#[derive(Debug, Clone, PartialEq, Eq)]
pub struct EventLog {
    pub resolved: Vec<ResolvedEvent>,
}

pub open spec fn log_view(log: Seq<ResolvedEvent>) -> Seq<ResolvedView> {
    log.map_values(|e: ResolvedEvent| e@)
}

/// Whether `log` records `character_id` resolving the event `key`.
pub open spec fn ever_resolved(log: Seq<ResolvedView>, key: Seq<char>, character_id: EntityId) -> bool {
    exists|i: int| 0 <= i < log.len() && log[i].key == key && log[i].character_id == character_id
}

/// The latest year in the first `n` entries of `log` in which
/// `character_id` resolved `key`.
pub open spec fn latest_resolution(log: Seq<ResolvedView>, key: Seq<char>, character_id: EntityId, n: int) -> Option<u64>
    decreases n,
{
    if n <= 0 {
        None
    } else {
        let earlier = latest_resolution(log, key, character_id, n - 1);
        let e = log[n - 1];
        if e.key == key && e.character_id == character_id {
            match earlier {
                Some(y) => if y >= e.year { Some(y) } else { Some(e.year) },
                None => Some(e.year),
            }
        } else {
            earlier
        }
    }
}

impl Default for EventLog {
    fn default() -> (log: Self)
        ensures
            log.resolved@.len() == 0,
    {
        EventLog { resolved: Vec::new() }
    }
}

impl EventLog {
    pub open spec fn entries(&self) -> Seq<ResolvedView> {
        log_view(self.resolved@)
    }

    /// Whether `character_id` has ever resolved the event named `key`.
    pub fn has_ever_resolved(&self, key: &str, character_id: EntityId) -> (b: bool)
        ensures
            b == ever_resolved(self.entries(), key@, character_id),
    {
        let mut i: usize = 0;
        while i < self.resolved.len()
            invariant
                i <= self.resolved@.len(),
                forall|j: int| 0 <= j < i ==> !(self.entries()[j].key == key@
                    && self.entries()[j].character_id == character_id),
            decreases self.resolved@.len() - i,
        {
            let entry = &self.resolved[i];
            if str_eq(entry.key.as_str(), key) && entry.character_id == character_id {
                assert(self.entries()[i as int] == entry@);
                return true;
            }
            i += 1;
        }
        false
    }

    /// The most recent year `character_id` resolved the event named `key`,
    /// if ever.
    pub fn last_resolved_year(&self, key: &str, character_id: EntityId) -> (y: Option<u64>)
        ensures
            y == latest_resolution(self.entries(), key@, character_id, self.entries().len() as int),
    {
        let mut latest: Option<u64> = None;
        let mut i: usize = 0;
        while i < self.resolved.len()
            invariant
                i <= self.resolved@.len(),
                latest == latest_resolution(self.entries(), key@, character_id, i as int),
            decreases self.resolved@.len() - i,
        {
            let entry = &self.resolved[i];
            assert(self.entries()[i as int] == entry@);
            if str_eq(entry.key.as_str(), key) && entry.character_id == character_id {
                latest = match latest {
                    Some(y) => if y >= entry.year { Some(y) } else { Some(entry.year) },
                    None => Some(entry.year),
                };
            }
            i += 1;
        }
        latest
    }
}

/// Whether the event `key` (with the given repeat rule) is skipped for
/// `character_id` at `year` because of its own history: a non-repeatable
/// event once ever resolved; a repeatable one until `cooldown` years have
/// passed since its latest resolution.
pub open spec fn history_blocks(log: Seq<ResolvedView>, key: Seq<char>, repeatable: bool, cooldown: u64, character_id: EntityId, year: u64) -> bool {
    if !repeatable {
        ever_resolved(log, key, character_id)
    } else {
        match latest_resolution(log, key, character_id, log.len() as int) {
            Some(last) => (if year >= last { year - last } else { 0 }) < cooldown,
            None => false,
        }
    }
}

/// Whether `definition` is skipped for `character_id` at `year` purely
/// because of its own history, independent of its condition.
pub fn blocked_by_history(log: &EventLog, definition: &EventDefinition, character_id: EntityId, year: u64) -> (b: bool)
    ensures
        b == history_blocks(log.entries(), definition.key@, definition.repeatable, definition.cooldown_years, character_id, year),
{
    if !definition.repeatable {
        return log.has_ever_resolved(definition.key, character_id);
    }
    match log.last_resolved_year(definition.key, character_id) {
        Some(last_year) => year.saturating_sub(last_year) < definition.cooldown_years,
        None => false,
    }
}

pub open spec fn pending_view(p: Seq<PendingEvent>) -> Seq<PendingView> {
    p.map_values(|e: PendingEvent| e@)
}

/// Whether `p` holds a pending `key` event for `character_id`.
pub open spec fn is_pending(p: Seq<PendingView>, key: Seq<char>, character_id: EntityId) -> bool {
    exists|i: int| 0 <= i < p.len() && p[i].key == key && p[i].character_id == character_id
}

/// The largest id among the first `n` entries of `p` (0 when none).
pub open spec fn max_pending_id(p: Seq<PendingView>, n: int) -> int
    decreases n,
{
    if n <= 0 {
        0
    } else {
        let m = max_pending_id(p, n - 1);
        if p[n - 1].id as int > m { p[n - 1].id as int } else { m }
    }
}

/// The id the next raised event gets: one past the largest pending id.
pub open spec fn next_pending_id(p: Seq<PendingView>) -> int {
    max_pending_id(p, p.len() as int) + 1
}

/// One scan decision: raise catalog event `d` for `character_id` unless it
/// is already pending for them, blocked by its history, or its condition
/// (`condition_holds`) fails. A raised event's id continues the run that
/// started at `base` when the scan began with `start_len` entries.
pub open spec fn scan_step(
    p: Seq<PendingView>, log: Seq<ResolvedView>, d: int, character_id: EntityId, condition_holds: bool,
    year: u64, base: int, start_len: int,
) -> Seq<PendingView> {
    if !is_pending(p, catalog_key(d), character_id)
        && !history_blocks(log, catalog_key(d), catalog_repeatable(d), catalog_cooldown(d), character_id, year)
        && condition_holds
    {
        p.push(PendingView {
            id: (base + p.len() - start_len) as u32,
            key: catalog_key(d),
            character_id,
            raised_year: year,
        })
    } else {
        p
    }
}

/// Scan the first `c` candidates for catalog event `d`, in candidate order.
pub open spec fn scan_row(
    p: Seq<PendingView>, log: Seq<ResolvedView>, candidates: Seq<EntityId>, row: Seq<bool>, d: int,
    year: u64, base: int, start_len: int, c: int,
) -> Seq<PendingView>
    decreases c,
{
    if c <= 0 {
        p
    } else {
        scan_step(
            scan_row(p, log, candidates, row, d, year, base, start_len, c - 1),
            log, d, candidates[c - 1], row[c - 1], year, base, start_len,
        )
    }
}

/// Scan the first `d` catalog events, in catalog order, each over every
/// candidate.
pub open spec fn scan_catalog(
    p: Seq<PendingView>, log: Seq<ResolvedView>, candidates: Seq<EntityId>, conditions: Seq<Seq<bool>>,
    year: u64, base: int, start_len: int, d: int,
) -> Seq<PendingView>
    decreases d,
{
    if d <= 0 {
        p
    } else {
        scan_row(
            scan_catalog(p, log, candidates, conditions, year, base, start_len, d - 1),
            log, candidates, conditions[d - 1], d - 1, year, base, start_len, candidates.len() as int,
        )
    }
}

/// The pending list after a yearly scan starting from `p`.
pub open spec fn scanned(
    p: Seq<PendingView>, log: Seq<ResolvedView>, candidates: Seq<EntityId>, conditions: Seq<Seq<bool>>, year: u64,
) -> Seq<PendingView> {
    scan_catalog(p, log, candidates, conditions, year, next_pending_id(p), p.len() as int, CATALOG_LEN as int)
}

pub open spec fn conditions_view(conditions: Seq<Vec<bool>>) -> Seq<Seq<bool>> {
    conditions.map_values(|row: Vec<bool>| row@)
}

fn is_pending_for(pending: &Vec<PendingEvent>, key: &str, character_id: EntityId) -> (b: bool)
    ensures
        b == is_pending(pending_view(pending@), key@, character_id),
{
    let mut i: usize = 0;
    while i < pending.len()
        invariant
            i <= pending@.len(),
            forall|j: int| 0 <= j < i ==> !(pending_view(pending@)[j].key == key@
                && pending_view(pending@)[j].character_id == character_id),
        decreases pending@.len() - i,
    {
        assert(pending_view(pending@)[i as int] == pending@[i as int]@);
        if str_eq(pending[i].key.as_str(), key) && pending[i].character_id == character_id {
            return true;
        }
        i += 1;
    }
    false
}

/// The ids of the living members, in member order.
pub open spec fn living_ids(members: Seq<MemberRecord>) -> Seq<EntityId>
    decreases members.len(),
{
    if members.len() == 0 {
        Seq::empty()
    } else {
        let rest = living_ids(members.drop_last());
        if members.last().alive { rest.push(members.last().id) } else { rest }
    }
}

/// The characters the yearly scan considers: every living member, in
/// member order.
pub fn scan_candidates(members: &[MemberRecord]) -> (ids: Vec<EntityId>)
    ensures
        ids@ == living_ids(members@),
{
    let mut ids: Vec<EntityId> = Vec::new();
    let mut i: usize = 0;
    while i < members.len()
        invariant
            i <= members@.len(),
            ids@ == living_ids(members@.take(i as int)),
        decreases members@.len() - i,
    {
        assert(members@.take(i as int + 1).drop_last() =~= members@.take(i as int));
        if members[i].alive {
            ids.push(members[i].id);
        }
        i += 1;
    }
    assert(members@.take(members@.len() as int) =~= members@);
    ids
}

/// The yearly scan: for every catalog event (in catalog order) and every
/// living candidate (in the given order), raise a pending event when it is
/// not already pending for that character, not blocked by its history, and
/// its condition holds (`conditions[d][c]` for event `d`, candidate `c`).
/// Raised events get consecutive ids starting one past the largest pending
/// id, and `year` as their raised year. Applies no effects.
pub fn scan_for_eligible_events(
    pending: &mut Vec<PendingEvent>,
    log: &EventLog,
    candidates: &[EntityId],
    conditions: &[Vec<bool>],
    year: u64,
)
    requires
        conditions@.len() == CATALOG_LEN,
        forall|d: int| 0 <= d < CATALOG_LEN ==> (#[trigger] conditions@[d])@.len() == candidates@.len(),
        next_pending_id(pending_view(old(pending)@)) + CATALOG_LEN * candidates@.len() <= u32::MAX,
    ensures
        pending_view(final(pending)@) == scanned(
            pending_view(old(pending)@), log.entries(), candidates@, conditions_view(conditions@), year),
{
    let ghost p0 = pending_view(pending@);
    let ghost start_len = pending@.len() as int;
    let ghost conds = conditions_view(conditions@);
    let mut max_id: u32 = 0;
    let mut i: usize = 0;
    while i < pending.len()
        invariant
            i <= pending@.len(),
            p0 == pending_view(pending@),
            max_id == max_pending_id(p0, i as int),
        decreases pending@.len() - i,
    {
        if pending[i].id > max_id {
            max_id = pending[i].id;
        }
        i += 1;
    }
    let ghost base = next_pending_id(p0);
    let mut next_id: u32 = max_id + 1;
    let defs = all_events();
    let mut d: usize = 0;
    while d < CATALOG_LEN
        invariant
            d <= CATALOG_LEN,
            defs@.len() == CATALOG_LEN,
            forall|e: int| 0 <= e < CATALOG_LEN ==> is_catalog_entry(#[trigger] defs@[e], e),
            conditions@.len() == CATALOG_LEN,
            forall|e: int| 0 <= e < CATALOG_LEN ==> (#[trigger] conditions@[e])@.len() == candidates@.len(),
            conds == conditions_view(conditions@),
            base == next_pending_id(p0),
            base + CATALOG_LEN * candidates@.len() <= u32::MAX,
            start_len <= pending@.len() <= start_len + d * candidates@.len(),
            next_id as int == base + pending@.len() - start_len,
            pending_view(pending@) == scan_catalog(p0, log.entries(), candidates@, conds, year, base, start_len, d as int),
        decreases CATALOG_LEN - d,
    {
        let def = &defs[d];
        let row = &conditions[d];
        let ghost before_row = pending_view(pending@);
        let mut c: usize = 0;
        while c < candidates.len()
            invariant
                d < CATALOG_LEN,
                c <= candidates@.len(),
                is_catalog_entry(*def, d as int),
                row@.len() == candidates@.len(),
                conds[d as int] == row@,
                base + CATALOG_LEN * candidates@.len() <= u32::MAX,
                start_len <= pending@.len() <= start_len + d * candidates@.len() + c,
                next_id as int == base + pending@.len() - start_len,
                pending_view(pending@) == scan_row(before_row, log.entries(), candidates@, row@, d as int, year, base, start_len, c as int),
            decreases candidates@.len() - c,
        {
            let character_id = candidates[c];
            let ghost cur = pending_view(pending@);
            proof {
                assert(d * candidates@.len() + c < CATALOG_LEN * candidates@.len()) by (nonlinear_arith)
                    requires d < CATALOG_LEN, c < candidates@.len();
            }
            if !is_pending_for(pending, def.key, character_id)
                && !blocked_by_history(log, def, character_id, year)
                && row[c]
            {
                let key = String::from_str(def.key);
                let raised = PendingEvent { id: next_id, key, character_id, raised_year: year };
                pending.push(raised);
                assert(pending_view(pending@) =~= cur.push(raised@));
                next_id = next_id + 1;
            }
            c += 1;
        }
        proof {
            assert(start_len + d * candidates@.len() + candidates@.len() == start_len + (d + 1) * candidates@.len()) by (nonlinear_arith);
        }
        d += 1;
    }
}

/// No two entries of `p` are the same event for the same character.
pub open spec fn pairs_unique(p: Seq<PendingView>) -> bool {
    forall|i: int, j: int| 0 <= i < j < p.len() ==> !(p[i].key == p[j].key && p[i].character_id == p[j].character_id)
}

/// No two entries of `p` share an id.
pub open spec fn ids_unique(p: Seq<PendingView>) -> bool {
    forall|i: int, j: int| 0 <= i < j < p.len() ==> p[i].id != p[j].id
}

/// Entry `i` of a scan result is a newly raised catalog event: it is event
/// `d` for some `d < bound`, unblocked by history, raised in `year`, with
/// the id its position gives it.
pub open spec fn raised_entry(
    r: Seq<PendingView>, i: int, log: Seq<ResolvedView>, year: u64, base: int, start_len: int, bound: int,
) -> bool {
    &&& r[i].raised_year == year
    &&& r[i].id == base + i - start_len
    &&& exists|d: int| 0 <= d < bound && r[i].key == catalog_key(d)
        && !history_blocks(log, catalog_key(d), catalog_repeatable(d), catalog_cooldown(d), r[i].character_id, year)
}

proof fn lemma_scan_row_shape(
    p: Seq<PendingView>, log: Seq<ResolvedView>, candidates: Seq<EntityId>, row: Seq<bool>, d: int,
    year: u64, base: int, start_len: int, c: int,
)
    requires
        0 <= d < CATALOG_LEN,
        0 <= start_len <= p.len(),
        0 <= c <= candidates.len(),
        c <= row.len(),
        base + p.len() - start_len + c <= u32::MAX,
        base >= 0,
    ensures
        ({
            let r = scan_row(p, log, candidates, row, d, year, base, start_len, c);
            &&& p.len() <= r.len() <= p.len() + c
            &&& r.subrange(0, p.len() as int) == p
            &&& forall|i: int| p.len() <= i < r.len() ==> #[trigger] raised_entry(r, i, log, year, base, start_len, d + 1)
            &&& pairs_unique(p) ==> pairs_unique(r)
        }),
    decreases c,
{
    if c > 0 {
        lemma_scan_row_shape(p, log, candidates, row, d, year, base, start_len, c - 1);
        let q = scan_row(p, log, candidates, row, d, year, base, start_len, c - 1);
        let r = scan_row(p, log, candidates, row, d, year, base, start_len, c);
        assert(q.subrange(0, p.len() as int) == p);
        if r != q {
            let ch = candidates[c - 1];
            assert(r == q.push(r[q.len() as int]));
            assert(r.subrange(0, p.len() as int) =~= q.subrange(0, p.len() as int));
            assert forall|i: int| p.len() <= i < r.len() implies #[trigger] raised_entry(r, i, log, year, base, start_len, d + 1) by {
                if i < q.len() {
                    assert(raised_entry(q, i, log, year, base, start_len, d + 1));
                    assert(r[i] == q[i]);
                } else {
                    assert(r[i].key == catalog_key(d));
                }
            }
            if pairs_unique(p) {
                assert(pairs_unique(q));
                assert forall|i: int, j: int| 0 <= i < j < r.len() implies
                    !(r[i].key == r[j].key && r[i].character_id == r[j].character_id) by {
                    if j == q.len() {
                        assert(r[i] == q[i]);
                        if r[i].key == r[j].key && r[i].character_id == r[j].character_id {
                            assert(is_pending(q, catalog_key(d), ch));
                        }
                    } else {
                        assert(r[i] == q[i] && r[j] == q[j]);
                    }
                }
            }
        }
    }
}

proof fn lemma_scan_catalog_shape(
    p: Seq<PendingView>, log: Seq<ResolvedView>, candidates: Seq<EntityId>, conditions: Seq<Seq<bool>>,
    year: u64, base: int, d: int,
)
    requires
        0 <= d <= CATALOG_LEN,
        conditions.len() == CATALOG_LEN,
        forall|e: int| 0 <= e < CATALOG_LEN ==> (#[trigger] conditions[e]).len() == candidates.len(),
        base >= 0,
        base + CATALOG_LEN * candidates.len() <= u32::MAX,
    ensures
        ({
            let r = scan_catalog(p, log, candidates, conditions, year, base, p.len() as int, d);
            &&& p.len() <= r.len() <= p.len() + d * candidates.len()
            &&& r.subrange(0, p.len() as int) == p
            &&& forall|i: int| p.len() <= i < r.len() ==> #[trigger] raised_entry(r, i, log, year, base, p.len() as int, d)
            &&& pairs_unique(p) ==> pairs_unique(r)
        }),
    decreases d,
{
    if d > 0 {
        lemma_scan_catalog_shape(p, log, candidates, conditions, year, base, d - 1);
        let q = scan_catalog(p, log, candidates, conditions, year, base, p.len() as int, d - 1);
        assert((d - 1) * candidates.len() + candidates.len() == d * candidates.len()) by (nonlinear_arith);
        assert(d * candidates.len() <= CATALOG_LEN * candidates.len()) by (nonlinear_arith)
            requires d <= CATALOG_LEN;
        lemma_scan_row_shape(q, log, candidates, conditions[d - 1], d - 1, year, base, p.len() as int, candidates.len() as int);
        let r = scan_catalog(p, log, candidates, conditions, year, base, p.len() as int, d);
        assert(r.subrange(0, q.len() as int) == q);
        assert(r.subrange(0, p.len() as int) =~= q.subrange(0, p.len() as int));
        assert forall|i: int| p.len() <= i < r.len() implies #[trigger] raised_entry(r, i, log, year, base, p.len() as int, d) by {
            if i < q.len() {
                assert(raised_entry(q, i, log, year, base, p.len() as int, d - 1));
                assert(r[i] == q[i]);
            } else {
                assert(raised_entry(r, i, log, year, base, p.len() as int, (d - 1) + 1));
            }
        }
    }
}

/// A scan keeps every pending entry already there, and every entry it adds
/// is a catalog event not blocked by its history for that character,
/// raised in `year`, numbered consecutively from one past the largest
/// pending id.
pub proof fn lemma_scan_only_appends_unblocked_events(
    p: Seq<PendingView>, log: Seq<ResolvedView>, candidates: Seq<EntityId>, conditions: Seq<Seq<bool>>, year: u64,
)
    requires
        conditions.len() == CATALOG_LEN,
        forall|d: int| 0 <= d < CATALOG_LEN ==> (#[trigger] conditions[d]).len() == candidates.len(),
        next_pending_id(p) + CATALOG_LEN * candidates.len() <= u32::MAX,
    ensures
        ({
            let r = scanned(p, log, candidates, conditions, year);
            &&& p.len() <= r.len()
            &&& r.subrange(0, p.len() as int) == p
            &&& forall|i: int| p.len() <= i < r.len() ==>
                #[trigger] raised_entry(r, i, log, year, next_pending_id(p), p.len() as int, CATALOG_LEN as int)
        }),
{
    lemma_max_pending_id_nonneg(p, p.len() as int);
    lemma_scan_catalog_shape(p, log, candidates, conditions, year, next_pending_id(p), CATALOG_LEN as int);
}

proof fn lemma_max_pending_id_nonneg(p: Seq<PendingView>, n: int)
    ensures
        max_pending_id(p, n) >= 0,
        forall|i: int| 0 <= i < n && i < p.len() ==> p[i].id <= max_pending_id(p, n),
    decreases n,
{
    if n > 0 {
        lemma_max_pending_id_nonneg(p, n - 1);
    }
}

/// A scan never raises the same event twice for the same character: if no
/// pending event was duplicated before, none is after.
pub proof fn lemma_scan_keeps_pending_pairs_unique(
    p: Seq<PendingView>, log: Seq<ResolvedView>, candidates: Seq<EntityId>, conditions: Seq<Seq<bool>>, year: u64,
)
    requires
        conditions.len() == CATALOG_LEN,
        forall|d: int| 0 <= d < CATALOG_LEN ==> (#[trigger] conditions[d]).len() == candidates.len(),
        next_pending_id(p) + CATALOG_LEN * candidates.len() <= u32::MAX,
        pairs_unique(p),
    ensures
        pairs_unique(scanned(p, log, candidates, conditions, year)),
{
    lemma_max_pending_id_nonneg(p, p.len() as int);
    lemma_scan_catalog_shape(p, log, candidates, conditions, year, next_pending_id(p), CATALOG_LEN as int);
}

/// Whether catalog event `e` is due for candidate `k`: its condition holds
/// and its history does not block it.
pub open spec fn due_for(
    log: Seq<ResolvedView>, candidates: Seq<EntityId>, conditions: Seq<Seq<bool>>, year: u64, e: int, k: int,
) -> bool {
    conditions[e][k] && !history_blocks(log, catalog_key(e), catalog_repeatable(e), catalog_cooldown(e), candidates[k], year)
}

/// Whether `p` already holds, as pending, every event of the first `d`
/// catalog entries that is due for a candidate.
pub open spec fn covers(
    p: Seq<PendingView>, log: Seq<ResolvedView>, candidates: Seq<EntityId>, conditions: Seq<Seq<bool>>, year: u64, d: int,
) -> bool {
    forall|e: int, k: int| 0 <= e < d && 0 <= k < candidates.len() && #[trigger] due_for(log, candidates, conditions, year, e, k)
        ==> is_pending(p, catalog_key(e), candidates[k])
}

proof fn lemma_pending_survives_step(
    p: Seq<PendingView>, log: Seq<ResolvedView>, d: int, character_id: EntityId, condition_holds: bool,
    year: u64, base: int, start_len: int, key: Seq<char>, id: EntityId,
)
    requires
        is_pending(p, key, id),
    ensures
        is_pending(scan_step(p, log, d, character_id, condition_holds, year, base, start_len), key, id),
{
    let r = scan_step(p, log, d, character_id, condition_holds, year, base, start_len);
    let i = choose|i: int| 0 <= i < p.len() && p[i].key == key && p[i].character_id == id;
    assert(r[i] == p[i]);
}

proof fn lemma_pending_survives_row(
    p: Seq<PendingView>, log: Seq<ResolvedView>, candidates: Seq<EntityId>, row: Seq<bool>, d: int,
    year: u64, base: int, start_len: int, c: int, key: Seq<char>, id: EntityId,
)
    requires
        is_pending(p, key, id),
    ensures
        is_pending(scan_row(p, log, candidates, row, d, year, base, start_len, c), key, id),
    decreases c,
{
    if c > 0 {
        lemma_pending_survives_row(p, log, candidates, row, d, year, base, start_len, c - 1, key, id);
        lemma_pending_survives_step(
            scan_row(p, log, candidates, row, d, year, base, start_len, c - 1),
            log, d, candidates[c - 1], row[c - 1], year, base, start_len, key, id,
        );
    }
}

proof fn lemma_pending_survives_catalog(
    p: Seq<PendingView>, log: Seq<ResolvedView>, candidates: Seq<EntityId>, conditions: Seq<Seq<bool>>,
    year: u64, base: int, start_len: int, d: int, key: Seq<char>, id: EntityId,
)
    requires
        is_pending(p, key, id),
    ensures
        is_pending(scan_catalog(p, log, candidates, conditions, year, base, start_len, d), key, id),
    decreases d,
{
    if d > 0 {
        lemma_pending_survives_catalog(p, log, candidates, conditions, year, base, start_len, d - 1, key, id);
        lemma_pending_survives_row(
            scan_catalog(p, log, candidates, conditions, year, base, start_len, d - 1),
            log, candidates, conditions[d - 1], d - 1, year, base, start_len, candidates.len() as int, key, id,
        );
    }
}

proof fn lemma_row_raises_what_is_due(
    p: Seq<PendingView>, log: Seq<ResolvedView>, candidates: Seq<EntityId>, conditions: Seq<Seq<bool>>, d: int,
    year: u64, base: int, start_len: int, c: int, k: int,
)
    requires
        0 <= k < c <= candidates.len(),
        0 <= d < conditions.len(),
        due_for(log, candidates, conditions, year, d, k),
    ensures
        is_pending(scan_row(p, log, candidates, conditions[d], d, year, base, start_len, c), catalog_key(d), candidates[k]),
    decreases c,
{
    let q = scan_row(p, log, candidates, conditions[d], d, year, base, start_len, c - 1);
    if k < c - 1 {
        lemma_row_raises_what_is_due(p, log, candidates, conditions, d, year, base, start_len, c - 1, k);
        lemma_pending_survives_step(q, log, d, candidates[c - 1], conditions[d][c - 1], year, base, start_len, catalog_key(d), candidates[k]);
    } else {
        let r = scan_step(q, log, d, candidates[k], conditions[d][k], year, base, start_len);
        if !is_pending(q, catalog_key(d), candidates[k]) {
            assert(r[q.len() as int].key == catalog_key(d) && r[q.len() as int].character_id == candidates[k]);
        } else {
            lemma_pending_survives_step(q, log, d, candidates[k], conditions[d][k], year, base, start_len, catalog_key(d), candidates[k]);
        }
    }
}

proof fn lemma_catalog_covers(
    p: Seq<PendingView>, log: Seq<ResolvedView>, candidates: Seq<EntityId>, conditions: Seq<Seq<bool>>,
    year: u64, base: int, start_len: int, d: int,
)
    requires
        0 <= d <= conditions.len(),
        forall|e: int| 0 <= e < conditions.len() ==> (#[trigger] conditions[e]).len() == candidates.len(),
    ensures
        covers(scan_catalog(p, log, candidates, conditions, year, base, start_len, d), log, candidates, conditions, year, d),
    decreases d,
{
    if d > 0 {
        lemma_catalog_covers(p, log, candidates, conditions, year, base, start_len, d - 1);
        let q = scan_catalog(p, log, candidates, conditions, year, base, start_len, d - 1);
        let n = candidates.len() as int;
        let r = scan_catalog(p, log, candidates, conditions, year, base, start_len, d);
        assert forall|e: int, k: int| 0 <= e < d && 0 <= k < candidates.len() && #[trigger] due_for(log, candidates, conditions, year, e, k)
            implies is_pending(r, catalog_key(e), candidates[k]) by {
            if e < d - 1 {
                assert(is_pending(q, catalog_key(e), candidates[k]));
                lemma_pending_survives_row(q, log, candidates, conditions[d - 1], d - 1, year, base, start_len, n, catalog_key(e), candidates[k]);
            } else {
                lemma_row_raises_what_is_due(q, log, candidates, conditions, d - 1, year, base, start_len, n, k);
            }
        }
    }
}

proof fn lemma_covered_row_is_unchanged(
    p: Seq<PendingView>, log: Seq<ResolvedView>, candidates: Seq<EntityId>, conditions: Seq<Seq<bool>>, d: int,
    year: u64, base: int, start_len: int, c: int,
)
    requires
        0 <= d < conditions.len(),
        0 <= c <= candidates.len(),
        conditions[d].len() == candidates.len(),
        covers(p, log, candidates, conditions, year, d + 1),
    ensures
        scan_row(p, log, candidates, conditions[d], d, year, base, start_len, c) == p,
    decreases c,
{
    if c > 0 {
        lemma_covered_row_is_unchanged(p, log, candidates, conditions, d, year, base, start_len, c - 1);
        if due_for(log, candidates, conditions, year, d, c - 1) {
            assert(is_pending(p, catalog_key(d), candidates[c - 1]));
        }
    }
}

proof fn lemma_covered_catalog_is_unchanged(
    p: Seq<PendingView>, log: Seq<ResolvedView>, candidates: Seq<EntityId>, conditions: Seq<Seq<bool>>,
    year: u64, base: int, start_len: int, d: int,
)
    requires
        0 <= d <= conditions.len(),
        forall|e: int| 0 <= e < conditions.len() ==> (#[trigger] conditions[e]).len() == candidates.len(),
        covers(p, log, candidates, conditions, year, conditions.len() as int),
    ensures
        scan_catalog(p, log, candidates, conditions, year, base, start_len, d) == p,
    decreases d,
{
    if d > 0 {
        lemma_covered_catalog_is_unchanged(p, log, candidates, conditions, year, base, start_len, d - 1);
        assert(covers(p, log, candidates, conditions, year, d));
        lemma_covered_row_is_unchanged(p, log, candidates, conditions, d - 1, year, base, start_len, candidates.len() as int);
    }
}

/// Scanning is idempotent: a second scan in the same year, with the same
/// history, candidates and conditions, raises nothing more.
pub proof fn lemma_scan_is_idempotent(
    p: Seq<PendingView>, log: Seq<ResolvedView>, candidates: Seq<EntityId>, conditions: Seq<Seq<bool>>, year: u64,
)
    requires
        conditions.len() == CATALOG_LEN,
        forall|d: int| 0 <= d < CATALOG_LEN ==> (#[trigger] conditions[d]).len() == candidates.len(),
    ensures
        scanned(scanned(p, log, candidates, conditions, year), log, candidates, conditions, year)
            == scanned(p, log, candidates, conditions, year),
{
    let q = scanned(p, log, candidates, conditions, year);
    lemma_catalog_covers(p, log, candidates, conditions, year, next_pending_id(p), p.len() as int, CATALOG_LEN as int);
    lemma_covered_catalog_is_unchanged(q, log, candidates, conditions, year, next_pending_id(q), q.len() as int, CATALOG_LEN as int);
}

/// Pending ids stay unique across a scan: every raised event's id is above
/// every id already pending, and raised ids are consecutive.
pub proof fn lemma_scan_keeps_pending_ids_unique(
    p: Seq<PendingView>, log: Seq<ResolvedView>, candidates: Seq<EntityId>, conditions: Seq<Seq<bool>>, year: u64,
)
    requires
        conditions.len() == CATALOG_LEN,
        forall|d: int| 0 <= d < CATALOG_LEN ==> (#[trigger] conditions[d]).len() == candidates.len(),
        next_pending_id(p) + CATALOG_LEN * candidates.len() <= u32::MAX,
        ids_unique(p),
    ensures
        ids_unique(scanned(p, log, candidates, conditions, year)),
{
    lemma_max_pending_id_nonneg(p, p.len() as int);
    lemma_scan_only_appends_unblocked_events(p, log, candidates, conditions, year);
    let r = scanned(p, log, candidates, conditions, year);
    assert forall|i: int, j: int| 0 <= i < j < r.len() implies r[i].id != r[j].id by {
        assert(raised_entry(r, j, log, year, next_pending_id(p), p.len() as int, CATALOG_LEN as int) || j < p.len());
        if j >= p.len() {
            assert(raised_entry(r, j, log, year, next_pending_id(p), p.len() as int, CATALOG_LEN as int));
            if i >= p.len() {
                assert(raised_entry(r, i, log, year, next_pending_id(p), p.len() as int, CATALOG_LEN as int));
            } else {
                assert(r.subrange(0, p.len() as int)[i] == r[i]);
            }
        } else {
            assert(r.subrange(0, p.len() as int)[i] == r[i]);
            assert(r.subrange(0, p.len() as int)[j] == r[j]);
        }
    }
}

/// Once a character has resolved a non-repeatable event, no later scan
/// raises it for them again.
pub proof fn lemma_resolved_one_time_event_never_recurs(
    p: Seq<PendingView>, log: Seq<ResolvedView>, candidates: Seq<EntityId>, conditions: Seq<Seq<bool>>, year: u64,
    d: int, character_id: EntityId,
)
    requires
        conditions.len() == CATALOG_LEN,
        forall|e: int| 0 <= e < CATALOG_LEN ==> (#[trigger] conditions[e]).len() == candidates.len(),
        next_pending_id(p) + CATALOG_LEN * candidates.len() <= u32::MAX,
        0 <= d < CATALOG_LEN,
        !catalog_repeatable(d),
        ever_resolved(log, catalog_key(d), character_id),
    ensures
        ({
            let r = scanned(p, log, candidates, conditions, year);
            forall|i: int| p.len() <= i < r.len() ==> !(r[i].key == catalog_key(d) && r[i].character_id == character_id)
        }),
{
    lemma_scan_only_appends_unblocked_events(p, log, candidates, conditions, year);
    lemma_catalog_keys_are_unique();
    let r = scanned(p, log, candidates, conditions, year);
    assert forall|i: int| p.len() <= i < r.len() implies !(r[i].key == catalog_key(d) && r[i].character_id == character_id) by {
        assert(raised_entry(r, i, log, year, next_pending_id(p), p.len() as int, CATALOG_LEN as int));
        let e = choose|e: int| 0 <= e < CATALOG_LEN && r[i].key == catalog_key(e)
            && !history_blocks(log, catalog_key(e), catalog_repeatable(e), catalog_cooldown(e), r[i].character_id, year);
        if r[i].key == catalog_key(d) && r[i].character_id == character_id {
            assert(e == d);
        }
    }
}

/// A repeatable event is not raised again for a character within its
/// cooldown: if they resolved it in `last` and fewer than the cooldown
/// years have passed, no later scan raises it for them.
pub proof fn lemma_repeatable_event_respects_cooldown(
    p: Seq<PendingView>, log: Seq<ResolvedView>, candidates: Seq<EntityId>, conditions: Seq<Seq<bool>>, year: u64,
    d: int, character_id: EntityId,
)
    requires
        conditions.len() == CATALOG_LEN,
        forall|e: int| 0 <= e < CATALOG_LEN ==> (#[trigger] conditions[e]).len() == candidates.len(),
        next_pending_id(p) + CATALOG_LEN * candidates.len() <= u32::MAX,
        0 <= d < CATALOG_LEN,
        catalog_repeatable(d),
        latest_resolution(log, catalog_key(d), character_id, log.len() as int) matches Some(last)
            && year - last < catalog_cooldown(d),
    ensures
        ({
            let r = scanned(p, log, candidates, conditions, year);
            forall|i: int| p.len() <= i < r.len() ==> !(r[i].key == catalog_key(d) && r[i].character_id == character_id)
        }),
{
    lemma_scan_only_appends_unblocked_events(p, log, candidates, conditions, year);
    lemma_catalog_keys_are_unique();
    let r = scanned(p, log, candidates, conditions, year);
    assert forall|i: int| p.len() <= i < r.len() implies !(r[i].key == catalog_key(d) && r[i].character_id == character_id) by {
        assert(raised_entry(r, i, log, year, next_pending_id(p), p.len() as int, CATALOG_LEN as int));
        let e = choose|e: int| 0 <= e < CATALOG_LEN && r[i].key == catalog_key(e)
            && !history_blocks(log, catalog_key(e), catalog_repeatable(e), catalog_cooldown(e), r[i].character_id, year);
        if r[i].key == catalog_key(d) && r[i].character_id == character_id {
            assert(e == d);
        }
    }
}

/// Why resolving a pending event was refused.
#[derive(Debug, Clone, PartialEq, Eq)]
pub enum ResolveEventError {
    /// No pending event has this id.
    UnknownPendingEvent(EntityId),
    /// The pending event's key names no catalog entry.
    UnknownEventDefinition(String),
    /// The choice key matches none of the event's choices.
    UnknownChoice(String),
}

/// The position of the first pending event with id `id`.
pub open spec fn first_with_id(p: Seq<PendingView>, id: EntityId, i: int) -> bool {
    0 <= i < p.len() && p[i].id == id && forall|j: int| 0 <= j < i ==> p[j].id != id
}

/// Whether catalog entry `d` offers a choice with key `choice_key`.
pub open spec fn offers_choice(d: int, choice_key: Seq<char>) -> bool {
    exists|k: int| 0 <= k < catalog_choice_keys(d).len() && catalog_choice_keys(d)[k] == choice_key
}

/// Resolve the pending event with id `pending_id` by the choice
/// `choice_key` in `year`: remove it from `pending`, append the resolution
/// to `log`, and hand the resolved event back so the choice's effect can be
/// applied. Refused without changing anything if no pending event has that
/// id, its key names no catalog entry, or the event offers no such choice
/// (checked in that order).
pub fn resolve_pending_event(
    pending: &mut Vec<PendingEvent>,
    log: &mut EventLog,
    pending_id: EntityId,
    choice_key: &str,
    year: u64,
) -> (r: Result<PendingEvent, ResolveEventError>)
    ensures
        r is Err ==> *final(pending) == *old(pending) && *final(log) == *old(log),
        (forall|i: int| 0 <= i < old(pending)@.len() ==> old(pending)@[i].id != pending_id)
            <==> r == Err::<PendingEvent, ResolveEventError>(ResolveEventError::UnknownPendingEvent(pending_id)),
        forall|i: int| #[trigger] first_with_id(pending_view(old(pending)@), pending_id, i) ==> {
            let e = old(pending)@[i];
            &&& (forall|d: int| 0 <= d < CATALOG_LEN ==> catalog_key(d) != e.key@) <==>
                (r matches Err(ResolveEventError::UnknownEventDefinition(k)) && k@ == e.key@)
            &&& (exists|d: int| 0 <= d < CATALOG_LEN && catalog_key(d) == e.key@ && !offers_choice(d, choice_key@)) <==>
                (r matches Err(ResolveEventError::UnknownChoice(k)) && k@ == choice_key@)
            &&& (exists|d: int| 0 <= d < CATALOG_LEN && catalog_key(d) == e.key@ && offers_choice(d, choice_key@)) <==>
                r is Ok
            &&& r is Ok ==> {
                &&& r == Ok::<PendingEvent, ResolveEventError>(e)
                &&& final(pending)@ == old(pending)@.remove(i)
                &&& final(log).entries() == old(log).entries().push(ResolvedView {
                    key: e.key@,
                    character_id: e.character_id,
                    choice_key: choice_key@,
                    year,
                })
            }
        },
{
    let mut index: usize = 0;
    while index < pending.len() && pending[index].id != pending_id
        invariant
            index <= pending@.len(),
            forall|j: int| 0 <= j < index ==> pending@[j].id != pending_id,
        decreases pending@.len() - index,
    {
        index += 1;
    }
    if index == pending.len() {
        return Err(ResolveEventError::UnknownPendingEvent(pending_id));
    }
    assert(pending_view(pending@)[index as int] == pending@[index as int]@);
    assert(first_with_id(pending_view(pending@), pending_id, index as int));
    assert forall|i: int| #[trigger] first_with_id(pending_view(pending@), pending_id, i) implies i == index by {
        if i < index {
            assert(pending_view(pending@)[i] == pending@[i]@);
        } else if i > index {
            assert(pending_view(pending@)[index as int].id == pending_id);
        }
    }
    let def = match definition(pending[index].key.as_str()) {
        Some(def) => def,
        None => {
            return Err(ResolveEventError::UnknownEventDefinition(pending[index].key.clone()));
        },
    };
    let ghost d = choose|d: int| 0 <= d < CATALOG_LEN && catalog_key(d) == pending@[index as int].key@
        && is_catalog_entry(def, d);
    proof {
        lemma_catalog_keys_are_unique();
        assert forall|e: int| 0 <= e < CATALOG_LEN && catalog_key(e) == pending@[index as int].key@ implies e == d by {}
    }
    let mut k: usize = 0;
    while k < def.choices.len() && !str_eq(def.choices[k].key, choice_key)
        invariant
            k <= def.choices@.len(),
            is_catalog_entry(def, d),
            forall|j: int| 0 <= j < k ==> catalog_choice_keys(d)[j] != choice_key@,
        decreases def.choices@.len() - k,
    {
        assert(def.choices@[k as int].key@ == catalog_choice_keys(d)[k as int]);
        k += 1;
    }
    if k == def.choices.len() {
        assert(!offers_choice(d, choice_key@));
        return Err(ResolveEventError::UnknownChoice(String::from_str(choice_key)));
    }
    assert(def.choices@[k as int].key@ == catalog_choice_keys(d)[k as int]);
    assert(offers_choice(d, choice_key@));
    let resolved = pending.remove(index);
    log.resolved.push(ResolvedEvent {
        key: resolved.key.clone(),
        character_id: resolved.character_id,
        choice_key: String::from_str(choice_key),
        year,
    });
    proof {
        assert(log_view(log.resolved@) =~= old(log).entries().push(log.resolved@.last()@));
    }
    Ok(resolved)
}

/// What a read gives back of a write: once an event is resolved for a
/// character, the log reports it as resolved for them, with that year as
/// its latest resolution when no later year was logged before.
pub proof fn lemma_resolution_is_recorded(log: Seq<ResolvedView>, entry: ResolvedView)
    ensures
        ever_resolved(log.push(entry), entry.key, entry.character_id),
        latest_resolution(log.push(entry), entry.key, entry.character_id, log.len() as int + 1) matches Some(y)
            && y >= entry.year,
{
    let l = log.push(entry);
    assert(l[log.len() as int] == entry);
}

/// Once a character has resolved a one-time event, every later scan, after
/// any further resolutions have been logged, leaves it unraised for them.
pub proof fn lemma_one_time_event_stays_resolved(
    log: Seq<ResolvedView>, entry: ResolvedView, later: Seq<ResolvedView>, p: Seq<PendingView>,
    candidates: Seq<EntityId>, conditions: Seq<Seq<bool>>, year: u64, d: int,
)
    requires
        0 <= d < CATALOG_LEN,
        !catalog_repeatable(d),
        entry.key == catalog_key(d),
        conditions.len() == CATALOG_LEN,
        forall|e: int| 0 <= e < CATALOG_LEN ==> (#[trigger] conditions[e]).len() == candidates.len(),
        next_pending_id(p) + CATALOG_LEN * candidates.len() <= u32::MAX,
    ensures
        ({
            let r = scanned(p, log.push(entry) + later, candidates, conditions, year);
            forall|i: int| p.len() <= i < r.len() ==> !(r[i].key == catalog_key(d) && r[i].character_id == entry.character_id)
        }),
{
    let full = log.push(entry) + later;
    assert(full[log.len() as int] == entry);
    assert(ever_resolved(full, catalog_key(d), entry.character_id));
    lemma_resolved_one_time_event_never_recurs(p, full, candidates, conditions, year, d, entry.character_id);
}


/// From this age on a character is offered family seed money.
pub const FAMILY_SEED_MONEY_ADULT_AGE: u32 = 18;

/// The chance an investment tip pays off, 0.55, as a threshold on the top
/// 53 bits of a draw (see `SimRng::chance_scaled`).
pub const RISKY_INVESTMENT_SUCCESS_THRESHOLD: u64 = 4953959590107546;

/// The position of the first member with id `id`, searching from `k`.
pub open spec fn member_index(members: Seq<MemberRecord>, id: EntityId, k: int) -> Option<int>
    decreases members.len() - k,
{
    if k < 0 || k >= members.len() {
        None
    } else if members[k].id == id {
        Some(k)
    } else {
        member_index(members, id, k + 1)
    }
}

/// Whether `character_id` holds a career on any track.
pub open spec fn holds_any_career(careers: Seq<Career>, character_id: EntityId) -> bool {
    exists|i: int| 0 <= i < careers.len() && careers[i].character_id == character_id
}

fn first_member(members: &[MemberRecord], id: EntityId) -> (r: Option<usize>)
    ensures
        match r {
            Some(k) => member_index(members@, id, 0) == Some(k as int) && k < members@.len(),
            None => member_index(members@, id, 0) is None,
        },
{
    let mut k: usize = 0;
    while k < members.len()
        invariant
            k <= members@.len(),
            member_index(members@, id, 0) == member_index(members@, id, k as int),
        decreases members@.len() - k,
    {
        if members[k].id == id {
            return Some(k);
        }
        k += 1;
    }
    None
}

fn has_any_career(careers: &[Career], character_id: EntityId) -> (b: bool)
    ensures
        b == holds_any_career(careers@, character_id),
{
    let mut i: usize = 0;
    while i < careers.len()
        invariant
            i <= careers@.len(),
            forall|k: int| 0 <= k < i ==> careers@[k].character_id != character_id,
        decreases careers@.len() - i,
    {
        if careers[i].character_id == character_id {
            return true;
        }
        i += 1;
    }
    false
}

/// Whether family seed money is offered to `character_id`: the first member
/// with that id is alive, an adult, and holds no career.
pub fn family_seed_money_condition(members: &[MemberRecord], careers: &[Career], character_id: EntityId) -> (b: bool)
    ensures
        b == match member_index(members@, character_id, 0) {
            Some(k) => members@[k].alive && members@[k].age_years >= FAMILY_SEED_MONEY_ADULT_AGE
                && !holds_any_career(careers@, character_id),
            None => false,
        },
{
    match first_member(members, character_id) {
        Some(k) => members[k].alive && members[k].age_years >= FAMILY_SEED_MONEY_ADULT_AGE
            && !has_any_career(careers, character_id),
        None => false,
    }
}

/// Whether an investment tip is offered to `character_id`: the first member
/// with that id is alive, holds a career, and has at least the minimum
/// wealth (`meets_minimum_wealth`, a comparison of fractional wealth made
/// by the caller for that member).
pub fn risky_investment_tip_condition(
    members: &[MemberRecord],
    careers: &[Career],
    character_id: EntityId,
    meets_minimum_wealth: bool,
) -> (b: bool)
    ensures
        b == match member_index(members@, character_id, 0) {
            Some(k) => members@[k].alive && meets_minimum_wealth && holds_any_career(careers@, character_id),
            None => false,
        },
{
    match first_member(members, character_id) {
        Some(k) => members[k].alive && meets_minimum_wealth && has_any_career(careers, character_id),
        None => false,
    }
}

/// The domain tag of the one-shot stream deciding an investment tip.
pub open spec fn risky_investment_domain_view(character_id: EntityId, year: u64) -> Seq<char> {
    "events:risky_investment_tip:"@ + decimal(character_id as nat) + ":"@ + decimal(year as nat)
}

/// Whether the risky investment of `character_id` in `year` pays off: the
/// first draw of its stream, shifted to 53 bits, falls below the success
/// threshold.
pub open spec fn risky_investment_success(world_seed: u64, character_id: EntityId, year: u64) -> bool {
    (stream_value(seeded_state(world_seed, risky_investment_domain_view(character_id, year)), 0) >> 11u64)
        < RISKY_INVESTMENT_SUCCESS_THRESHOLD
}

/// A risky investment pays off with a 55% chance: exactly when the first
/// draw of its stream, as a fraction of `2^64`, is below the success
/// threshold over `2^53`, which stands for 0.55.
pub proof fn lemma_risky_investment_pays_off_with_its_chance(world_seed: u64, character_id: EntityId, year: u64)
    ensures
        threshold_for_chance(RISKY_INVESTMENT_SUCCESS_THRESHOLD, 55, 100),
        risky_investment_success(world_seed, character_id, year) <==>
            (stream_value(seeded_state(world_seed, risky_investment_domain_view(character_id, year)), 0) as int)
                < (RISKY_INVESTMENT_SUCCESS_THRESHOLD as int) * 2048,
{
    lemma_top_bits_below(
        stream_value(seeded_state(world_seed, risky_investment_domain_view(character_id, year)), 0),
        RISKY_INVESTMENT_SUCCESS_THRESHOLD,
    );
}

/// `"events:risky_investment_tip:<character_id>:<year>"`.
pub fn risky_investment_domain(character_id: EntityId, year: u64) -> (domain: String)
    ensures
        domain@ == risky_investment_domain_view(character_id, year),
{
    let mut domain = tagged("events:risky_investment_tip:", character_id as u64);
    domain.append(":");
    let digits = decimal_string(year);
    domain.append(digits.as_str());
    domain
}

/// Whether following the investment tip pays off for `character_id` in
/// `year`: one draw of the stream for that character and year, successful
/// with probability 0.55. Replaying the same seed, character and year
/// always gives the same outcome.
pub fn risky_investment_succeeds(world_seed: u64, character_id: EntityId, year: u64) -> (b: bool)
    ensures
        b == risky_investment_success(world_seed, character_id, year),
{
    let domain = risky_investment_domain(character_id, year);
    let mut rng = SimRng::from_seed(world_seed, domain.as_str());
    proof {
        reveal_with_fuel(crate::rng::xoshiro_advance, 2);
    }
    rng.chance_scaled(RISKY_INVESTMENT_SUCCESS_THRESHOLD)
}

} // verus!
