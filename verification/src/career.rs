//! Career tracks: a job ladder, tenure-gated promotion, and the
//! start-a-career rules. Salary and promotion odds are fractional
//! quantities computed outside this crate; the decisions below take their
//! outcomes as plain values.

use vstd::prelude::*;
use crate::world::EntityId;
use crate::rng::{RngState, SimRng, stream_value, xoshiro_advance, xoshiro_output, xoshiro_step, lemma_advance_compose, lemma_top_bits_below};

verus! {

/// Which career track a [`Career`] belongs to.
#[derive(Debug, Clone, Copy, PartialEq, Eq, Structural)]
pub enum CareerTrack {
    Corporate,
}

/// Settled weeks at the current level before a promotion can happen.
pub const MIN_WEEKS_BEFORE_PROMOTION: u32 = 12;

/// The number of rungs on `track`'s ladder.
pub open spec fn ladder_len(track: CareerTrack) -> nat {
    match track {
        CareerTrack::Corporate => 3,
    }
}

/// The title of rung `level` on `track`'s ladder (lowest first).
pub open spec fn ladder_title(track: CareerTrack, level: int) -> Seq<char> {
    match track {
        CareerTrack::Corporate => if level == 0 {
            "Analyst"@
        } else if level == 1 {
            "Manager"@
        } else {
            "Director"@
        },
    }
}

/// The highest valid level on `track`.
pub open spec fn top_level(track: CareerTrack) -> u8 {
    (ladder_len(track) - 1) as u8
}

impl CareerTrack {
    /// Job titles for this track's ladder, lowest rung first.
    fn job_titles(&self) -> (titles: Vec<&'static str>)
        ensures
            titles@.len() == ladder_len(*self),
            forall|i: int| 0 <= i < titles@.len() ==> (#[trigger] titles@[i])@ == ladder_title(*self, i),
    {
        match self {
            CareerTrack::Corporate => vec!["Analyst", "Manager", "Director"],
        }
    }

    /// The highest valid `level` on this track's ladder.
    pub fn max_level(&self) -> (m: u8)
        ensures
            m == top_level(*self),
    {
        (self.job_titles().len() - 1) as u8
    }

    /// The job title for `level`, clamped to the ladder's top rung rather
    /// than failing on an out-of-range level.
    pub fn job_title(&self, level: u8) -> (title: &'static str)
        ensures
            title@ == ladder_title(*self, if level <= top_level(*self) { level as int } else { top_level(*self) as int }),
    {
        let titles = self.job_titles();
        let index: usize = if (level as usize) < titles.len() - 1 { level as usize } else { titles.len() - 1 };
        titles[index]
    }
}

/// A character's job on some [`CareerTrack`]: rung, employer city, and
/// tenure at the current rung.
#[derive(Debug, Clone, Copy, PartialEq, Eq, Structural)]
pub struct Career {
    pub id: EntityId,
    pub track: CareerTrack,
    /// The dynasty member holding this job.
    pub character_id: EntityId,
    /// The city this job is based in, referenced by id.
    pub employer_city_id: EntityId,
    /// Index into the track's job ladder; valid when `<= track.max_level()`.
    pub level: u8,
    /// Weeks settled since starting this level (reset on promotion).
    pub weeks_at_level: u32,
}

/// Whether a career may be promoted at its next roll: below the top rung
/// and past the minimum tenure.
pub open spec fn promotion_eligible(c: Career) -> bool {
    c.level < top_level(c.track) && c.weeks_at_level >= MIN_WEEKS_BEFORE_PROMOTION
}

impl Career {
    pub fn is_valid(&self) -> (b: bool)
        ensures
            b == (self.level <= top_level(self.track)),
    {
        self.level <= self.track.max_level()
    }

    /// The job title this career currently holds.
    pub fn job_title(&self) -> (title: &'static str)
        ensures
            title@ == ladder_title(self.track, if self.level <= top_level(self.track) { self.level as int } else { top_level(self.track) as int }),
    {
        self.track.job_title(self.level)
    }

    /// One weekly settlement of tenure and promotion. Tenure always advances.
    /// `promotion_roll` is `None` when the employer city no longer resolves
    /// (no roll is made that week), otherwise the outcome of the week's
    /// promotion roll; a successful roll promotes only an eligible career,
    /// by exactly one rung, resetting its tenure.
    pub fn settle_week(&mut self, promotion_roll: Option<bool>)
        requires
            old(self).weeks_at_level < u32::MAX,
        ensures
            ({
                let ticked = Career { weeks_at_level: (old(self).weeks_at_level + 1) as u32, ..*old(self) };
                if promotion_roll == Some(true) && promotion_eligible(ticked) {
                    *final(self) == Career { level: (ticked.level + 1) as u8, weeks_at_level: 0, ..ticked }
                } else {
                    *final(self) == ticked
                }
            }),
    {
        self.weeks_at_level += 1;
        if let Some(promoted) = promotion_roll {
            let eligible = self.level < self.track.max_level()
                && self.weeks_at_level >= MIN_WEEKS_BEFORE_PROMOTION;
            if eligible && promoted {
                self.level += 1;
                self.weeks_at_level = 0;
            }
        }
    }
}

/// Why starting a career was refused.
#[derive(Debug, Clone, Copy, PartialEq, Eq, Structural)]
pub enum StartCareerError {
    /// The employer city id doesn't resolve to any city in the sector.
    UnknownEmployerCity(EntityId),
    /// The character already holds a career on this track (at most one job
    /// per track at a time).
    AlreadyOnTrack { character_id: EntityId, track: CareerTrack },
}

/// Whether `careers` holds a career of `character_id` on `track`.
pub open spec fn holds_track(careers: Seq<Career>, character_id: EntityId, track: CareerTrack) -> bool {
    exists|i: int| 0 <= i < careers.len() && careers[i].character_id == character_id && careers[i].track == track
}

/// Start a career for `character_id` on `track` in `employer_city_id`,
/// given the ids of every city in the sector. Refused if the city is
/// unknown (checked first) or the character already holds a career on this
/// track; otherwise the new career starts at the bottom rung with no tenure.
pub fn start_career(
    id: EntityId,
    track: CareerTrack,
    character_id: EntityId,
    employer_city_id: EntityId,
    city_ids: &[EntityId],
    existing_careers: &[Career],
) -> (r: Result<Career, StartCareerError>)
    ensures
        !city_ids@.contains(employer_city_id) ==> r == Err::<Career, StartCareerError>(
            StartCareerError::UnknownEmployerCity(employer_city_id)),
        city_ids@.contains(employer_city_id) && holds_track(existing_careers@, character_id, track)
            ==> r == Err::<Career, StartCareerError>(StartCareerError::AlreadyOnTrack { character_id, track }),
        city_ids@.contains(employer_city_id) && !holds_track(existing_careers@, character_id, track)
            ==> r == Ok::<Career, StartCareerError>(Career {
                id,
                track,
                character_id,
                employer_city_id,
                level: 0,
                weeks_at_level: 0,
            }),
{
    let mut i: usize = 0;
    let mut known = false;
    while i < city_ids.len()
        invariant
            i <= city_ids@.len(),
            known <==> exists|k: int| 0 <= k < i && city_ids@[k] == employer_city_id,
        decreases city_ids@.len() - i,
    {
        if city_ids[i] == employer_city_id {
            known = true;
        }
        i += 1;
    }
    if !known {
        return Err(StartCareerError::UnknownEmployerCity(employer_city_id));
    }
    let mut j: usize = 0;
    while j < existing_careers.len()
        invariant
            j <= existing_careers@.len(),
            city_ids@.contains(employer_city_id),
            forall|k: int| 0 <= k < j ==> !(existing_careers@[k].character_id == character_id
                && existing_careers@[k].track == track),
        decreases existing_careers@.len() - j,
    {
        if existing_careers[j].character_id == character_id && existing_careers[j].track == track {
            return Err(StartCareerError::AlreadyOnTrack { character_id, track });
        }
        j += 1;
    }
    Ok(Career { id, track, character_id, employer_city_id, level: 0, weeks_at_level: 0 })
}

/// Weekly settlement keeps every career on its ladder: a valid career stays
/// valid whatever the roll.
pub proof fn lemma_settlement_keeps_careers_on_the_ladder(c: Career, roll: Option<bool>)
    requires
        c.level <= top_level(c.track),
        c.weeks_at_level < u32::MAX,
    ensures
        ({
            let ticked = Career { weeks_at_level: (c.weeks_at_level + 1) as u32, ..c };
            let after = if roll == Some(true) && promotion_eligible(ticked) {
                Career { level: (ticked.level + 1) as u8, weeks_at_level: 0, ..ticked }
            } else {
                ticked
            };
            after.level <= top_level(after.track)
        }),
{
}

/// A career after one weekly settlement with the given promotion roll.
pub open spec fn settled(c: Career, roll: Option<bool>) -> Career {
    let ticked = Career { weeks_at_level: (c.weeks_at_level + 1) as u32, ..c };
    if roll == Some(true) && promotion_eligible(ticked) {
        Career { level: (ticked.level + 1) as u8, weeks_at_level: 0, ..ticked }
    } else {
        ticked
    }
}

/// The week's promotion roll for a career: none when its employer city does
/// not resolve (`threshold` is `None`), else whether the stream's next draw,
/// shifted to 53 bits, falls below the threshold.
pub open spec fn roll_at(s: RngState, threshold: Option<u64>) -> Option<bool> {
    match threshold {
        Some(t) => Some((xoshiro_output(s) >> 11u64) < t),
        None => None,
    }
}

/// The stream after a career's roll: one draw when a roll is made.
pub open spec fn after_roll(s: RngState, threshold: Option<u64>) -> RngState {
    match threshold {
        Some(_) => xoshiro_step(s),
        None => s,
    }
}

/// Careers `i..` after a week, their rolls drawn in order from `s`.
pub open spec fn settle_from(cs: Seq<Career>, ts: Seq<Option<u64>>, s: RngState, i: int) -> Seq<Career>
    decreases cs.len() - i,
{
    if i < 0 || i >= cs.len() {
        Seq::empty()
    } else {
        seq![settled(cs[i], roll_at(s, ts[i]))] + settle_from(cs, ts, after_roll(s, ts[i]), i + 1)
    }
}

/// The stream after settling careers `i..` from `s`.
pub open spec fn stream_after(cs: Seq<Career>, ts: Seq<Option<u64>>, s: RngState, i: int) -> RngState
    decreases cs.len() - i,
{
    if i < 0 || i >= cs.len() {
        s
    } else {
        stream_after(cs, ts, after_roll(s, ts[i]), i + 1)
    }
}

/// How many of the careers `i..n` roll: those whose city resolves.
pub open spec fn rolls_from(ts: Seq<Option<u64>>, i: int, n: int) -> nat
    decreases n - i,
{
    if i < 0 || i >= n {
        0
    } else {
        (if ts[i] is Some { 1nat } else { 0nat }) + rolls_from(ts, i + 1, n)
    }
}

proof fn lemma_settle_from_len(cs: Seq<Career>, ts: Seq<Option<u64>>, s: RngState, i: int)
    requires
        0 <= i <= cs.len(),
    ensures
        settle_from(cs, ts, s, i).len() == cs.len() - i,
    decreases cs.len() - i,
{
    if i < cs.len() {
        lemma_settle_from_len(cs, ts, after_roll(s, ts[i]), i + 1);
    }
}

/// One week of tenure and promotion for every career, in order.
/// `thresholds[i]` is `None` when career `i`'s employer city does not
/// resolve (no roll), else its promotion chance as a threshold on the
/// stream's next draw shifted to 53 bits (`ceil(p * 2^53)` for a chance
/// `p`); each roll is drawn from `rng` whether or not the career is
/// eligible.
pub fn settle_careers(careers: &mut Vec<Career>, thresholds: &[Option<u64>], rng: &mut SimRng)
    requires
        thresholds@.len() == old(careers)@.len(),
        forall|k: int| 0 <= k < old(careers)@.len() ==> (#[trigger] old(careers)@[k]).weeks_at_level < u32::MAX,
    ensures
        final(careers)@ == settle_from(old(careers)@, thresholds@, old(rng)@, 0),
        final(rng)@ == stream_after(old(careers)@, thresholds@, old(rng)@, 0),
{
    let ghost c0 = careers@;
    let ghost s0 = rng@;
    let ghost all = settle_from(c0, thresholds@, s0, 0);
    let ghost fin = stream_after(c0, thresholds@, s0, 0);
    proof {
        lemma_settle_from_len(c0, thresholds@, s0, 0);
        assert(all.subrange(0, c0.len() as int) =~= all);
    }
    let n = careers.len();
    let mut i: usize = 0;
    while i < n
        invariant
            n == c0.len(),
            careers@.len() == n,
            thresholds@.len() == n,
            all.len() == n,
            i <= n,
            forall|k: int| 0 <= k < n ==> (#[trigger] c0[k]).weeks_at_level < u32::MAX,
            forall|k: int| 0 <= k < i ==> #[trigger] careers@[k] == all[k],
            forall|k: int| i <= k < n ==> #[trigger] careers@[k] == c0[k],
            settle_from(c0, thresholds@, rng@, i as int) == all.subrange(i as int, n as int),
            stream_after(c0, thresholds@, rng@, i as int) == fin,
        decreases n - i,
    {
        let ghost s = rng@;
        let roll = match thresholds[i] {
            Some(t) => Some(rng.chance_scaled(t)),
            None => None,
        };
        assert(roll == roll_at(s, thresholds@[i as int]));
        assert(rng@ == after_roll(s, thresholds@[i as int]));
        let mut c = careers[i];
        c.settle_week(roll);
        assert(c == settled(c0[i as int], roll));
        proof {
            let rest = settle_from(c0, thresholds@, rng@, i as int + 1);
            assert(settle_from(c0, thresholds@, s, i as int) == seq![settled(c0[i as int], roll)] + rest);
            assert(all[i as int] == all.subrange(i as int, n as int)[0]);
            assert(rest =~= all.subrange(i as int, n as int).subrange(1, (n - i) as int));
            assert(all.subrange(i as int, n as int).subrange(1, (n - i) as int) =~= all.subrange(i as int + 1, n as int));
        }
        careers.set(i, c);
        i += 1;
    }
    assert(careers@ =~= all);
}

/// Settling a week draws exactly one value from the stream for each career
/// whose employer city resolves, and none for the others.
pub proof fn lemma_one_draw_per_resolving_career(cs: Seq<Career>, ts: Seq<Option<u64>>, s: RngState, i: int)
    requires
        0 <= i <= cs.len(),
    ensures
        stream_after(cs, ts, s, i) == xoshiro_advance(s, rolls_from(ts, i, cs.len() as int)),
    decreases cs.len() - i,
{
    if i < cs.len() {
        let s2 = after_roll(s, ts[i]);
        lemma_one_draw_per_resolving_career(cs, ts, s2, i + 1);
        let k = rolls_from(ts, i + 1, cs.len() as int);
        if ts[i] is Some {
            assert(xoshiro_advance(s, 1) == xoshiro_step(s)) by {
                reveal_with_fuel(xoshiro_advance, 2);
            }
            lemma_advance_compose(s, 1, k);
        }
    }
}

/// Every career on its ladder stays on it through a week, and a career is
/// promoted by at most one rung, and only once it has settled at least
/// the minimum tenure at its level.
pub proof fn lemma_a_week_keeps_every_career_on_the_ladder(cs: Seq<Career>, ts: Seq<Option<u64>>, s: RngState, i: int)
    requires
        0 <= i <= cs.len(),
        forall|k: int| 0 <= k < cs.len() ==> (#[trigger] cs[k]).level <= top_level(cs[k].track),
    ensures
        forall|k: int| 0 <= k < settle_from(cs, ts, s, i).len() ==> {
            let after = #[trigger] settle_from(cs, ts, s, i)[k];
            let before = cs[i + k];
            &&& after.level <= top_level(after.track)
            &&& (after.level == before.level || (after.level == before.level + 1
                && before.weeks_at_level + 1 >= MIN_WEEKS_BEFORE_PROMOTION))
        },
    decreases cs.len() - i,
{
    if i < cs.len() {
        lemma_a_week_keeps_every_career_on_the_ladder(cs, ts, after_roll(s, ts[i]), i + 1);
        let rest = settle_from(cs, ts, after_roll(s, ts[i]), i + 1);
        let all = settle_from(cs, ts, s, i);
        assert forall|k: int| 0 <= k < all.len() implies {
            let after = #[trigger] all[k];
            let before = cs[i + k];
            &&& after.level <= top_level(after.track)
            &&& (after.level == before.level || (after.level == before.level + 1
                && before.weeks_at_level + 1 >= MIN_WEEKS_BEFORE_PROMOTION))
        } by {
            if k > 0 {
                assert(all[k] == rest[k - 1]);
            }
        }
    }
}

proof fn lemma_settle_from_at(cs: Seq<Career>, ts: Seq<Option<u64>>, s: RngState, j: int, i: int)
    requires
        0 <= j <= i < cs.len(),
    ensures
        settle_from(cs, ts, s, j)[i - j] == settled(cs[i], roll_at(xoshiro_advance(s, rolls_from(ts, j, i)), ts[i])),
    decreases i - j,
{
    if j < i {
        let s2 = after_roll(s, ts[j]);
        lemma_settle_from_at(cs, ts, s2, j + 1, i);
        lemma_settle_from_len(cs, ts, s2, j + 1);
        let rest = settle_from(cs, ts, s2, j + 1);
        assert(settle_from(cs, ts, s, j) == seq![settled(cs[j], roll_at(s, ts[j]))] + rest);
        assert(settle_from(cs, ts, s, j)[i - j] == rest[i - j - 1]);
        let k = rolls_from(ts, j + 1, i);
        if ts[j] is Some {
            assert(xoshiro_advance(s, 1) == xoshiro_step(s)) by {
                reveal_with_fuel(xoshiro_advance, 2);
            }
            lemma_advance_compose(s, 1, k);
            assert(xoshiro_advance(s2, k) == xoshiro_advance(s, rolls_from(ts, j, i)));
        } else {
            assert(xoshiro_advance(s2, k) == xoshiro_advance(s, rolls_from(ts, j, i)));
        }
    } else {
        assert(xoshiro_advance(s, 0) == s);
    }
}

/// In a week's settlement each career gains a week of tenure, and is
/// promoted one rung (its tenure reset) exactly when its employer city
/// resolves with promotion threshold `t`, it is below the top rung, this
/// week brings it to the minimum tenure, and the draw it takes is below
/// `t * 2^11` as a fraction of `2^64` (its top 53 bits below `t`, a chance
/// of `t / 2^53`). That draw is the stream's value after one draw for each
/// earlier career whose city resolves.
pub proof fn lemma_promotion_follows_the_draw(cs: Seq<Career>, ts: Seq<Option<u64>>, s: RngState, i: int)
    requires
        0 <= i < cs.len(),
        cs[i].weeks_at_level < u32::MAX,
    ensures
        ({
            let c = cs[i];
            let after = settle_from(cs, ts, s, 0)[i];
            let draw = stream_value(s, rolls_from(ts, 0, i));
            let promoted = ts[i] matches Some(t) && c.level < top_level(c.track)
                && c.weeks_at_level + 1 >= 12 && (draw as int) < (t as int) * 2048;
            &&& after.id == c.id && after.track == c.track
            &&& after.character_id == c.character_id && after.employer_city_id == c.employer_city_id
            &&& if promoted {
                after.level == c.level + 1 && after.weeks_at_level == 0
            } else {
                after.level == c.level && after.weeks_at_level == c.weeks_at_level + 1
            }
        }),
{
    lemma_settle_from_at(cs, ts, s, 0, i);
    let st = xoshiro_advance(s, rolls_from(ts, 0, i));
    if let Some(t) = ts[i] {
        lemma_top_bits_below(xoshiro_output(st), t);
    }
}

} // verus!
