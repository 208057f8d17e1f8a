//! Yearly aging and mortality for dynasty members. The annual chance of
//! death follows an age-bracketed curve; it is carried here as integer
//! thresholds over `2^53`, the exact form in which a draw is compared with
//! a probability (see [`crate::rng::SimRng::chance_scaled`]).

use vstd::prelude::*;
use crate::rng::{SimRng, RngState, xoshiro_output, xoshiro_step, threshold_for_chance, lemma_top_bits_below};

verus! {

/// The annual death threshold (over `2^53`) at `age_years`: the threshold
/// of the highest bracket whose minimum age is reached. Brackets start at
/// ages 0, 40, 60, 75, 90 and 105, with probabilities 0.002, 0.004, 0.015,
/// 0.045, 0.12 and 0.35, each given as `ceil(p * 2^53)`.
pub open spec fn mortality_threshold_at(age_years: u32) -> u64 {
    if age_years >= 105 {
        3152519739159347
    } else if age_years >= 90 {
        1080863910568919
    } else if age_years >= 75 {
        405323966463345
    } else if age_years >= 60 {
        135107988821115
    } else if age_years >= 40 {
        36028797018964
    } else {
        18014398509482
    }
}

/// The annual death threshold at `age_years`.
pub fn mortality_threshold(age_years: u32) -> (t: u64)
    ensures
        t == mortality_threshold_at(age_years),
{
    let brackets: [(u32, u64); 6] = [
        (0, 18014398509482),
        (40, 36028797018964),
        (60, 135107988821115),
        (75, 405323966463345),
        (90, 1080863910568919),
        (105, 3152519739159347),
    ];
    let mut threshold: u64 = brackets[0].1;
    let mut i: usize = 0;
    while i < 6 && age_years >= brackets[i].0
        invariant
            i <= 6,
            brackets@ == seq![(0u32, 18014398509482u64), (40u32, 36028797018964u64), (60u32, 135107988821115u64),
                (75u32, 405323966463345u64), (90u32, 1080863910568919u64), (105u32, 3152519739159347u64)],
            forall|j: int| 0 <= j < i ==> age_years >= brackets@[j].0,
            i == 0 ==> threshold == 18014398509482,
            i > 0 ==> threshold == brackets@[i - 1].1,
        decreases 6 - i,
    {
        threshold = brackets[i].1;
        i += 1;
    }
    threshold
}

/// The mortality curve never decreases with age.
pub proof fn lemma_mortality_threshold_non_decreasing(younger: u32, older: u32)
    requires
        younger <= older,
    ensures
        mortality_threshold_at(younger) <= mortality_threshold_at(older),
{
}

/// What the yearly pass reads and changes of a dynasty member.
#[derive(Debug, Clone, Copy, PartialEq, Eq, Structural)]
pub struct Vitals {
    pub age_years: u32,
    pub alive: bool,
}

/// The members and stream state after the yearly pass has handled the
/// first `n` members: each living member ages a year, then dies if the
/// next draw falls below the threshold for their new age; dead members
/// are skipped without a draw.
pub open spec fn mortality_pass(v: Seq<Vitals>, s: RngState, n: int) -> (Seq<Vitals>, RngState)
    decreases n,
{
    if n <= 0 {
        (v, s)
    } else {
        let (w, t) = mortality_pass(v, s, n - 1);
        let m = v[n - 1];
        if !m.alive {
            (w, t)
        } else {
            let aged = (m.age_years + 1) as u32;
            let dies = (xoshiro_output(t) >> 11u64) < mortality_threshold_at(aged);
            (w.update(n - 1, Vitals { age_years: aged, alive: !dies }), xoshiro_step(t))
        }
    }
}

/// Age every living member by one year and roll their mortality, in
/// member order, one draw per living member.
pub fn age_and_roll_mortality(members: &mut Vec<Vitals>, rng: &mut SimRng)
    requires
        forall|i: int| 0 <= i < old(members)@.len() && (#[trigger] old(members)@[i]).alive ==>
            old(members)@[i].age_years < u32::MAX,
    ensures
        (final(members)@, final(rng)@) == mortality_pass(old(members)@, old(rng)@, old(members)@.len() as int),
{
    let ghost v = members@;
    let mut i: usize = 0;
    while i < members.len()
        invariant
            i <= members@.len(),
            members@.len() == v.len(),
            forall|j: int| 0 <= j < v.len() && (#[trigger] v[j]).alive ==> v[j].age_years < u32::MAX,
            forall|j: int| i <= j < v.len() ==> members@[j] == v[j],
            (members@, rng@) == mortality_pass(v, old(rng)@, i as int),
        decreases members@.len() - i,
    {
        proof {
            lemma_pass_keeps_length(v, old(rng)@, i as int);
        }
        let m = members[i];
        assert(v[i as int] == m);
        if m.alive {
            let aged: u32 = m.age_years + 1;
            let dies = rng.chance_scaled(mortality_threshold(aged));
            members.set(i, Vitals { age_years: aged, alive: !dies });
        }
        i += 1;
    }
}

proof fn lemma_pass_keeps_length(v: Seq<Vitals>, s: RngState, n: int)
    requires
        0 <= n <= v.len(),
    ensures
        mortality_pass(v, s, n).0.len() == v.len(),
        forall|j: int| n <= j < v.len() ==> mortality_pass(v, s, n).0[j] == v[j],
    decreases n,
{
    if n > 0 {
        lemma_pass_keeps_length(v, s, n - 1);
    }
}

/// The yearly pass never revives or ages a dead member, and ages every
/// living one by exactly a year.
pub proof fn lemma_pass_ages_living_and_keeps_dead(v: Seq<Vitals>, s: RngState, n: int)
    requires
        0 <= n <= v.len(),
        forall|j: int| 0 <= j < v.len() && (#[trigger] v[j]).alive ==> v[j].age_years < u32::MAX,
    ensures
        forall|j: int| 0 <= j < n ==> {
            let after = (#[trigger] mortality_pass(v, s, n).0[j]);
            &&& !v[j].alive ==> after == v[j]
            &&& v[j].alive ==> after.age_years == v[j].age_years + 1
        },
    decreases n,
{
    if n > 0 {
        lemma_pass_ages_living_and_keeps_dead(v, s, n - 1);
        lemma_pass_keeps_length(v, s, n - 1);
    }
}

/// The annual death threshold follows the mortality curve: at every age it
/// stands for the death probability of the highest bracket the age
/// reaches, 0.2% below 40, 0.4% from 40, 1.5% from 60, 4.5% from 75, 12%
/// from 90 and 35% from 105.
pub proof fn lemma_mortality_follows_the_curve(age_years: u32)
    ensures
        age_years < 40 ==> threshold_for_chance(mortality_threshold_at(age_years), 2, 1000),
        40 <= age_years < 60 ==> threshold_for_chance(mortality_threshold_at(age_years), 4, 1000),
        60 <= age_years < 75 ==> threshold_for_chance(mortality_threshold_at(age_years), 15, 1000),
        75 <= age_years < 90 ==> threshold_for_chance(mortality_threshold_at(age_years), 45, 1000),
        90 <= age_years < 105 ==> threshold_for_chance(mortality_threshold_at(age_years), 12, 100),
        105 <= age_years ==> threshold_for_chance(mortality_threshold_at(age_years), 35, 100),
{
}

proof fn lemma_mortality_pass_len(v: Seq<Vitals>, s: RngState, n: int)
    requires
        0 <= n <= v.len(),
    ensures
        mortality_pass(v, s, n).0.len() == v.len(),
    decreases n,
{
    if n > 0 {
        lemma_mortality_pass_len(v, s, n - 1);
    }
}

/// In the yearly pass a living member ages one year and dies exactly when
/// the draw the pass takes for them, read as a fraction of `2^64`, is below
/// the death threshold of their new age over `2^53`; a dead member is left
/// as they were.
pub proof fn lemma_each_member_dies_by_their_draw(v: Seq<Vitals>, s: RngState, n: int)
    requires
        0 < n <= v.len(),
        v[n - 1].alive ==> v[n - 1].age_years < u32::MAX,
    ensures
        ({
            let before = mortality_pass(v, s, n - 1);
            let after = mortality_pass(v, s, n).0[n - 1];
            let m = v[n - 1];
            if m.alive {
                &&& after.age_years == m.age_years + 1
                &&& after.alive == !((xoshiro_output(before.1) as int)
                    < (mortality_threshold_at((m.age_years + 1) as u32) as int) * 2048)
            } else {
                after == m
            }
        }),
{
    lemma_mortality_pass_len(v, s, n - 1);
    lemma_mortality_pass_unchanged_beyond(v, s, n - 1);
    let before = mortality_pass(v, s, n - 1);
    lemma_top_bits_below(xoshiro_output(before.1), mortality_threshold_at((v[n - 1].age_years + 1) as u32));
}

proof fn lemma_mortality_pass_unchanged_beyond(v: Seq<Vitals>, s: RngState, n: int)
    requires
        0 <= n <= v.len(),
    ensures
        forall|k: int| n <= k < v.len() ==> #[trigger] mortality_pass(v, s, n).0[k] == v[k],
    decreases n,
{
    if n > 0 {
        lemma_mortality_pass_unchanged_beyond(v, s, n - 1);
        lemma_mortality_pass_len(v, s, n - 1);
    }
}

} // verus!
