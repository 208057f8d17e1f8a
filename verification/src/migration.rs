//! Applying a month of migration between cities. How many people leave
//! each city, and how the leavers are shared among the more attractive
//! cities, is weighed from fractional wealth and unemployment figures
//! outside this crate; this module moves the people, handing any
//! rounding remainder to the most attractive city, and proves that moving
//! people neither creates nor destroys anyone.

use vstd::prelude::*;

verus! {

/// The sum of a sequence of counts.
pub open spec fn total(s: Seq<u64>) -> int
    decreases s.len(),
{
    if s.len() == 0 {
        0
    } else {
        total(s.drop_last()) + s.last()
    }
}

/// The sum of the first `n` counts.
pub open spec fn total_prefix(s: Seq<u64>, n: int) -> int {
    total(s.take(n))
}

/// The inflows once the rounding remainder (`leavers - placed`) is added
/// to the city `best`, if there is one.
pub open spec fn inflow_with_remainder(inflow: Seq<u64>, best: Option<usize>, remainder: int) -> Seq<int> {
    Seq::new(inflow.len(), |i: int| inflow[i] + if (best matches Some(b) && b as int == i) { remainder } else { 0 })
}

/// City sizes after a month: each city loses its outflow and gains its
/// inflow, plus the rounding remainder for the city `best`, saturating at
/// the bounds of `u64`.
pub open spec fn migrated_sizes(sizes: Seq<u64>, outflow: Seq<u64>, inflow: Seq<u64>, best: Option<usize>) -> Seq<u64> {
    let remainder = total(outflow) - total(inflow);
    Seq::new(sizes.len(), |i: int| {
        let stayed = if sizes[i] >= outflow[i] { sizes[i] - outflow[i] } else { 0 };
        let arrived = inflow_with_remainder(inflow, best, remainder)[i];
        if stayed + arrived > u64::MAX { u64::MAX as u64 } else { (stayed + arrived) as u64 }
    })
}

proof fn lemma_total_take_step(s: Seq<u64>, n: int)
    requires
        0 <= n < s.len(),
    ensures
        total(s.take(n + 1)) == total(s.take(n)) + s[n],
{
    assert(s.take(n + 1).drop_last() =~= s.take(n));
}

proof fn lemma_total_take_all(s: Seq<u64>)
    ensures
        total(s.take(s.len() as int)) == total(s),
{
    assert(s.take(s.len() as int) =~= s);
}

proof fn lemma_total_nonneg(s: Seq<u64>)
    ensures
        total(s) >= 0,
    decreases s.len(),
{
    if s.len() > 0 {
        lemma_total_nonneg(s.drop_last());
    }
}

/// Move one month's migrants. `outflow[i]` leave city `i`; `inflow[i]`
/// arrive there; what the inflows leave unplaced (`sum(outflow) -
/// sum(inflow)`) also arrives at city `best`.
pub fn apply_migration(sizes: &mut Vec<u64>, outflow: &[u64], inflow: &[u64], best: Option<usize>)
    requires
        outflow@.len() == old(sizes)@.len(),
        inflow@.len() == old(sizes)@.len(),
        total(outflow@) <= u64::MAX,
        total(inflow@) <= total(outflow@),
        best matches Some(b) ==> b < old(sizes)@.len(),
    ensures
        final(sizes)@ == migrated_sizes(old(sizes)@, outflow@, inflow@, best),
{
    let ghost sizes0 = sizes@;
    let mut leaving: u64 = 0;
    let mut placed: u64 = 0;
    let mut i: usize = 0;
    while i < outflow.len()
        invariant
            i <= outflow@.len(),
            inflow@.len() == outflow@.len(),
            total(outflow@) <= u64::MAX,
            total(inflow@) <= total(outflow@),
            leaving == total(outflow@.take(i as int)),
            placed == total(inflow@.take(i as int)),
        decreases outflow@.len() - i,
    {
        proof {
            lemma_total_take_step(outflow@, i as int);
            lemma_total_take_step(inflow@, i as int);
            lemma_prefix_total_bounded(outflow@, i as int + 1);
            lemma_prefix_total_bounded(inflow@, i as int + 1);
        }
        leaving = leaving + outflow[i];
        placed = placed + inflow[i];
        i += 1;
    }
    proof {
        lemma_total_take_all(outflow@);
        lemma_total_take_all(inflow@);
    }
    let remainder: u64 = leaving - placed;
    let mut j: usize = 0;
    while j < sizes.len()
        invariant
            j <= sizes@.len(),
            sizes@.len() == sizes0.len(),
            outflow@.len() == sizes0.len(),
            inflow@.len() == sizes0.len(),
            remainder == total(outflow@) - total(inflow@),
            best matches Some(b) ==> b < sizes0.len(),
            forall|k: int| j <= k < sizes0.len() ==> sizes@[k] == sizes0[k],
            forall|k: int| 0 <= k < j ==> sizes@[k] == migrated_sizes(sizes0, outflow@, inflow@, best)[k],
        decreases sizes@.len() - j,
    {
        let arriving: u64 = match best {
            Some(b) if b == j => inflow[j].saturating_add(remainder),
            _ => inflow[j],
        };
        let old_size = sizes[j];
        let new_size = old_size.saturating_sub(outflow[j]).saturating_add(arriving);
        proof {
            let arrived = inflow_with_remainder(inflow@, best, remainder as int)[j as int];
            if best == Some(j) && inflow@[j as int] + remainder > u64::MAX {
                assert(arrived > u64::MAX);
            }
        }
        sizes.set(j, new_size);
        j += 1;
    }
    assert(sizes@ =~= migrated_sizes(sizes0, outflow@, inflow@, best));
}

proof fn lemma_prefix_total_bounded(s: Seq<u64>, n: int)
    requires
        0 <= n <= s.len(),
    ensures
        total(s.take(n)) <= total(s),
    decreases s.len() - n,
{
    if n < s.len() {
        lemma_prefix_total_bounded(s, n + 1);
        lemma_total_take_step(s, n);
    } else {
        lemma_total_take_all(s);
    }
}

pub open spec fn sum_int(s: Seq<int>) -> int
    decreases s.len(),
{
    if s.len() == 0 {
        0
    } else {
        sum_int(s.drop_last()) + s.last()
    }
}

/// Each city's size after the month, before any saturation.
pub open spec fn unsaturated(sizes: Seq<u64>, outflow: Seq<u64>, arrivals: Seq<int>) -> Seq<int> {
    Seq::new(sizes.len(), |i: int| sizes[i] - outflow[i] + arrivals[i])
}

proof fn lemma_sum_unsaturated(sizes: Seq<u64>, outflow: Seq<u64>, arrivals: Seq<int>, n: int)
    requires
        0 <= n <= sizes.len(),
        outflow.len() == sizes.len(),
        arrivals.len() == sizes.len(),
    ensures
        sum_int(unsaturated(sizes, outflow, arrivals).take(n))
            == total(sizes.take(n)) - total(outflow.take(n)) + sum_int(arrivals.take(n)),
    decreases n,
{
    if n > 0 {
        lemma_sum_unsaturated(sizes, outflow, arrivals, n - 1);
        let u = unsaturated(sizes, outflow, arrivals);
        assert(u.take(n).drop_last() =~= u.take(n - 1));
        assert(arrivals.take(n).drop_last() =~= arrivals.take(n - 1));
        lemma_total_take_step(sizes, n - 1);
        lemma_total_take_step(outflow, n - 1);
    }
}

proof fn lemma_sum_arrivals(inflow: Seq<u64>, b: usize, remainder: int, n: int)
    requires
        0 <= n <= inflow.len(),
        b < inflow.len(),
    ensures
        sum_int(inflow_with_remainder(inflow, Some(b), remainder).take(n))
            == total(inflow.take(n)) + if b < n { remainder } else { 0 },
    decreases n,
{
    if n > 0 {
        lemma_sum_arrivals(inflow, b, remainder, n - 1);
        let a = inflow_with_remainder(inflow, Some(b), remainder);
        assert(a.take(n).drop_last() =~= a.take(n - 1));
        lemma_total_take_step(inflow, n - 1);
    }
}

proof fn lemma_element_at_most_sum(s: Seq<int>, i: int)
    requires
        0 <= i < s.len(),
        forall|k: int| 0 <= k < s.len() ==> s[k] >= 0,
    ensures
        s[i] <= sum_int(s),
    decreases s.len(),
{
    lemma_sum_nonneg(s.drop_last());
    if i < s.len() - 1 {
        lemma_element_at_most_sum(s.drop_last(), i);
    }
}

proof fn lemma_sum_nonneg(s: Seq<int>)
    requires
        forall|k: int| 0 <= k < s.len() ==> s[k] >= 0,
    ensures
        sum_int(s) >= 0,
    decreases s.len(),
{
    if s.len() > 0 {
        lemma_sum_nonneg(s.drop_last());
    }
}

/// Migration moves people between cities without creating or destroying
/// anyone: when no city loses more people than it has, the inflows place
/// no more people than left, and there is a most attractive city to take
/// the remainder, the sector-wide population is unchanged.
pub proof fn lemma_migration_conserves_population(sizes: Seq<u64>, outflow: Seq<u64>, inflow: Seq<u64>, best: usize)
    requires
        outflow.len() == sizes.len(),
        inflow.len() == sizes.len(),
        forall|i: int| 0 <= i < sizes.len() ==> outflow[i] <= sizes[i],
        total(inflow) <= total(outflow),
        best < sizes.len(),
        total(sizes) <= u64::MAX,
    ensures
        total(migrated_sizes(sizes, outflow, inflow, Some(best))) == total(sizes),
{
    let n = sizes.len() as int;
    let remainder = total(outflow) - total(inflow);
    let arrivals = inflow_with_remainder(inflow, Some(best), remainder);
    let u = unsaturated(sizes, outflow, arrivals);
    let m = migrated_sizes(sizes, outflow, inflow, Some(best));
    lemma_sum_unsaturated(sizes, outflow, arrivals, n);
    lemma_sum_arrivals(inflow, best, remainder, n);
    lemma_total_take_all(sizes);
    lemma_total_take_all(outflow);
    lemma_total_take_all(inflow);
    assert(u.take(n) =~= u);
    assert(arrivals.take(n) =~= arrivals);
    assert(sum_int(u) == total(sizes));
    assert forall|k: int| 0 <= k < n implies u[k] >= 0 by {
        lemma_total_nonneg(inflow);
    }
    assert forall|k: int| 0 <= k < n implies m[k] as int == u[k] by {
        lemma_element_at_most_sum(u, k);
    }
    lemma_total_matches_sum(m, u);
}

proof fn lemma_total_matches_sum(m: Seq<u64>, u: Seq<int>)
    requires
        m.len() == u.len(),
        forall|k: int| 0 <= k < m.len() ==> m[k] as int == u[k],
    ensures
        total(m) == sum_int(u),
    decreases m.len(),
{
    if m.len() > 0 {
        lemma_total_matches_sum(m.drop_last(), u.drop_last());
    }
}

} // verus!
