//! Counting a sector: how many cities it has and how many people live in
//! them, walking systems, planets, countries and cities in order.

use vstd::prelude::*;
use crate::trade::{CityNode, layout_view, planet_view, system_view};

verus! {

/// The cities of the first `m` countries of a planet, in order.
pub open spec fn planet_cities(countries: Seq<Seq<CityNode>>, m: int) -> Seq<CityNode>
    decreases m,
{
    if m <= 0 { Seq::empty() } else { planet_cities(countries, m - 1) + countries[m - 1] }
}

/// The cities of the first `m` planets of a star system, in order.
pub open spec fn system_cities(planets: Seq<Seq<Seq<CityNode>>>, m: int) -> Seq<CityNode>
    decreases m,
{
    if m <= 0 { Seq::empty() } else { system_cities(planets, m - 1) + planet_cities(planets[m - 1], planets[m - 1].len() as int) }
}

/// The cities of the first `m` systems of a sector, in order.
pub open spec fn sector_cities(systems: Seq<Seq<Seq<Seq<CityNode>>>>, m: int) -> Seq<CityNode>
    decreases m,
{
    if m <= 0 { Seq::empty() } else { sector_cities(systems, m - 1) + system_cities(systems[m - 1], systems[m - 1].len() as int) }
}

/// Every city of a sector, in order.
pub open spec fn all_cities(layout: Seq<Vec<Vec<Vec<CityNode>>>>) -> Seq<CityNode> {
    sector_cities(layout_view(layout), layout.len() as int)
}

/// The total population of `cities`.
pub open spec fn population_total(cities: Seq<CityNode>) -> int
    decreases cities.len(),
{
    if cities.len() == 0 { 0 } else { population_total(cities.drop_last()) + cities.last().population }
}

fn push_planet(out: &mut Vec<CityNode>, countries: &Vec<Vec<CityNode>>)
    ensures
        final(out)@ == old(out)@ + planet_cities(planet_view(*countries), countries@.len() as int),
{
    let ghost pv = planet_view(*countries);
    let ghost start = out@;
    let mut m: usize = 0;
    while m < countries.len()
        invariant
            m <= countries@.len(),
            pv == planet_view(*countries),
            pv.len() == countries@.len(),
            out@ == start + planet_cities(pv, m as int),
        decreases countries@.len() - m,
    {
        let cities = &countries[m];
        assert(pv[m as int] == cities@);
        let ghost before = out@;
        let mut k: usize = 0;
        while k < cities.len()
            invariant
                k <= cities@.len(),
                out@ == before + cities@.take(k as int),
            decreases cities@.len() - k,
        {
            out.push(cities[k]);
            assert(cities@.take(k as int + 1) =~= cities@.take(k as int).push(cities@[k as int]));
            k += 1;
        }
        assert(cities@.take(cities@.len() as int) =~= cities@);
        assert(out@ =~= start + planet_cities(pv, m as int + 1));
        m += 1;
    }
}

fn push_system(out: &mut Vec<CityNode>, planets: &Vec<Vec<Vec<CityNode>>>)
    ensures
        final(out)@ == old(out)@ + system_cities(system_view(*planets), planets@.len() as int),
{
    let ghost sv = system_view(*planets);
    let ghost start = out@;
    let mut m: usize = 0;
    while m < planets.len()
        invariant
            m <= planets@.len(),
            sv == system_view(*planets),
            sv.len() == planets@.len(),
            out@ == start + system_cities(sv, m as int),
        decreases planets@.len() - m,
    {
        assert(sv[m as int] == planet_view(planets@[m as int]));
        push_planet(out, &planets[m]);
        assert(out@ =~= start + system_cities(sv, m as int + 1));
        m += 1;
    }
}

/// Every city of a sector, in order: system by system, planet by planet,
/// country by country.
pub fn cities_of(layout: &Vec<Vec<Vec<Vec<CityNode>>>>) -> (cities: Vec<CityNode>)
    ensures
        cities@ == all_cities(layout@),
{
    let ghost lv = layout_view(layout@);
    let mut out: Vec<CityNode> = Vec::new();
    let mut m: usize = 0;
    while m < layout.len()
        invariant
            m <= layout@.len(),
            lv == layout_view(layout@),
            lv.len() == layout@.len(),
            out@ == sector_cities(lv, m as int),
        decreases layout@.len() - m,
    {
        assert(lv[m as int] == system_view(layout@[m as int]));
        push_system(&mut out, &layout[m]);
        assert(out@ =~= sector_cities(lv, m as int + 1));
        m += 1;
    }
    out
}

/// How many cities a sector has.
pub fn city_count(layout: &Vec<Vec<Vec<Vec<CityNode>>>>) -> (n: usize)
    ensures
        n == all_cities(layout@).len(),
{
    cities_of(layout).len()
}

/// The total population of a sector, or `None` when it does not fit a
/// `u64`.
pub fn total_population(layout: &Vec<Vec<Vec<Vec<CityNode>>>>) -> (total: Option<u64>)
    ensures
        match total {
            Some(t) => t == population_total(all_cities(layout@)),
            None => population_total(all_cities(layout@)) > u64::MAX,
        },
{
    let cities = cities_of(layout);
    let mut sum: u64 = 0;
    let mut i: usize = 0;
    while i < cities.len()
        invariant
            i <= cities@.len(),
            cities@ == all_cities(layout@),
            sum == population_total(cities@.take(i as int)),
        decreases cities@.len() - i,
    {
        assert(cities@.take(i as int + 1).drop_last() =~= cities@.take(i as int));
        match sum.checked_add(cities[i].population) {
            Some(next) => {
                sum = next;
            },
            None => {
                proof {
                    lemma_population_prefix_bounded(cities@, i as int + 1);
                }
                return None;
            },
        }
        i += 1;
    }
    assert(cities@.take(cities@.len() as int) =~= cities@);
    Some(sum)
}

proof fn lemma_population_prefix_bounded(cities: Seq<CityNode>, n: int)
    requires
        0 <= n <= cities.len(),
    ensures
        population_total(cities.take(n)) <= population_total(cities),
    decreases cities.len() - n,
{
    if n < cities.len() {
        lemma_population_prefix_bounded(cities, n + 1);
        assert(cities.take(n + 1).drop_last() =~= cities.take(n));
    } else {
        assert(cities.take(n) =~= cities);
    }
}

} // verus!
