//! The network of trade routes generated once at sector creation: which
//! pairs of cities a route connects, and at which tier. Every pair of
//! cities within a country gets a local route; each country's most
//! populous city (its hub) links to the first country hub on its planet
//! with a regional route; each planet's hub links to the first planet hub
//! of its star system with an interplanetary route. A route's distance,
//! capacity, cost and reliability are fractional and drawn outside this
//! crate, route by route in this order.

use vstd::prelude::*;
use crate::world::EntityId;

verus! {

/// What route planning reads of a city.
#[derive(Debug, Clone, Copy, PartialEq, Eq, Structural)]
pub struct CityNode {
    pub id: EntityId,
    pub population: u64,
}

/// The tier a route is generated at.
#[derive(Debug, Clone, Copy, PartialEq, Eq, Structural)]
pub enum RouteTier {
    /// Between two cities of the same country.
    Local,
    /// Between country hubs on the same planet.
    Regional,
    /// Between planet hubs in the same star system.
    Interplanetary,
}

/// A route to generate: its id (1, 2, ... in generation order), its two
/// endpoint cities, and its tier.
#[derive(Debug, Clone, Copy, PartialEq, Eq, Structural)]
pub struct PlannedRoute {
    pub id: EntityId,
    pub city_a_id: EntityId,
    pub city_b_id: EntityId,
    pub tier: RouteTier,
}

/// A route's endpoints and tier, without its id.
pub type Link = (EntityId, EntityId, RouteTier);

/// The index of a country's hub among its first `n` cities: the most
/// populous, the later one on a tie.
pub open spec fn hub_index(cities: Seq<CityNode>, n: int) -> int
    decreases n,
{
    if n <= 1 {
        0
    } else {
        let h = hub_index(cities, n - 1);
        if cities[n - 1].population >= cities[h].population { n - 1 } else { h }
    }
}

/// The hub of a non-empty country.
pub open spec fn hub(cities: Seq<CityNode>) -> CityNode {
    cities[hub_index(cities, cities.len() as int)]
}

/// The local routes of row `r`: city `r` to each later city.
pub open spec fn local_row(cities: Seq<CityNode>, r: int) -> Seq<Link> {
    Seq::new((cities.len() - r - 1) as nat, |k: int| (cities[r].id, cities[r + 1 + k].id, RouteTier::Local))
}

/// The local routes of the first `r` rows.
pub open spec fn local_rows(cities: Seq<CityNode>, r: int) -> Seq<Link>
    decreases r,
{
    if r <= 0 { Seq::empty() } else { local_rows(cities, r - 1) + local_row(cities, r - 1) }
}

/// Every pair of a country's cities, in order.
pub open spec fn local_links(cities: Seq<CityNode>) -> Seq<Link> {
    local_rows(cities, cities.len() as int)
}

/// The first hub among the first `m` countries of a planet.
pub open spec fn first_country_hub(countries: Seq<Seq<CityNode>>, m: int) -> Option<CityNode>
    decreases m,
{
    if m <= 0 {
        None
    } else {
        match first_country_hub(countries, m - 1) {
            Some(h) => Some(h),
            None => if countries[m - 1].len() > 0 { Some(hub(countries[m - 1])) } else { None },
        }
    }
}

/// The routes of the first `m` countries of a planet: each country's local
/// routes, then a regional route from the planet's first hub to the
/// country's hub.
pub open spec fn planet_links(countries: Seq<Seq<CityNode>>, m: int) -> Seq<Link>
    decreases m,
{
    if m <= 0 {
        Seq::empty()
    } else {
        let c = countries[m - 1];
        let bridge = match first_country_hub(countries, m - 1) {
            Some(h) => if c.len() > 0 { seq![(h.id, hub(c).id, RouteTier::Regional)] } else { Seq::empty() },
            None => Seq::empty(),
        };
        planet_links(countries, m - 1) + local_links(c) + bridge
    }
}

/// The hub of a planet: the hub of its first non-empty country.
pub open spec fn planet_hub(countries: Seq<Seq<CityNode>>) -> Option<CityNode> {
    first_country_hub(countries, countries.len() as int)
}

/// The first planet hub among the first `m` planets of a system.
pub open spec fn first_planet_hub(planets: Seq<Seq<Seq<CityNode>>>, m: int) -> Option<CityNode>
    decreases m,
{
    if m <= 0 {
        None
    } else {
        match first_planet_hub(planets, m - 1) {
            Some(h) => Some(h),
            None => planet_hub(planets[m - 1]),
        }
    }
}

/// The routes of the first `m` planets of a system: each planet's routes,
/// then an interplanetary route from the system's first planet hub to the
/// planet's hub.
pub open spec fn system_links(planets: Seq<Seq<Seq<CityNode>>>, m: int) -> Seq<Link>
    decreases m,
{
    if m <= 0 {
        Seq::empty()
    } else {
        let p = planets[m - 1];
        let bridge = match (first_planet_hub(planets, m - 1), planet_hub(p)) {
            (Some(h), Some(ph)) => seq![(h.id, ph.id, RouteTier::Interplanetary)],
            _ => Seq::empty(),
        };
        system_links(planets, m - 1) + planet_links(p, p.len() as int) + bridge
    }
}

/// The routes of the first `m` systems.
pub open spec fn sector_links(systems: Seq<Seq<Seq<Seq<CityNode>>>>, m: int) -> Seq<Link>
    decreases m,
{
    if m <= 0 {
        Seq::empty()
    } else {
        sector_links(systems, m - 1) + system_links(systems[m - 1], systems[m - 1].len() as int)
    }
}

pub open spec fn country_view(c: Vec<CityNode>) -> Seq<CityNode> {
    c@
}

pub open spec fn planet_view(p: Vec<Vec<CityNode>>) -> Seq<Seq<CityNode>> {
    p@.map_values(|c: Vec<CityNode>| c@)
}

pub open spec fn system_view(s: Vec<Vec<Vec<CityNode>>>) -> Seq<Seq<Seq<CityNode>>> {
    s@.map_values(|p: Vec<Vec<CityNode>>| planet_view(p))
}

/// A sector as nested plain values: systems, planets, countries, cities.
pub open spec fn layout_view(layout: Seq<Vec<Vec<Vec<CityNode>>>>) -> Seq<Seq<Seq<Seq<CityNode>>>> {
    layout.map_values(|s: Vec<Vec<Vec<CityNode>>>| system_view(s))
}

/// The index of the hub of a non-empty country.
fn hub_of(cities: &Vec<CityNode>) -> (h: usize)
    requires
        cities@.len() > 0,
    ensures
        h as int == hub_index(cities@, cities@.len() as int),
        h < cities@.len(),
{
    let mut best: usize = 0;
    let mut i: usize = 1;
    while i < cities.len()
        invariant
            1 <= i <= cities@.len(),
            best < i,
            best as int == hub_index(cities@, i as int),
        decreases cities@.len() - i,
    {
        if cities[i].population >= cities[best].population {
            best = i;
        }
        i += 1;
    }
    best
}

proof fn lemma_hub_index_in_range(cities: Seq<CityNode>, n: int)
    requires
        1 <= n,
    ensures
        0 <= hub_index(cities, n) < n,
    decreases n,
{
    if n > 1 {
        lemma_hub_index_in_range(cities, n - 1);
    }
}

fn push_link(routes: &mut Vec<PlannedRoute>, a: EntityId, b: EntityId, tier: RouteTier)
    requires
        old(routes)@.len() < u32::MAX,
    ensures
        final(routes)@ == old(routes)@.push(PlannedRoute { id: (old(routes)@.len() + 1) as u32, city_a_id: a, city_b_id: b, tier }),
{
    let id = (routes.len() + 1) as u32;
    routes.push(PlannedRoute { id, city_a_id: a, city_b_id: b, tier });
}

/// The links of `routes`, without ids.
pub open spec fn links_of(routes: Seq<PlannedRoute>) -> Seq<Link> {
    routes.map_values(|r: PlannedRoute| (r.city_a_id, r.city_b_id, r.tier))
}

/// Route `k` has id `k + 1`.
pub open spec fn numbered(routes: Seq<PlannedRoute>) -> bool {
    forall|k: int| 0 <= k < routes.len() ==> (#[trigger] routes[k]).id == k + 1
}

proof fn lemma_push_link(routes: Seq<PlannedRoute>, r: PlannedRoute)
    requires
        numbered(routes),
        r.id == routes.len() + 1,
    ensures
        numbered(routes.push(r)),
        links_of(routes.push(r)) == links_of(routes).push((r.city_a_id, r.city_b_id, r.tier)),
{
    assert(links_of(routes.push(r)) =~= links_of(routes).push((r.city_a_id, r.city_b_id, r.tier)));
}

/// Append a country's local routes.
fn plan_country(routes: &mut Vec<PlannedRoute>, cities: &Vec<CityNode>)
    requires
        numbered(old(routes)@),
        old(routes)@.len() + local_links(cities@).len() < u32::MAX,
    ensures
        numbered(final(routes)@),
        links_of(final(routes)@) == links_of(old(routes)@) + local_links(cities@),
{
    let ghost start = links_of(routes@);
    let n = cities.len();
    let mut i: usize = 0;
    while i < n
        invariant
            n == cities@.len(),
            i <= n,
            numbered(routes@),
            links_of(routes@) == start + local_rows(cities@, i as int),
            start.len() + local_links(cities@).len() < u32::MAX,
        decreases n - i,
    {
        proof {
            lemma_local_rows_len_monotone(cities@, i as int + 1, n as int);
        }
        let ghost row_start = links_of(routes@);
        assert(local_rows(cities@, i as int + 1) == local_rows(cities@, i as int) + local_row(cities@, i as int));
        let mut j: usize = i + 1;
        while j < n
            invariant
                n == cities@.len(),
                i < n,
                i + 1 <= j <= n,
                numbered(routes@),
                links_of(routes@) == row_start + local_row(cities@, i as int).take(j - i - 1),
                row_start == start + local_rows(cities@, i as int),
                row_start.len() + local_row(cities@, i as int).len() <= start.len() + local_links(cities@).len(),
                start.len() + local_links(cities@).len() < u32::MAX,
            decreases n - j,
        {
            let ghost before = routes@;
            assert(routes@.len() == links_of(routes@).len());
            push_link(routes, cities[i].id, cities[j].id, RouteTier::Local);
            proof {
                lemma_push_link(before, routes@.last());
                assert(routes@ == before.push(routes@.last()));
                assert(local_row(cities@, i as int).take(j - i) =~= local_row(cities@, i as int).take(j - i - 1).push(
                    (cities@[i as int].id, cities@[j as int].id, RouteTier::Local)));
            }
            j += 1;
        }
        assert(local_row(cities@, i as int).take(n - i - 1) =~= local_row(cities@, i as int));
        assert(links_of(routes@) =~= start + local_rows(cities@, i as int + 1));
        i += 1;
    }
}

proof fn lemma_local_rows_len_monotone(cities: Seq<CityNode>, r: int, s: int)
    requires
        0 <= r <= s <= cities.len(),
    ensures
        local_rows(cities, r).len() <= local_rows(cities, s).len(),
    decreases s - r,
{
    if r < s {
        lemma_local_rows_len_monotone(cities, r, s - 1);
    }
}

proof fn lemma_planet_links_len_monotone(countries: Seq<Seq<CityNode>>, r: int, s: int)
    requires
        0 <= r <= s <= countries.len(),
    ensures
        planet_links(countries, r).len() <= planet_links(countries, s).len(),
    decreases s - r,
{
    if r < s {
        lemma_planet_links_len_monotone(countries, r, s - 1);
    }
}

proof fn lemma_system_links_len_monotone(planets: Seq<Seq<Seq<CityNode>>>, r: int, s: int)
    requires
        0 <= r <= s <= planets.len(),
    ensures
        system_links(planets, r).len() <= system_links(planets, s).len(),
    decreases s - r,
{
    if r < s {
        lemma_system_links_len_monotone(planets, r, s - 1);
    }
}

proof fn lemma_sector_links_len_monotone(systems: Seq<Seq<Seq<Seq<CityNode>>>>, r: int, s: int)
    requires
        0 <= r <= s <= systems.len(),
    ensures
        sector_links(systems, r).len() <= sector_links(systems, s).len(),
    decreases s - r,
{
    if r < s {
        lemma_sector_links_len_monotone(systems, r, s - 1);
    }
}

/// Append a planet's routes; returns the planet's hub.
fn plan_planet(routes: &mut Vec<PlannedRoute>, countries: &Vec<Vec<CityNode>>) -> (planet_hub_city: Option<CityNode>)
    requires
        numbered(old(routes)@),
        old(routes)@.len() + planet_links(planet_view(*countries), countries@.len() as int).len() < u32::MAX,
    ensures
        numbered(final(routes)@),
        links_of(final(routes)@) == links_of(old(routes)@) + planet_links(planet_view(*countries), countries@.len() as int),
        planet_hub_city == planet_hub(planet_view(*countries)),
{
    let ghost pv = planet_view(*countries);
    let ghost start = links_of(routes@);
    let mut first_hub: Option<CityNode> = None;
    let mut m: usize = 0;
    while m < countries.len()
        invariant
            m <= countries@.len(),
            pv == planet_view(*countries),
            pv.len() == countries@.len(),
            numbered(routes@),
            links_of(routes@) == start + planet_links(pv, m as int),
            first_hub == first_country_hub(pv, m as int),
            start.len() + planet_links(pv, pv.len() as int).len() < u32::MAX,
        decreases countries@.len() - m,
    {
        let cities = &countries[m];
        assert(pv[m as int] == cities@);
        proof {
            lemma_planet_links_len_monotone(pv, m as int + 1, pv.len() as int);
            assert(planet_links(pv, m as int + 1).len() >= planet_links(pv, m as int).len() + local_links(cities@).len());
            assert(routes@.len() == links_of(routes@).len());
        }
        plan_country(routes, cities);
        if cities.len() > 0 {
            let h = hub_of(cities);
            let hub_city = cities[h];
            match first_hub {
                None => {
                    first_hub = Some(hub_city);
                },
                Some(existing) => {
                    let ghost before = routes@;
                    assert(routes@.len() == links_of(routes@).len());
                    push_link(routes, existing.id, hub_city.id, RouteTier::Regional);
                    proof {
                        lemma_push_link(before, routes@.last());
                        assert(routes@ == before.push(routes@.last()));
                    }
                },
            }
        }
        assert(links_of(routes@) =~= start + planet_links(pv, m as int + 1));
        m += 1;
    }
    first_hub
}

/// Append a star system's routes.
fn plan_system(routes: &mut Vec<PlannedRoute>, planets: &Vec<Vec<Vec<CityNode>>>)
    requires
        numbered(old(routes)@),
        old(routes)@.len() + system_links(system_view(*planets), planets@.len() as int).len() < u32::MAX,
    ensures
        numbered(final(routes)@),
        links_of(final(routes)@) == links_of(old(routes)@) + system_links(system_view(*planets), planets@.len() as int),
{
    let ghost sv = system_view(*planets);
    let ghost start = links_of(routes@);
    let mut first_hub: Option<CityNode> = None;
    let mut m: usize = 0;
    while m < planets.len()
        invariant
            m <= planets@.len(),
            sv == system_view(*planets),
            sv.len() == planets@.len(),
            numbered(routes@),
            links_of(routes@) == start + system_links(sv, m as int),
            first_hub == first_planet_hub(sv, m as int),
            start.len() + system_links(sv, sv.len() as int).len() < u32::MAX,
        decreases planets@.len() - m,
    {
        let countries = &planets[m];
        assert(sv[m as int] == planet_view(*countries));
        proof {
            lemma_system_links_len_monotone(sv, m as int + 1, sv.len() as int);
            assert(system_links(sv, m as int + 1).len() >= system_links(sv, m as int).len()
                + planet_links(sv[m as int], sv[m as int].len() as int).len());
            assert(routes@.len() == links_of(routes@).len());
        }
        let this_hub = plan_planet(routes, countries);
        match (first_hub, this_hub) {
            (None, _) => {
                first_hub = this_hub;
            },
            (Some(existing), Some(h)) => {
                let ghost before = routes@;
                assert(routes@.len() == links_of(routes@).len());
                push_link(routes, existing.id, h.id, RouteTier::Interplanetary);
                proof {
                    lemma_push_link(before, routes@.last());
                    assert(routes@ == before.push(routes@.last()));
                }
            },
            (Some(_), None) => {},
        }
        assert(links_of(routes@) =~= start + system_links(sv, m as int + 1));
        m += 1;
    }
}

/// The routes to generate for a sector, in generation order, numbered from
/// 1: system by system, planet by planet, country by country, each
/// country's local routes followed by its regional bridge, and each
/// planet's routes followed by its interplanetary bridge.
pub fn plan_trade_routes(layout: &Vec<Vec<Vec<Vec<CityNode>>>>) -> (routes: Vec<PlannedRoute>)
    requires
        sector_links(layout_view(layout@), layout@.len() as int).len() < u32::MAX,
    ensures
        numbered(routes@),
        links_of(routes@) == sector_links(layout_view(layout@), layout@.len() as int),
{
    let ghost lv = layout_view(layout@);
    let mut routes: Vec<PlannedRoute> = Vec::new();
    assert(links_of(routes@) =~= Seq::<Link>::empty());
    let mut m: usize = 0;
    while m < layout.len()
        invariant
            m <= layout@.len(),
            lv == layout_view(layout@),
            lv.len() == layout@.len(),
            numbered(routes@),
            links_of(routes@) == sector_links(lv, m as int),
            sector_links(lv, lv.len() as int).len() < u32::MAX,
        decreases layout@.len() - m,
    {
        let planets = &layout[m];
        assert(lv[m as int] == system_view(*planets));
        proof {
            lemma_sector_links_len_monotone(lv, m as int + 1, lv.len() as int);
        }
        plan_system(&mut routes, planets);
        m += 1;
    }
    routes
}

pub open spec fn in_country(c: Seq<CityNode>, id: EntityId) -> bool {
    exists|k: int| 0 <= k < c.len() && c[k].id == id
}

pub open spec fn in_planet(p: Seq<Seq<CityNode>>, id: EntityId) -> bool {
    exists|j: int| 0 <= j < p.len() && in_country(p[j], id)
}

pub open spec fn in_system(s: Seq<Seq<Seq<CityNode>>>, id: EntityId) -> bool {
    exists|j: int| 0 <= j < s.len() && in_planet(s[j], id)
}

/// Whether a city with id `id` is somewhere in the sector.
pub open spec fn in_sector(l: Seq<Seq<Seq<Seq<CityNode>>>>, id: EntityId) -> bool {
    exists|j: int| 0 <= j < l.len() && in_system(l[j], id)
}

proof fn lemma_local_rows_within_country(c: Seq<CityNode>, r: int)
    requires
        0 <= r <= c.len(),
    ensures
        forall|i: int| 0 <= i < local_rows(c, r).len() ==>
            in_country(c, (#[trigger] local_rows(c, r)[i]).0) && in_country(c, local_rows(c, r)[i].1),
    decreases r,
{
    if r > 0 {
        lemma_local_rows_within_country(c, r - 1);
        let prev = local_rows(c, r - 1);
        let row = local_row(c, r - 1);
        assert forall|i: int| 0 <= i < local_rows(c, r).len() implies
            in_country(c, (#[trigger] local_rows(c, r)[i]).0) && in_country(c, local_rows(c, r)[i].1) by {
            if i < prev.len() {
                assert(local_rows(c, r)[i] == prev[i]);
            } else {
                let k = i - prev.len();
                assert(local_rows(c, r)[i] == row[k]);
                assert(c[r - 1].id == row[k].0);
                assert(c[r + k].id == row[k].1);
            }
        }
    }
}

proof fn lemma_hub_in_country(c: Seq<CityNode>)
    requires
        c.len() > 0,
    ensures
        in_country(c, hub(c).id),
{
    lemma_hub_index_in_range(c, c.len() as int);
}

proof fn lemma_first_country_hub_in_planet(p: Seq<Seq<CityNode>>, m: int)
    requires
        0 <= m <= p.len(),
    ensures
        first_country_hub(p, m) matches Some(h) ==> in_planet(p, h.id),
    decreases m,
{
    if m > 0 {
        lemma_first_country_hub_in_planet(p, m - 1);
        if first_country_hub(p, m - 1) is None && p[m - 1].len() > 0 {
            lemma_hub_in_country(p[m - 1]);
        }
    }
}

proof fn lemma_planet_links_within_planet(p: Seq<Seq<CityNode>>, m: int)
    requires
        0 <= m <= p.len(),
    ensures
        forall|i: int| 0 <= i < planet_links(p, m).len() ==>
            in_planet(p, (#[trigger] planet_links(p, m)[i]).0) && in_planet(p, planet_links(p, m)[i].1),
    decreases m,
{
    if m > 0 {
        lemma_planet_links_within_planet(p, m - 1);
        let prev = planet_links(p, m - 1);
        let c = p[m - 1];
        let local = local_links(c);
        lemma_local_rows_within_country(c, c.len() as int);
        lemma_first_country_hub_in_planet(p, m - 1);
        if c.len() > 0 {
            lemma_hub_in_country(c);
        }
        assert forall|i: int| 0 <= i < planet_links(p, m).len() implies
            in_planet(p, (#[trigger] planet_links(p, m)[i]).0) && in_planet(p, planet_links(p, m)[i].1) by {
            let l = planet_links(p, m)[i];
            if i < prev.len() {
                assert(l == prev[i]);
            } else if i < prev.len() + local.len() {
                assert(l == local[i - prev.len()]);
                assert(in_country(c, l.0) && in_country(c, l.1));
            } else {
                assert(in_country(c, hub(c).id));
            }
        }
    }
}

proof fn lemma_first_planet_hub_in_system(s: Seq<Seq<Seq<CityNode>>>, m: int)
    requires
        0 <= m <= s.len(),
    ensures
        first_planet_hub(s, m) matches Some(h) ==> in_system(s, h.id),
    decreases m,
{
    if m > 0 {
        lemma_first_planet_hub_in_system(s, m - 1);
        lemma_first_country_hub_in_planet(s[m - 1], s[m - 1].len() as int);
    }
}

proof fn lemma_system_links_within_system(s: Seq<Seq<Seq<CityNode>>>, m: int)
    requires
        0 <= m <= s.len(),
    ensures
        forall|i: int| 0 <= i < system_links(s, m).len() ==>
            in_system(s, (#[trigger] system_links(s, m)[i]).0) && in_system(s, system_links(s, m)[i].1),
    decreases m,
{
    if m > 0 {
        lemma_system_links_within_system(s, m - 1);
        let prev = system_links(s, m - 1);
        let p = s[m - 1];
        let planet = planet_links(p, p.len() as int);
        lemma_planet_links_within_planet(p, p.len() as int);
        lemma_first_planet_hub_in_system(s, m - 1);
        lemma_first_country_hub_in_planet(p, p.len() as int);
        assert forall|i: int| 0 <= i < system_links(s, m).len() implies
            in_system(s, (#[trigger] system_links(s, m)[i]).0) && in_system(s, system_links(s, m)[i].1) by {
            let l = system_links(s, m)[i];
            if i < prev.len() {
                assert(l == prev[i]);
            } else if i < prev.len() + planet.len() {
                assert(l == planet[i - prev.len()]);
                assert(in_planet(p, l.0) && in_planet(p, l.1));
            } else {
                assert(in_planet(p, planet_hub(p).unwrap().id));
            }
        }
    }
}

proof fn lemma_sector_links_within_sector(l: Seq<Seq<Seq<Seq<CityNode>>>>, m: int)
    requires
        0 <= m <= l.len(),
    ensures
        forall|i: int| 0 <= i < sector_links(l, m).len() ==>
            in_sector(l, (#[trigger] sector_links(l, m)[i]).0) && in_sector(l, sector_links(l, m)[i].1),
    decreases m,
{
    if m > 0 {
        lemma_sector_links_within_sector(l, m - 1);
        let prev = sector_links(l, m - 1);
        let sys = system_links(l[m - 1], l[m - 1].len() as int);
        lemma_system_links_within_system(l[m - 1], l[m - 1].len() as int);
        assert forall|i: int| 0 <= i < sector_links(l, m).len() implies
            in_sector(l, (#[trigger] sector_links(l, m)[i]).0) && in_sector(l, sector_links(l, m)[i].1) by {
            let x = sector_links(l, m)[i];
            if i < prev.len() {
                assert(x == prev[i]);
            } else {
                assert(x == sys[i - prev.len()]);
                assert(in_system(l[m - 1], x.0) && in_system(l[m - 1], x.1));
            }
        }
    }
}

/// Every planned route connects two cities of the sector.
pub proof fn lemma_routes_connect_real_cities(l: Seq<Seq<Seq<Seq<CityNode>>>>)
    ensures
        forall|i: int| 0 <= i < sector_links(l, l.len() as int).len() ==>
            in_sector(l, (#[trigger] sector_links(l, l.len() as int)[i]).0)
                && in_sector(l, sector_links(l, l.len() as int)[i].1),
{
    lemma_sector_links_within_sector(l, l.len() as int);
}


/// Whether some link has `id` as one of its endpoints.
pub open spec fn touches(links: Seq<Link>, id: EntityId) -> bool {
    exists|i: int| 0 <= i < links.len() && (links[i].0 == id || links[i].1 == id)
}

proof fn lemma_touches_concat(a: Seq<Link>, b: Seq<Link>, id: EntityId)
    ensures
        touches(a, id) || touches(b, id) ==> touches(a + b, id),
{
    if touches(a, id) {
        let i = choose|i: int| 0 <= i < a.len() && (a[i].0 == id || a[i].1 == id);
        assert((a + b)[i] == a[i]);
    } else if touches(b, id) {
        let i = choose|i: int| 0 <= i < b.len() && (b[i].0 == id || b[i].1 == id);
        assert((a + b)[a.len() + i] == b[i]);
    }
}

proof fn lemma_local_rows_grow(c: Seq<CityNode>, r0: int, r: int, id: EntityId)
    requires
        0 <= r0 <= r,
        touches(local_rows(c, r0), id),
    ensures
        touches(local_rows(c, r), id),
    decreases r - r0,
{
    if r > r0 {
        lemma_local_rows_grow(c, r0, r - 1, id);
        lemma_touches_concat(local_rows(c, r - 1), local_row(c, r - 1), id);
    }
}

proof fn lemma_local_links_touch(c: Seq<CityNode>, k: int)
    requires
        c.len() >= 2,
        0 <= k < c.len(),
    ensures
        touches(local_links(c), c[k].id),
{
    let n = c.len() as int;
    if k < n - 1 {
        let row = local_row(c, k);
        assert(row[0] == (c[k].id, c[k + 1].id, RouteTier::Local));
        lemma_touches_concat(local_rows(c, k), row, c[k].id);
        assert(local_rows(c, k + 1) == local_rows(c, k) + row);
        lemma_local_rows_grow(c, k + 1, n, c[k].id);
    } else {
        let row = local_row(c, 0);
        assert(row[n - 2] == (c[0].id, c[n - 1].id, RouteTier::Local));
        lemma_touches_concat(local_rows(c, 0), row, c[k].id);
        assert(local_rows(c, 1) == local_rows(c, 0) + row);
        lemma_local_rows_grow(c, 1, n, c[k].id);
    }
}

proof fn lemma_planet_links_grow(p: Seq<Seq<CityNode>>, m0: int, m: int, id: EntityId)
    requires
        0 <= m0 <= m,
        touches(planet_links(p, m0), id),
    ensures
        touches(planet_links(p, m), id),
    decreases m - m0,
{
    if m > m0 {
        lemma_planet_links_grow(p, m0, m - 1, id);
        let c = p[m - 1];
        let bridge = match first_country_hub(p, m - 1) {
            Some(h) => if c.len() > 0 { seq![(h.id, hub(c).id, RouteTier::Regional)] } else { Seq::empty() },
            None => Seq::empty(),
        };
        lemma_touches_concat(planet_links(p, m - 1), local_links(c), id);
        lemma_touches_concat(planet_links(p, m - 1) + local_links(c), bridge, id);
    }
}

proof fn lemma_system_links_grow(s: Seq<Seq<Seq<CityNode>>>, m0: int, m: int, id: EntityId)
    requires
        0 <= m0 <= m,
        touches(system_links(s, m0), id),
    ensures
        touches(system_links(s, m), id),
    decreases m - m0,
{
    if m > m0 {
        lemma_system_links_grow(s, m0, m - 1, id);
        let p = s[m - 1];
        let bridge = match (first_planet_hub(s, m - 1), planet_hub(p)) {
            (Some(h), Some(ph)) => seq![(h.id, ph.id, RouteTier::Interplanetary)],
            _ => Seq::empty(),
        };
        lemma_touches_concat(system_links(s, m - 1), planet_links(p, p.len() as int), id);
        lemma_touches_concat(system_links(s, m - 1) + planet_links(p, p.len() as int), bridge, id);
    }
}

proof fn lemma_sector_links_grow(l: Seq<Seq<Seq<Seq<CityNode>>>>, m0: int, m: int, id: EntityId)
    requires
        0 <= m0 <= m,
        touches(sector_links(l, m0), id),
    ensures
        touches(sector_links(l, m), id),
    decreases m - m0,
{
    if m > m0 {
        lemma_sector_links_grow(l, m0, m - 1, id);
        lemma_touches_concat(sector_links(l, m - 1), system_links(l[m - 1], l[m - 1].len() as int), id);
    }
}

/// A link of a planet's routes is a link of the whole sector's routes.
proof fn lemma_planet_touch_lifts(l: Seq<Seq<Seq<Seq<CityNode>>>>, si: int, pi: int, id: EntityId)
    requires
        0 <= si < l.len(),
        0 <= pi < l[si].len(),
        touches(planet_links(l[si][pi], l[si][pi].len() as int), id),
    ensures
        touches(sector_links(l, l.len() as int), id),
{
    let s = l[si];
    let p = s[pi];
    let bridge = match (first_planet_hub(s, pi), planet_hub(p)) {
        (Some(h), Some(ph)) => seq![(h.id, ph.id, RouteTier::Interplanetary)],
        _ => Seq::empty(),
    };
    lemma_touches_concat(system_links(s, pi), planet_links(p, p.len() as int), id);
    lemma_touches_concat(system_links(s, pi) + planet_links(p, p.len() as int), bridge, id);
    lemma_system_links_grow(s, pi + 1, s.len() as int, id);
    lemma_touches_concat(sector_links(l, si), system_links(s, s.len() as int), id);
    lemma_sector_links_grow(l, si + 1, l.len() as int, id);
}

/// Every city of a country with two or more cities is an endpoint of some
/// planned route.
pub proof fn lemma_cities_sharing_a_country_have_routes(
    l: Seq<Seq<Seq<Seq<CityNode>>>>,
    si: int,
    pi: int,
    ci: int,
    k: int,
)
    requires
        0 <= si < l.len(),
        0 <= pi < l[si].len(),
        0 <= ci < l[si][pi].len(),
        l[si][pi][ci].len() >= 2,
        0 <= k < l[si][pi][ci].len(),
    ensures
        touches(sector_links(l, l.len() as int), l[si][pi][ci][k].id),
{
    let p = l[si][pi];
    let c = p[ci];
    let id = c[k].id;
    lemma_local_links_touch(c, k);
    let bridge = match first_country_hub(p, ci) {
        Some(h) => if c.len() > 0 { seq![(h.id, hub(c).id, RouteTier::Regional)] } else { Seq::empty() },
        None => Seq::empty(),
    };
    lemma_touches_concat(planet_links(p, ci), local_links(c), id);
    lemma_touches_concat(planet_links(p, ci) + local_links(c), bridge, id);
    lemma_planet_links_grow(p, ci + 1, p.len() as int, id);
    lemma_planet_touch_lifts(l, si, pi, id);
}

proof fn lemma_first_country_hub_found(p: Seq<Seq<CityNode>>, j: int, m: int)
    requires
        0 <= j < m <= p.len(),
        p[j].len() > 0,
    ensures
        first_country_hub(p, m) is Some,
    decreases m,
{
    if m - 1 > j {
        lemma_first_country_hub_found(p, j, m - 1);
    }
}

proof fn lemma_first_country_hub_stays(p: Seq<Seq<CityNode>>, m0: int, m: int)
    requires
        0 <= m0 <= m,
        first_country_hub(p, m0) is Some,
    ensures
        first_country_hub(p, m) == first_country_hub(p, m0),
    decreases m - m0,
{
    if m > m0 {
        lemma_first_country_hub_stays(p, m0, m - 1);
    }
}

/// The hub of every non-empty country is an endpoint of some planned route
/// when another country on the same planet has a city, however few cities
/// each has.
pub proof fn lemma_country_hubs_are_bridged(
    l: Seq<Seq<Seq<Seq<CityNode>>>>,
    si: int,
    pi: int,
    ci: int,
    other: int,
)
    requires
        0 <= si < l.len(),
        0 <= pi < l[si].len(),
        0 <= ci < l[si][pi].len(),
        0 <= other < l[si][pi].len(),
        ci != other,
        l[si][pi][ci].len() > 0,
        l[si][pi][other].len() > 0,
    ensures
        touches(sector_links(l, l.len() as int), hub(l[si][pi][ci]).id),
{
    let p = l[si][pi];
    let id = hub(p[ci]).id;
    // The country whose bridge carries the hub: its own, or the later one's.
    let j = if first_country_hub(p, ci) is Some { ci } else { other };
    if first_country_hub(p, ci) is None {
        if other < ci {
            lemma_first_country_hub_found(p, other, ci);
        }
        assert(first_country_hub(p, ci + 1) == Some(hub(p[ci])));
        lemma_first_country_hub_stays(p, ci + 1, other);
    }
    let c = p[j];
    let h = first_country_hub(p, j).unwrap();
    let bridge = seq![(h.id, hub(c).id, RouteTier::Regional)];
    assert(bridge[0].0 == id || bridge[0].1 == id);
    assert(planet_links(p, j + 1) == planet_links(p, j) + local_links(c) + bridge);
    lemma_touches_concat(planet_links(p, j) + local_links(c), bridge, id);
    lemma_planet_links_grow(p, j + 1, p.len() as int, id);
    lemma_planet_touch_lifts(l, si, pi, id);
}

proof fn lemma_first_country_hub_source(p: Seq<Seq<CityNode>>, m: int)
    requires
        0 <= m <= p.len(),
    ensures
        first_country_hub(p, m) matches Some(h) ==> exists|j: int| 0 <= j < m && p[j].len() > 0 && h == hub(#[trigger] p[j]),
    decreases m,
{
    if m > 0 {
        lemma_first_country_hub_source(p, m - 1);
        if first_country_hub(p, m - 1) is None && p[m - 1].len() > 0 {
            assert(first_country_hub(p, m) == Some(hub(p[m - 1])));
        }
    }
}

proof fn lemma_first_planet_hub_found(s: Seq<Seq<Seq<CityNode>>>, j: int, m: int)
    requires
        0 <= j < m <= s.len(),
        planet_hub(s[j]) is Some,
    ensures
        first_planet_hub(s, m) is Some,
    decreases m,
{
    if m - 1 > j {
        lemma_first_planet_hub_found(s, j, m - 1);
    }
}

proof fn lemma_first_planet_hub_stays(s: Seq<Seq<Seq<CityNode>>>, m0: int, m: int)
    requires
        0 <= m0 <= m,
        first_planet_hub(s, m0) is Some,
    ensures
        first_planet_hub(s, m) == first_planet_hub(s, m0),
    decreases m - m0,
{
    if m > m0 {
        lemma_first_planet_hub_stays(s, m0, m - 1);
    }
}

/// The hub of every planet that has a city is an endpoint of some planned
/// route when another planet of the same star system has a city.
pub proof fn lemma_planet_hubs_are_bridged(
    l: Seq<Seq<Seq<Seq<CityNode>>>>,
    si: int,
    pi: int,
    other: int,
)
    requires
        0 <= si < l.len(),
        0 <= pi < l[si].len(),
        0 <= other < l[si].len(),
        pi != other,
        planet_hub(l[si][pi]) is Some,
        planet_hub(l[si][other]) is Some,
    ensures
        touches(sector_links(l, l.len() as int), planet_hub(l[si][pi]).unwrap().id),
{
    let s = l[si];
    let id = planet_hub(s[pi]).unwrap().id;
    // The planet whose bridge carries the hub: its own, or the later one's.
    let j = if first_planet_hub(s, pi) is Some { pi } else { other };
    if first_planet_hub(s, pi) is None {
        if other < pi {
            lemma_first_planet_hub_found(s, other, pi);
        }
        assert(first_planet_hub(s, pi + 1) == planet_hub(s[pi]));
        lemma_first_planet_hub_stays(s, pi + 1, other);
    }
    let p = s[j];
    let h = first_planet_hub(s, j).unwrap();
    let ph = planet_hub(p).unwrap();
    let bridge = seq![(h.id, ph.id, RouteTier::Interplanetary)];
    assert(bridge[0].0 == id || bridge[0].1 == id);
    assert(system_links(s, j + 1) == system_links(s, j) + planet_links(p, p.len() as int) + bridge);
    lemma_touches_concat(system_links(s, j) + planet_links(p, p.len() as int), bridge, id);
    lemma_system_links_grow(s, j + 1, s.len() as int, id);
    lemma_touches_concat(sector_links(l, si), system_links(s, s.len() as int), id);
    lemma_sector_links_grow(l, si + 1, l.len() as int, id);
}

/// Every city of a star system that holds at least one other city is an
/// endpoint of some planned route: `(si, pi, ci, k)` locates the city and
/// `(pj, cj, kj)` another city of the same system.
pub proof fn lemma_cities_sharing_a_system_have_routes(
    l: Seq<Seq<Seq<Seq<CityNode>>>>,
    si: int,
    pi: int,
    ci: int,
    k: int,
    pj: int,
    cj: int,
    kj: int,
)
    requires
        0 <= si < l.len(),
        0 <= pi < l[si].len(),
        0 <= ci < l[si][pi].len(),
        0 <= k < l[si][pi][ci].len(),
        0 <= pj < l[si].len(),
        0 <= cj < l[si][pj].len(),
        0 <= kj < l[si][pj][cj].len(),
        (pi, ci, k) != (pj, cj, kj),
    ensures
        touches(sector_links(l, l.len() as int), l[si][pi][ci][k].id),
{
    let s = l[si];
    let p = s[pi];
    let c = p[ci];
    let id = c[k].id;
    if c.len() >= 2 {
        lemma_cities_sharing_a_country_have_routes(l, si, pi, ci, k);
    } else {
        assert(k == 0 && hub(c) == c[0]);
        if pj == pi {
            assert(cj != ci);
            lemma_country_hubs_are_bridged(l, si, pi, ci, cj);
        } else {
            lemma_first_country_hub_found(p, ci, p.len() as int);
            lemma_first_country_hub_source(p, p.len() as int);
            let hp = planet_hub(p).unwrap();
            let j = choose|j: int| 0 <= j < p.len() && p[j].len() > 0 && hp == hub(#[trigger] p[j]);
            if j != ci {
                lemma_country_hubs_are_bridged(l, si, pi, ci, j);
            } else {
                let q = s[pj];
                lemma_first_country_hub_found(q, cj, q.len() as int);
                lemma_planet_hubs_are_bridged(l, si, pi, pj);
            }
        }
    }
}

} // verus!
