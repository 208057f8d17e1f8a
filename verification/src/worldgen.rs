//! Seeded, reproducible generation of a small starting sector: systems of
//! one or two planets, planets of one or two countries, countries of one to
//! three cities, every entity numbered in generation order and named from
//! small pools. Fractional quantities (government components, wealth,
//! unemployment, the weighted specialization pick) are derived by the host
//! from the raw draws recorded here, each at its place in the stream.

use vstd::prelude::*;
use crate::history::{backstory_from_stream, generate_backstory};
use crate::rng::{SimRng, RngState, lemma_advance_compose, seeded_state, stream_value, xoshiro_advance, xoshiro_output, xoshiro_step};
use crate::text::{decimal, decimal_string};
use crate::world::{EntityId, ResourceTag};

verus! {

/// Hand out the next entity id and advance the counter.
pub fn take_id(next_id: &mut u32) -> (id: u32)
    requires
        *old(next_id) < u32::MAX,
    ensures
        id == *old(next_id),
        *final(next_id) == *old(next_id) + 1,
{
    let id = *next_id;
    *next_id += 1;
    id
}

/// The name an entity with id `id` gets from `pool` at `index`: the pool
/// entry (cycling), followed by a space and the id once ids outgrow the
/// pool, so names stay unique.
pub open spec fn pooled_name(pool: Seq<&'static str>, index: int, id: u32) -> Seq<char> {
    let base = pool[index % (pool.len() as int)]@;
    if id > pool.len() { base + " "@ + decimal(id as nat) } else { base }
}

pub fn name_for(pool: &[&'static str], index: usize, id: u32) -> (name: String)
    requires
        pool@.len() > 0,
    ensures
        name@ == pooled_name(pool@, index as int, id),
{
    let base = pool[index % pool.len()];
    if id as usize > pool.len() {
        let mut name = String::from_str(base);
        name.append(" ");
        let digits = decimal_string(id as u64);
        name.append(digits.as_str());
        name
    } else {
        String::from_str(base)
    }
}

pub open spec fn resource_tag_at(i: int) -> ResourceTag {
    if i == 0 { ResourceTag::MetalRich } else if i == 1 { ResourceTag::Agricultural } else { ResourceTag::Arid }
}

/// A planet's resource tags: exactly one, drawn uniformly.
pub fn generate_resource_tags(rng: &mut SimRng) -> (tags: Vec<ResourceTag>)
    ensures
        tags@ == seq![resource_tag_at((xoshiro_output(old(rng)@) % 3) as int)],
        final(rng)@ == xoshiro_step(old(rng)@),
{
    let i = rng.pick_index(3);
    let tag = match i {
        0 => ResourceTag::MetalRich,
        1 => ResourceTag::Agricultural,
        _ => ResourceTag::Arid,
    };
    let tags = vec![tag];
    assert(tags@ =~= seq![resource_tag_at((xoshiro_output(old(rng)@) % 3) as int)]);
    tags
}


pub open spec fn system_names() -> Seq<&'static str> {
    seq!["Kestrel", "Vantar", "Oridine", "Halcyon"]
}

pub open spec fn planet_names() -> Seq<&'static str> {
    seq!["Prime", "Secundus", "Tertia"]
}

pub open spec fn country_names() -> Seq<&'static str> {
    seq!["Meridian Compact", "Free Cities of Oridine", "Kestrel Union"]
}

pub open spec fn city_names() -> Seq<&'static str> {
    seq!["New Halcyon", "Port Adren", "Ferrous Hold", "Lowmarket", "Stillwater"]
}

fn system_name_pool() -> (pool: [&'static str; 4])
    ensures
        pool@ == system_names(),
{
    let pool = ["Kestrel", "Vantar", "Oridine", "Halcyon"];
    assert(pool@ =~= system_names());
    pool
}

fn planet_name_pool() -> (pool: [&'static str; 3])
    ensures
        pool@ == planet_names(),
{
    let pool = ["Prime", "Secundus", "Tertia"];
    assert(pool@ =~= planet_names());
    pool
}

fn country_name_pool() -> (pool: [&'static str; 3])
    ensures
        pool@ == country_names(),
{
    let pool = ["Meridian Compact", "Free Cities of Oridine", "Kestrel Union"];
    assert(pool@ =~= country_names());
    pool
}

fn city_name_pool() -> (pool: [&'static str; 5])
    ensures
        pool@ == city_names(),
{
    let pool = ["New Halcyon", "Port Adren", "Ferrous Hold", "Lowmarket", "Stillwater"];
    assert(pool@ =~= city_names());
    pool
}

/// A generated city. Its fractional figures come from the raw draws kept
/// here: the weighted specialization pick, average wealth in
/// `[500, 5000)` and unemployment in `[0.02, 0.15)`.
#[derive(Debug, Clone, PartialEq, Eq)]
pub struct CityPlan {
    pub id: EntityId,
    pub name: String,
    pub population_size: u64,
    pub specialization_draw: u64,
    pub wealth_draw: u64,
    pub unemployment_draw: u64,
}

/// A generated country. Its four government components each come from one
/// raw draw (a fraction in `[0, 1)`).
#[derive(Debug, Clone, PartialEq, Eq)]
pub struct CountryPlan {
    pub id: EntityId,
    pub name: String,
    pub backstory: String,
    pub federalism_draw: u64,
    pub franchise_draw: u64,
    pub economic_liberalism_draw: u64,
    pub press_freedom_draw: u64,
    pub cities: Vec<CityPlan>,
}

/// A generated planet.
#[derive(Debug, Clone, PartialEq, Eq)]
pub struct PlanetPlan {
    pub id: EntityId,
    pub name: String,
    pub resource_tags: Vec<ResourceTag>,
    pub countries: Vec<CountryPlan>,
}

/// A generated star system.
#[derive(Debug, Clone, PartialEq, Eq)]
pub struct SystemPlan {
    pub id: EntityId,
    pub name: String,
    pub planets: Vec<PlanetPlan>,
}

/// The city generated from stream state `s` with id `id`: five draws, for
/// its name, specialization, population size, wealth and unemployment.
pub open spec fn city_plan_ok(c: CityPlan, s: RngState, id: int) -> bool {
    &&& c.id == id
    &&& c.name@ == pooled_name(city_names(), (stream_value(s, 0) % 5) as int, id as u32)
    &&& c.specialization_draw == stream_value(s, 1)
    &&& c.population_size == 50_000 + stream_value(s, 2) % 2_000_000
    &&& c.wealth_draw == stream_value(s, 3)
    &&& c.unemployment_draw == stream_value(s, 4)
}

/// How many cities a country generated from state `s` has: one to three.
pub open spec fn city_count_of(s: RngState) -> int {
    1 + (stream_value(s, 7) % 3) as int
}

/// How many draws a country generated from state `s` takes.
pub open spec fn country_draws(s: RngState) -> nat {
    (8 + 5 * city_count_of(s)) as nat
}

/// The country generated from state `s` with id `id`: name, backstory (two
/// draws), four government draws and its city count, then its cities with
/// the following ids.
pub open spec fn country_plan_ok(c: CountryPlan, s: RngState, id: int) -> bool {
    &&& c.id == id
    &&& c.name@ == pooled_name(country_names(), (stream_value(s, 0) % 3) as int, id as u32)
    &&& c.backstory@ == backstory_from_stream(xoshiro_advance(s, 1), c.name@)
    &&& c.federalism_draw == stream_value(s, 3)
    &&& c.franchise_draw == stream_value(s, 4)
    &&& c.economic_liberalism_draw == stream_value(s, 5)
    &&& c.press_freedom_draw == stream_value(s, 6)
    &&& c.cities@.len() == city_count_of(s)
    &&& forall|k: int| 0 <= k < c.cities@.len() ==>
        city_plan_ok(#[trigger] c.cities@[k], xoshiro_advance(s, (8 + 5 * k) as nat), id + 1 + k)
}

/// The stream state and next id after generating `k` countries from state
/// `s` and id `id`.
pub open spec fn after_countries(s: RngState, id: int, k: int) -> (RngState, int)
    decreases k,
{
    if k <= 0 {
        (s, id)
    } else {
        let (s1, i1) = after_countries(s, id, k - 1);
        (xoshiro_advance(s1, country_draws(s1)), i1 + 1 + city_count_of(s1))
    }
}

/// How many countries a planet generated from state `s` has: one or two.
pub open spec fn country_count_of(s: RngState) -> int {
    1 + (stream_value(s, 2) % 2) as int
}

/// The planet generated from state `s` with id `id`: name, one resource
/// tag and its country count, then its countries.
pub open spec fn planet_plan_ok(p: PlanetPlan, s: RngState, id: int) -> bool {
    &&& p.id == id
    &&& p.name@ == pooled_name(planet_names(), (stream_value(s, 0) % 3) as int, id as u32)
    &&& p.resource_tags@ == seq![resource_tag_at((stream_value(s, 1) % 3) as int)]
    &&& p.countries@.len() == country_count_of(s)
    &&& forall|k: int| 0 <= k < p.countries@.len() ==> country_plan_ok(
        #[trigger] p.countries@[k],
        after_countries(xoshiro_advance(s, 3), id + 1, k).0,
        after_countries(xoshiro_advance(s, 3), id + 1, k).1,
    )
}

/// The stream state and next id after generating a planet.
pub open spec fn planet_end(s: RngState, id: int) -> (RngState, int) {
    after_countries(xoshiro_advance(s, 3), id + 1, country_count_of(s))
}

pub open spec fn after_planets(s: RngState, id: int, k: int) -> (RngState, int)
    decreases k,
{
    if k <= 0 {
        (s, id)
    } else {
        let (s1, i1) = after_planets(s, id, k - 1);
        planet_end(s1, i1)
    }
}

/// How many planets a system generated from state `s` has: one or two.
pub open spec fn planet_count_of(s: RngState) -> int {
    1 + (stream_value(s, 0) % 2) as int
}

/// The system at position `index` generated from state `s` with id `id`:
/// named by its position, then its planet count and planets.
pub open spec fn system_plan_ok(sys: SystemPlan, s: RngState, id: int, index: int) -> bool {
    &&& sys.id == id
    &&& sys.name@ == pooled_name(system_names(), index, id as u32)
    &&& sys.planets@.len() == planet_count_of(s)
    &&& forall|k: int| 0 <= k < sys.planets@.len() ==> planet_plan_ok(
        #[trigger] sys.planets@[k],
        after_planets(xoshiro_advance(s, 1), id + 1, k).0,
        after_planets(xoshiro_advance(s, 1), id + 1, k).1,
    )
}

pub open spec fn system_end(s: RngState, id: int) -> (RngState, int) {
    after_planets(xoshiro_advance(s, 1), id + 1, planet_count_of(s))
}

pub open spec fn after_systems(s: RngState, id: int, k: int) -> (RngState, int)
    decreases k,
{
    if k <= 0 {
        (s, id)
    } else {
        let (s1, i1) = after_systems(s, id, k - 1);
        system_end(s1, i1)
    }
}

fn generate_city(rng: &mut SimRng, next_id: &mut u32) -> (c: CityPlan)
    requires
        *old(next_id) < u32::MAX,
    ensures
        city_plan_ok(c, old(rng)@, *old(next_id) as int),
        *final(next_id) == *old(next_id) + 1,
        final(rng)@ == xoshiro_advance(old(rng)@, 5),
{
    let ghost s = rng@;
    proof {
        reveal_with_fuel(xoshiro_advance, 6);
    }
    let id = take_id(next_id);
    let pool = city_name_pool();
    let name_index = rng.pick_index(5);
    let name = name_for(&pool, name_index, id);
    let specialization_draw = rng.next_u64();
    let size_draw = rng.next_below(2_000_000);
    let wealth_draw = rng.next_u64();
    let unemployment_draw = rng.next_u64();
    CityPlan {
        id,
        name,
        population_size: 50_000 + size_draw as u64,
        specialization_draw,
        wealth_draw,
        unemployment_draw,
    }
}

fn generate_country(rng: &mut SimRng, next_id: &mut u32) -> (c: CountryPlan)
    requires
        *old(next_id) + 4 <= u32::MAX,
    ensures
        country_plan_ok(c, old(rng)@, *old(next_id) as int),
        final(rng)@ == xoshiro_advance(old(rng)@, country_draws(old(rng)@)),
        *final(next_id) == *old(next_id) + 1 + city_count_of(old(rng)@),
{
    let ghost s = rng@;
    proof {
        reveal_with_fuel(xoshiro_advance, 9);
    }
    let id = take_id(next_id);
    let pool = country_name_pool();
    let name_index = rng.pick_index(3);
    let name = name_for(&pool, name_index, id);
    assert(rng@ == xoshiro_advance(s, 1));
    let backstory = generate_backstory(rng, name.as_str());
    proof {
        lemma_advance_compose(s, 1, 2);
    }
    let federalism_draw = rng.next_u64();
    let franchise_draw = rng.next_u64();
    let economic_liberalism_draw = rng.next_u64();
    let press_freedom_draw = rng.next_u64();
    let count = 1 + rng.next_below(3);
    assert(rng@ == xoshiro_advance(s, 8));
    let mut cities: Vec<CityPlan> = Vec::new();
    let mut k: u32 = 0;
    while k < count
        invariant
            count as int == city_count_of(s),
            k <= count,
            id as int + 1 + k == *next_id,
            *next_id <= id as int + 1 + k,
            id as int + 4 <= u32::MAX,
            rng@ == xoshiro_advance(s, (8 + 5 * k) as nat),
            cities@.len() == k,
            forall|j: int| 0 <= j < k ==> city_plan_ok(#[trigger] cities@[j], xoshiro_advance(s, (8 + 5 * j) as nat), id + 1 + j),
        decreases count - k,
    {
        let city = generate_city(rng, next_id);
        proof {
            lemma_advance_compose(s, (8 + 5 * k) as nat, 5);
        }
        cities.push(city);
        k += 1;
    }
    CountryPlan {
        id,
        name,
        backstory,
        federalism_draw,
        franchise_draw,
        economic_liberalism_draw,
        press_freedom_draw,
        cities,
    }
}

fn generate_planet(rng: &mut SimRng, next_id: &mut u32) -> (p: PlanetPlan)
    requires
        *old(next_id) + 9 <= u32::MAX,
    ensures
        planet_plan_ok(p, old(rng)@, *old(next_id) as int),
        final(rng)@ == planet_end(old(rng)@, *old(next_id) as int).0,
        *final(next_id) == planet_end(old(rng)@, *old(next_id) as int).1,
        *final(next_id) <= *old(next_id) + 9,
{
    let ghost s = rng@;
    proof {
        reveal_with_fuel(xoshiro_advance, 4);
    }
    let id = take_id(next_id);
    let pool = planet_name_pool();
    let name_index = rng.pick_index(3);
    let name = name_for(&pool, name_index, id);
    let resource_tags = generate_resource_tags(rng);
    let count = 1 + rng.next_below(2);
    let ghost s3 = xoshiro_advance(s, 3);
    assert(rng@ == s3);
    let mut countries: Vec<CountryPlan> = Vec::new();
    let mut k: u32 = 0;
    while k < count
        invariant
            count as int == country_count_of(s),
            count <= 2,
            k <= count,
            s3 == xoshiro_advance(s, 3),
            rng@ == after_countries(s3, id + 1, k as int).0,
            *next_id == after_countries(s3, id + 1, k as int).1,
            *next_id <= id as int + 1 + 4 * k,
            id as int + 9 <= u32::MAX,
            countries@.len() == k,
            forall|j: int| 0 <= j < k ==> country_plan_ok(
                #[trigger] countries@[j],
                after_countries(s3, id + 1, j).0,
                after_countries(s3, id + 1, j).1,
            ),
        decreases count - k,
    {
        let country = generate_country(rng, next_id);
        countries.push(country);
        k += 1;
    }
    PlanetPlan { id, name, resource_tags, countries }
}

fn generate_system(rng: &mut SimRng, next_id: &mut u32, index: u32) -> (sys: SystemPlan)
    requires
        *old(next_id) + 19 <= u32::MAX,
    ensures
        system_plan_ok(sys, old(rng)@, *old(next_id) as int, index as int),
        final(rng)@ == system_end(old(rng)@, *old(next_id) as int).0,
        *final(next_id) == system_end(old(rng)@, *old(next_id) as int).1,
        *final(next_id) <= *old(next_id) + 19,
{
    let ghost s = rng@;
    proof {
        reveal_with_fuel(xoshiro_advance, 2);
    }
    let id = take_id(next_id);
    let pool = system_name_pool();
    let name = name_for(&pool, index as usize, id);
    let count = 1 + rng.next_below(2);
    let ghost s1 = xoshiro_advance(s, 1);
    let mut planets: Vec<PlanetPlan> = Vec::new();
    let mut k: u32 = 0;
    while k < count
        invariant
            count as int == planet_count_of(s),
            count <= 2,
            k <= count,
            s1 == xoshiro_advance(s, 1),
            rng@ == after_planets(s1, id + 1, k as int).0,
            *next_id == after_planets(s1, id + 1, k as int).1,
            *next_id <= id as int + 1 + 9 * k,
            id as int + 19 <= u32::MAX,
            planets@.len() == k,
            forall|j: int| 0 <= j < k ==> planet_plan_ok(
                #[trigger] planets@[j],
                after_planets(s1, id + 1, j).0,
                after_planets(s1, id + 1, j).1,
            ),
        decreases count - k,
    {
        let planet = generate_planet(rng, next_id);
        planets.push(planet);
        k += 1;
    }
    SystemPlan { id, name, planets }
}

/// Generates a sector of `system_count` systems from `seed`, on the
/// `"worldgen"` stream: system by system, each numbered and drawn from where
/// the previous one left off, ids counting up from 1 in generation order.
pub fn plan_sector(seed: u64, system_count: u32) -> (systems: Vec<SystemPlan>)
    requires
        1 + 19 * (system_count as int) <= u32::MAX,
    ensures
        systems@.len() == system_count,
        forall|k: int| 0 <= k < system_count ==> system_plan_ok(
            #[trigger] systems@[k],
            after_systems(seeded_state(seed, "worldgen"@), 1, k).0,
            after_systems(seeded_state(seed, "worldgen"@), 1, k).1,
            k,
        ),
{
    let mut rng = SimRng::from_seed(seed, "worldgen");
    let ghost s0 = rng@;
    let mut next_id: u32 = 1;
    let mut systems: Vec<SystemPlan> = Vec::new();
    let mut i: u32 = 0;
    while i < system_count
        invariant
            i <= system_count,
            1 + 19 * (system_count as int) <= u32::MAX,
            s0 == seeded_state(seed, "worldgen"@),
            rng@ == after_systems(s0, 1, i as int).0,
            next_id == after_systems(s0, 1, i as int).1,
            next_id <= 1 + 19 * i,
            systems@.len() == i,
            forall|j: int| 0 <= j < i ==> system_plan_ok(
                #[trigger] systems@[j],
                after_systems(s0, 1, j).0,
                after_systems(s0, 1, j).1,
                j,
            ),
        decreases system_count - i,
    {
        let system = generate_system(&mut rng, &mut next_id, i);
        systems.push(system);
        i += 1;
    }
    systems
}

/// The integers `lo, lo + 1, ..., hi - 1`.
pub open spec fn id_range(lo: int, hi: int) -> Seq<int> {
    Seq::new((hi - lo) as nat, |i: int| lo + i)
}

/// A country's id, then its cities' ids, in generation order.
pub open spec fn country_ids(c: CountryPlan) -> Seq<int> {
    seq![c.id as int] + Seq::new(c.cities@.len(), |k: int| c.cities@[k].id as int)
}

/// The ids of the first `k` countries, in generation order.
pub open spec fn countries_ids(cs: Seq<CountryPlan>, k: int) -> Seq<int>
    decreases k,
{
    if k <= 0 { Seq::empty() } else { countries_ids(cs, k - 1) + country_ids(cs[k - 1]) }
}

/// A planet's id, then its countries' ids, in generation order.
pub open spec fn planet_ids(p: PlanetPlan) -> Seq<int> {
    seq![p.id as int] + countries_ids(p.countries@, p.countries@.len() as int)
}

pub open spec fn planets_ids(ps: Seq<PlanetPlan>, k: int) -> Seq<int>
    decreases k,
{
    if k <= 0 { Seq::empty() } else { planets_ids(ps, k - 1) + planet_ids(ps[k - 1]) }
}

/// A system's id, then its planets' ids, in generation order.
pub open spec fn system_ids(sys: SystemPlan) -> Seq<int> {
    seq![sys.id as int] + planets_ids(sys.planets@, sys.planets@.len() as int)
}

/// Every id of a sector, system by system, in generation order.
pub open spec fn sector_ids(systems: Seq<SystemPlan>, k: int) -> Seq<int>
    decreases k,
{
    if k <= 0 { Seq::empty() } else { sector_ids(systems, k - 1) + system_ids(systems[k - 1]) }
}

proof fn lemma_id_range_concat(a: int, b: int, c: int)
    requires
        a <= b <= c,
    ensures
        id_range(a, b) + id_range(b, c) == id_range(a, c),
{
    assert(id_range(a, b) + id_range(b, c) =~= id_range(a, c));
}

proof fn lemma_country_ids(c: CountryPlan, s: RngState, id: int)
    requires
        country_plan_ok(c, s, id),
    ensures
        country_ids(c) == id_range(id, id + 1 + city_count_of(s)),
{
    assert(country_ids(c) =~= id_range(id, id + 1 + city_count_of(s)));
}

proof fn lemma_countries_ids(cs: Seq<CountryPlan>, s: RngState, id: int, k: int)
    requires
        0 <= k <= cs.len(),
        forall|j: int| 0 <= j < cs.len() ==> country_plan_ok(#[trigger] cs[j], after_countries(s, id, j).0, after_countries(s, id, j).1),
    ensures
        countries_ids(cs, k) == id_range(id, after_countries(s, id, k).1),
        after_countries(s, id, k).1 >= id,
    decreases k,
{
    if k == 0 {
        assert(id_range(id, id) =~= Seq::<int>::empty());
    } else {
        lemma_countries_ids(cs, s, id, k - 1);
        let (s1, i1) = after_countries(s, id, k - 1);
        lemma_country_ids(cs[k - 1], s1, i1);
        lemma_id_range_concat(id, i1, i1 + 1 + city_count_of(s1));
    }
}

proof fn lemma_planet_ids(p: PlanetPlan, s: RngState, id: int)
    requires
        planet_plan_ok(p, s, id),
    ensures
        planet_ids(p) == id_range(id, planet_end(s, id).1),
        planet_end(s, id).1 > id,
{
    lemma_countries_ids(p.countries@, xoshiro_advance(s, 3), id + 1, p.countries@.len() as int);
    assert(seq![id] =~= id_range(id, id + 1));
    lemma_id_range_concat(id, id + 1, planet_end(s, id).1);
}

proof fn lemma_planets_ids(ps: Seq<PlanetPlan>, s: RngState, id: int, k: int)
    requires
        0 <= k <= ps.len(),
        forall|j: int| 0 <= j < ps.len() ==> planet_plan_ok(#[trigger] ps[j], after_planets(s, id, j).0, after_planets(s, id, j).1),
    ensures
        planets_ids(ps, k) == id_range(id, after_planets(s, id, k).1),
        after_planets(s, id, k).1 >= id,
    decreases k,
{
    if k == 0 {
        assert(id_range(id, id) =~= Seq::<int>::empty());
    } else {
        lemma_planets_ids(ps, s, id, k - 1);
        let (s1, i1) = after_planets(s, id, k - 1);
        lemma_planet_ids(ps[k - 1], s1, i1);
        lemma_id_range_concat(id, i1, planet_end(s1, i1).1);
    }
}

proof fn lemma_system_ids(sys: SystemPlan, s: RngState, id: int, index: int)
    requires
        system_plan_ok(sys, s, id, index),
    ensures
        system_ids(sys) == id_range(id, system_end(s, id).1),
        system_end(s, id).1 > id,
{
    lemma_planets_ids(sys.planets@, xoshiro_advance(s, 1), id + 1, sys.planets@.len() as int);
    assert(seq![id] =~= id_range(id, id + 1));
    lemma_id_range_concat(id, id + 1, system_end(s, id).1);
}

/// Every entity of a generated sector has an id of its own: listed in
/// generation order (each system, then each of its planets, then each of
/// their countries followed by its cities), the ids are 1, 2, 3, ... with
/// no gap and no repeat.
pub proof fn lemma_entities_are_numbered_in_generation_order(seed: u64, systems: Seq<SystemPlan>)
    requires
        forall|k: int| 0 <= k < systems.len() ==> system_plan_ok(
            #[trigger] systems[k],
            after_systems(seeded_state(seed, "worldgen"@), 1, k).0,
            after_systems(seeded_state(seed, "worldgen"@), 1, k).1,
            k,
        ),
    ensures
        sector_ids(systems, systems.len() as int)
            == id_range(1, after_systems(seeded_state(seed, "worldgen"@), 1, systems.len() as int).1),
{
    lemma_sector_ids(seeded_state(seed, "worldgen"@), systems, systems.len() as int);
}

proof fn lemma_sector_ids(s: RngState, systems: Seq<SystemPlan>, k: int)
    requires
        0 <= k <= systems.len(),
        forall|j: int| 0 <= j < systems.len() ==> system_plan_ok(
            #[trigger] systems[j], after_systems(s, 1, j).0, after_systems(s, 1, j).1, j),
    ensures
        sector_ids(systems, k) == id_range(1, after_systems(s, 1, k).1),
        after_systems(s, 1, k).1 >= 1,
    decreases k,
{
    if k == 0 {
        assert(id_range(1, 1) =~= Seq::<int>::empty());
    } else {
        lemma_sector_ids(s, systems, k - 1);
        let (s1, i1) = after_systems(s, 1, k - 1);
        lemma_system_ids(systems[k - 1], s1, i1, k - 1);
        lemma_id_range_concat(1, i1, system_end(s1, i1).1);
    }
}

/// A generated country has one to three cities: one more than its
/// city-count draw (the eighth draw of its stream) leaves over after
/// division by three, so each of one, two and three cities comes from a
/// third of the draws, and a draw leaving two gives three cities.
pub proof fn lemma_countries_have_one_to_three_cities(c: CountryPlan, s: RngState, id: int)
    requires
        country_plan_ok(c, s, id),
    ensures
        1 <= c.cities@.len() <= 3,
        c.cities@.len() - 1 == stream_value(s, 7) % 3,
        stream_value(s, 7) % 3 == 2 ==> c.cities@.len() == 3,
{
}

/// A generated planet has one or two countries: one more than the parity
/// of its country-count draw (the third draw of its stream).
pub proof fn lemma_planets_have_one_or_two_countries(p: PlanetPlan, s: RngState, id: int)
    requires
        planet_plan_ok(p, s, id),
    ensures
        1 <= p.countries@.len() <= 2,
        p.countries@.len() - 1 == stream_value(s, 2) % 2,
{
}

/// A generated star system has one or two planets: one more than the
/// parity of its first draw.
pub proof fn lemma_systems_have_one_or_two_planets(sys: SystemPlan, s: RngState, id: int, index: int)
    requires
        system_plan_ok(sys, s, id, index),
    ensures
        1 <= sys.planets@.len() <= 2,
        sys.planets@.len() - 1 == stream_value(s, 0) % 2,
{
}

/// A generated city starts with 50,000 to 2,049,999 people: 50,000 plus its
/// population draw (its third) reduced below 2,000,000.
pub proof fn lemma_city_populations_are_in_range(c: CityPlan, s: RngState, id: int)
    requires
        city_plan_ok(c, s, id),
    ensures
        50_000 <= c.population_size < 2_050_000,
        c.population_size - 50_000 == stream_value(s, 2) % 2_000_000,
{
}

} // verus!
