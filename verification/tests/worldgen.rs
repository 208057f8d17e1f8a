use sim_core::rng::SimRng;
use sim_core::world::{next_entity_id, ResourceTag};
use sim_core::worldgen::{generate_resource_tags, name_for, plan_sector, take_id, SystemPlan};

#[test]
fn ids_are_handed_out_sequentially() {
    let mut next_id = 1;
    assert_eq!(take_id(&mut next_id), 1);
    assert_eq!(take_id(&mut next_id), 2);
    assert_eq!(next_id, 3);
}

#[test]
fn names_gain_the_id_once_ids_outgrow_the_pool() {
    let pool = ["Prime", "Secundus", "Tertia"];
    assert_eq!(name_for(&pool, 1, 2), "Secundus");
    assert_eq!(name_for(&pool, 4, 3), "Secundus");
    assert_eq!(name_for(&pool, 0, 4), "Prime 4");
}

#[test]
fn every_planet_gets_exactly_one_resource_tag() {
    let mut rng = SimRng::from_seed(2024, "worldgen");
    let mut seen = std::collections::HashSet::new();
    for _ in 0..200 {
        let tags = generate_resource_tags(&mut rng);
        assert_eq!(tags.len(), 1);
        seen.insert(format!("{:?}", tags[0]));
    }
    assert_eq!(seen.len(), 3);
    let _ = ResourceTag::Arid;
}


fn all_ids(systems: &[SystemPlan]) -> Vec<u32> {
    let mut ids = Vec::new();
    for s in systems {
        ids.push(s.id);
        for p in &s.planets {
            ids.push(p.id);
            for c in &p.countries {
                ids.push(c.id);
                for city in &c.cities {
                    ids.push(city.id);
                }
            }
        }
    }
    ids
}

#[test]
fn same_seed_produces_an_identical_sector() {
    assert_eq!(plan_sector(1234, 3), plan_sector(1234, 3));
}

#[test]
fn worldgen_different_seeds_usually_diverge() {
    assert_ne!(plan_sector(1, 3), plan_sector(2, 3));
}

#[test]
fn requested_system_count_is_respected() {
    assert_eq!(plan_sector(99, 4).len(), 4);
    assert!(plan_sector(99, 0).is_empty());
}

#[test]
fn generated_population_groups_are_valid() {
    for s in plan_sector(55, 3) {
        for p in s.planets {
            for c in p.countries {
                for city in c.cities {
                    assert!((50_000..2_050_000).contains(&city.population_size), "city {}", city.name);
                }
            }
        }
    }
}

#[test]
fn every_planet_has_at_least_one_resource_tag() {
    for s in plan_sector(2024, 4) {
        for p in s.planets {
            assert_eq!(p.resource_tags.len(), 1, "planet {}", p.name);
        }
    }
}

#[test]
fn same_seed_produces_the_same_resource_tags() {
    let tags = |seed| -> Vec<Vec<ResourceTag>> {
        plan_sector(seed, 3).into_iter().flat_map(|s| s.planets.into_iter().map(|p| p.resource_tags)).collect()
    };
    assert_eq!(tags(777), tags(777));
}

#[test]
fn same_seed_produces_the_same_country_backstories() {
    let stories = |seed| -> Vec<String> {
        plan_sector(seed, 3)
            .into_iter()
            .flat_map(|s| s.planets)
            .flat_map(|p| p.countries)
            .map(|c| c.backstory)
            .collect()
    };
    assert_eq!(stories(4040), stories(4040));
}

#[test]
fn every_country_gets_a_non_empty_backstory_naming_itself() {
    for s in plan_sector(4141, 4) {
        for p in s.planets {
            for c in p.countries {
                assert!(!c.backstory.is_empty());
                assert!(c.backstory.starts_with(&c.name), "{} / {}", c.name, c.backstory);
            }
        }
    }
}

#[test]
fn entities_are_numbered_in_generation_order_from_one() {
    for seed in [1u64, 7, 2024] {
        let ids = all_ids(&plan_sector(seed, 4));
        let expected: Vec<u32> = (1..=ids.len() as u32).collect();
        assert_eq!(ids, expected);
    }
}

#[test]
fn counts_stay_within_their_ranges_and_names_come_from_the_pools() {
    let systems = plan_sector(31, 4);
    let system_names = ["Kestrel", "Vantar", "Oridine", "Halcyon"];
    for (i, s) in systems.iter().enumerate() {
        assert!(s.name.starts_with(system_names[i]));
        assert!((1..=2).contains(&s.planets.len()));
        for p in &s.planets {
            assert!((1..=2).contains(&p.countries.len()));
            for c in &p.countries {
                assert!((1..=3).contains(&c.cities.len()));
            }
        }
    }
}

#[test]
fn the_first_city_is_drawn_right_after_its_country() {
    // Name, backstory (two draws), four government draws and the city
    // count come first; the first city's five draws follow.
    let systems = plan_sector(8, 1);
    let mut rng = SimRng::from_seed(8, "worldgen");
    rng.next_u64(); // planet count
    rng.next_u64(); // planet name
    rng.next_u64(); // resource tag
    rng.next_u64(); // country count
    for _ in 0..8 {
        rng.next_u64();
    }
    rng.next_u64(); // city name
    let specialization_draw = rng.next_u64();
    let size = 50_000 + rng.next_u64() % 2_000_000;
    let city = &systems[0].planets[0].countries[0].cities[0];
    assert_eq!(city.specialization_draw, specialization_draw);
    assert_eq!(city.population_size, size);
}

#[test]
fn a_new_entity_gets_one_past_the_highest_id() {
    assert_eq!(next_entity_id(&[]), 1);
    assert_eq!(next_entity_id(&[4, 9, 2]), 10);
}
