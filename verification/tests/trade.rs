use std::collections::HashSet;

use sim_core::trade::{plan_trade_routes, CityNode, PlannedRoute, RouteTier};

fn city(id: u32, population: u64) -> CityNode {
    CityNode { id, population }
}

/// Two systems: the first with two planets (three countries, then one),
/// the second with a single one-city country on its only planet.
fn sample_layout() -> Vec<Vec<Vec<Vec<CityNode>>>> {
    vec![
        vec![
            vec![
                vec![city(1, 500), city(2, 900), city(3, 100)],
                vec![],
                vec![city(4, 50), city(5, 50)],
            ],
            vec![vec![city(6, 10)]],
        ],
        vec![vec![vec![city(7, 70)]]],
    ]
}

fn all_city_ids(layout: &[Vec<Vec<Vec<CityNode>>>]) -> Vec<u32> {
    layout
        .iter()
        .flatten()
        .flatten()
        .flatten()
        .map(|c| c.id)
        .collect()
}

fn route(id: u32, a: u32, b: u32, tier: RouteTier) -> PlannedRoute {
    PlannedRoute { id, city_a_id: a, city_b_id: b, tier }
}

#[test]
fn the_sample_sector_plans_exactly_these_routes() {
    let routes = plan_trade_routes(&sample_layout());
    assert_eq!(
        routes,
        vec![
            route(1, 1, 2, RouteTier::Local),
            route(2, 1, 3, RouteTier::Local),
            route(3, 2, 3, RouteTier::Local),
            route(4, 4, 5, RouteTier::Local),
            // Country hubs: city 2 (most populous) and city 5 (the later of a tie).
            route(5, 2, 5, RouteTier::Regional),
            route(6, 2, 6, RouteTier::Interplanetary),
        ]
    );
}

#[test]
fn every_route_endpoint_references_a_real_city() {
    let layout = sample_layout();
    let city_ids = all_city_ids(&layout);
    for route in plan_trade_routes(&layout) {
        assert!(city_ids.contains(&route.city_a_id), "route {} has unknown city_a_id", route.id);
        assert!(city_ids.contains(&route.city_b_id), "route {} has unknown city_b_id", route.id);
    }
}

#[test]
fn every_city_appears_in_at_least_one_route() {
    // Drop the lone city of the second system, which has no other city to
    // trade with; every other city is covered.
    let mut layout = sample_layout();
    layout.pop();
    let routes = plan_trade_routes(&layout);
    let mut endpoints = HashSet::new();
    for route in &routes {
        endpoints.insert(route.city_a_id);
        endpoints.insert(route.city_b_id);
    }
    for city_id in all_city_ids(&layout) {
        assert!(endpoints.contains(&city_id), "city {city_id} has no trade route at all");
    }
}

#[test]
fn route_ids_are_unique() {
    let routes = plan_trade_routes(&sample_layout());
    let ids: HashSet<u32> = routes.iter().map(|r| r.id).collect();
    assert_eq!(ids.len(), routes.len(), "expected every route id to be unique");
    for (k, route) in routes.iter().enumerate() {
        assert_eq!(route.id as usize, k + 1);
    }
}

#[test]
fn a_single_city_country_still_gets_bridged_into_a_route_when_another_country_exists() {
    let layout = vec![vec![vec![vec![city(1, 10_000)], vec![city(2, 10_000)]]]];
    let routes = plan_trade_routes(&layout);
    assert_eq!(routes.len(), 1);
    let route = routes[0];
    let endpoints = [route.city_a_id, route.city_b_id];
    assert!(endpoints.contains(&1) && endpoints.contains(&2));
    assert_eq!(route.tier, RouteTier::Regional);
}

#[test]
fn an_empty_sector_or_a_lone_city_plans_no_route() {
    assert!(plan_trade_routes(&vec![]).is_empty());
    assert!(plan_trade_routes(&vec![vec![vec![vec![city(1, 5)]]]]).is_empty());
    assert!(plan_trade_routes(&vec![vec![vec![], vec![vec![]]]]).is_empty());
}

#[test]
fn systems_are_never_bridged_to_each_other() {
    let layout = vec![
        vec![vec![vec![city(1, 5)]]],
        vec![vec![vec![city(2, 5)]]],
    ];
    assert!(plan_trade_routes(&layout).is_empty());
}

#[test]
fn a_planet_hub_is_its_first_non_empty_countrys_hub() {
    let layout = vec![vec![
        vec![vec![], vec![city(1, 1), city(2, 3)], vec![city(3, 99)]],
        vec![vec![city(4, 1)]],
    ]];
    let routes = plan_trade_routes(&layout);
    assert_eq!(
        routes,
        vec![
            route(1, 1, 2, RouteTier::Local),
            route(2, 2, 3, RouteTier::Regional),
            route(3, 2, 4, RouteTier::Interplanetary),
        ]
    );
}
