use sim_core::census::{cities_of, city_count, total_population};
use sim_core::trade::CityNode;

fn city(id: u32, population: u64) -> CityNode {
    CityNode { id, population }
}

#[test]
fn a_sector_is_counted_city_by_city_in_order() {
    let layout = vec![
        vec![vec![vec![city(1, 100), city(2, 50)], vec![]], vec![vec![city(3, 7)]]],
        vec![],
        vec![vec![vec![city(4, 1)]]],
    ];
    assert_eq!(cities_of(&layout).iter().map(|c| c.id).collect::<Vec<_>>(), vec![1, 2, 3, 4]);
    assert_eq!(city_count(&layout), 4);
    assert_eq!(total_population(&layout), Some(158));
}

#[test]
fn an_empty_sector_has_no_cities_and_no_people() {
    let layout: Vec<Vec<Vec<Vec<CityNode>>>> = vec![vec![vec![]]];
    assert_eq!(city_count(&layout), 0);
    assert_eq!(total_population(&layout), Some(0));
}

#[test]
fn a_population_past_u64_is_reported_as_not_fitting() {
    let layout = vec![vec![vec![vec![city(1, u64::MAX), city(2, 1)]]]];
    assert_eq!(total_population(&layout), None);
}
