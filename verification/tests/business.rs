use sim_core::business::{check_host_city, BusinessArchetype, FoundBusinessError, ParseBusinessArchetypeError};
use sim_core::world::CitySpecialization;

#[test]
fn founding_by_an_unknown_city_id_is_refused() {
    assert_eq!(
        check_host_city(BusinessArchetype::Mining, 999, None),
        Err(FoundBusinessError::UnknownHostCity(999))
    );
}

#[test]
fn founding_in_a_mining_city_succeeds() {
    assert_eq!(
        check_host_city(BusinessArchetype::Mining, 1, Some(CitySpecialization::Mining)),
        Ok(())
    );
}

#[test]
fn founding_in_a_non_mining_city_is_refused() {
    assert_eq!(
        check_host_city(BusinessArchetype::Mining, 1, Some(CitySpecialization::Finance)),
        Err(FoundBusinessError::WrongCitySpecialization {
            archetype: BusinessArchetype::Mining,
            required: CitySpecialization::Mining,
            found: CitySpecialization::Finance,
        })
    );
}

#[test]
fn archetype_names_parse_in_either_case_and_nothing_else() {
    assert_eq!("Mining".parse::<BusinessArchetype>(), Ok(BusinessArchetype::Mining));
    assert_eq!(BusinessArchetype::parse("mining"), Ok(BusinessArchetype::Mining));
    assert_eq!(BusinessArchetype::parse("MINING"), Err(ParseBusinessArchetypeError));
    assert_eq!(BusinessArchetype::parse(""), Err(ParseBusinessArchetypeError));
}

#[test]
fn a_mining_company_requires_a_mining_city() {
    assert_eq!(
        BusinessArchetype::Mining.required_city_specialization(),
        CitySpecialization::Mining
    );
}
