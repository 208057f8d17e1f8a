//! Businesses a dynasty can found and run: the archetype table and the
//! founding rules. Net income and book value are fractional quantities
//! computed outside this crate.

use vstd::prelude::*;
use crate::text::str_eq;
use crate::world::{CitySpecialization, EntityId};

verus! {

/// A business archetype. Each archetype carries its own required host city
/// specialization and economics.
#[derive(Debug, Clone, Copy, PartialEq, Eq, Structural)]
pub enum BusinessArchetype {
    Mining,
}

/// Failure parsing a [`BusinessArchetype`] from a string.
#[derive(Debug, Clone, Copy, PartialEq, Eq, Structural)]
pub struct ParseBusinessArchetypeError;

/// The archetype a string names, if any: `"Mining"` or `"mining"`.
pub open spec fn archetype_named(value: Seq<char>) -> Option<BusinessArchetype> {
    if value == "Mining"@ || value == "mining"@ {
        Some(BusinessArchetype::Mining)
    } else {
        None
    }
}

/// The specialization a host city of `archetype` must have.
pub open spec fn required_specialization(archetype: BusinessArchetype) -> CitySpecialization {
    match archetype {
        BusinessArchetype::Mining => CitySpecialization::Mining,
    }
}

impl BusinessArchetype {
    /// Parse an archetype name (as passed across the UI boundary).
    pub fn parse(value: &str) -> (r: Result<Self, ParseBusinessArchetypeError>)
        ensures
            r == match archetype_named(value@) {
                Some(a) => Ok::<BusinessArchetype, ParseBusinessArchetypeError>(a),
                None => Err(ParseBusinessArchetypeError),
            },
    {
        if str_eq(value, "Mining") || str_eq(value, "mining") {
            Ok(BusinessArchetype::Mining)
        } else {
            Err(ParseBusinessArchetypeError)
        }
    }

    /// The city specialization a business of this archetype must be founded
    /// in: a mining company needs a city organized around extraction.
    pub fn required_city_specialization(&self) -> (s: CitySpecialization)
        ensures
            s == required_specialization(*self),
    {
        match self {
            BusinessArchetype::Mining => CitySpecialization::Mining,
        }
    }
}

impl std::str::FromStr for BusinessArchetype {
    type Err = ParseBusinessArchetypeError;

    fn from_str(value: &str) -> (r: Result<Self, Self::Err>)
        ensures
            r == match archetype_named(value@) {
                Some(a) => Ok::<BusinessArchetype, ParseBusinessArchetypeError>(a),
                None => Err(ParseBusinessArchetypeError),
            },
    {
        Self::parse(value)
    }
}

/// Why founding a business was refused.
#[derive(Debug, Clone, Copy, PartialEq, Eq, Structural)]
pub enum FoundBusinessError {
    /// The host city's specialization doesn't match what the archetype
    /// requires.
    WrongCitySpecialization {
        archetype: BusinessArchetype,
        required: CitySpecialization,
        found: CitySpecialization,
    },
    /// The host city id doesn't resolve to any city in the sector.
    UnknownHostCity(EntityId),
}

/// The founding rule for a business of `archetype` in the city with id
/// `host_city_id`, given that city's specialization (`None` when the id
/// doesn't resolve). Refused for an unknown city, or a city whose
/// specialization isn't the one the archetype requires; accepted otherwise.
pub fn check_host_city(
    archetype: BusinessArchetype,
    host_city_id: EntityId,
    host_specialization: Option<CitySpecialization>,
) -> (r: Result<(), FoundBusinessError>)
    ensures
        r == match host_specialization {
            None => Err::<(), FoundBusinessError>(FoundBusinessError::UnknownHostCity(host_city_id)),
            Some(found) => if found == required_specialization(archetype) {
                Ok(())
            } else {
                Err(FoundBusinessError::WrongCitySpecialization {
                    archetype,
                    required: required_specialization(archetype),
                    found,
                })
            },
        },
{
    match host_specialization {
        None => Err(FoundBusinessError::UnknownHostCity(host_city_id)),
        Some(found) => {
            let required = archetype.required_city_specialization();
            if found != required {
                Err(FoundBusinessError::WrongCitySpecialization { archetype, required, found })
            } else {
                Ok(())
            }
        },
    }
}

} // verus!
