//! Plain identifiers and categorical tags of the Sector -> StarSystem ->
//! Planet -> Country -> City hierarchy.

use vstd::prelude::*;
use crate::birth::max_id;
use crate::text::str_eq;

verus! {

pub type EntityId = u32;

/// A small fixed set of planet-level resource characteristics, biasing
/// which city specialization worldgen picks for the planet's cities.
#[derive(Debug, Clone, Copy, PartialEq, Eq, Structural)]
pub enum ResourceTag {
    MetalRich,
    Agricultural,
    Arid,
}

/// The fixed set of tradeable resources tracked per planet.
#[derive(Debug, Clone, Copy, PartialEq, Eq, Hash, Structural)]
pub enum ResourceKind {
    Ore,
    Hydrocarbons,
    RareElements,
}

/// Every `ResourceKind`, in the fixed order abundance tables list them.
pub fn all_resource_kinds() -> (kinds: [ResourceKind; 3])
    ensures
        kinds@ == seq![ResourceKind::Ore, ResourceKind::Hydrocarbons, ResourceKind::RareElements],
{
    let kinds = [ResourceKind::Ore, ResourceKind::Hydrocarbons, ResourceKind::RareElements];
    assert(kinds@ =~= seq![ResourceKind::Ore, ResourceKind::Hydrocarbons, ResourceKind::RareElements]);
    kinds
}

/// A city's broad economic specialization.
#[derive(Debug, Clone, Copy, PartialEq, Eq, Structural)]
pub enum CitySpecialization {
    Mining,
    Manufacturing,
    Finance,
    Research,
    Logistics,
}

/// The id for a new entity of a kind whose existing ids are `ids`: one past
/// the highest (1 when there are none), so it is never one of them.
pub fn next_entity_id(ids: &[EntityId]) -> (id: EntityId)
    requires
        max_id(ids@, ids@.len() as int) < u32::MAX,
    ensures
        id as int == max_id(ids@, ids@.len() as int) + 1,
        !ids@.contains(id),
{
    let mut highest: u32 = 0;
    let mut i: usize = 0;
    while i < ids.len()
        invariant
            i <= ids@.len(),
            highest as int == max_id(ids@, i as int),
            forall|j: int| 0 <= j < i ==> ids@[j] <= highest,
        decreases ids@.len() - i,
    {
        if ids[i] > highest {
            highest = ids[i];
        }
        i += 1;
    }
    highest + 1
}

/// One component of a government profile that lobbying can shift.
#[derive(Debug, Clone, Copy, PartialEq, Eq, Structural)]
pub enum GovernmentComponent {
    Federalism,
    Franchise,
    EconomicLiberalism,
    PressFreedom,
    LegislativeStrength,
    JudicialIndependence,
}

/// Which way lobbying pushes a component.
#[derive(Debug, Clone, Copy, PartialEq, Eq, Structural)]
pub enum PolicyDirection {
    Increase,
    Decrease,
}

/// The component a name denotes, in snake case or as the variant's name.
pub open spec fn component_named(value: Seq<char>) -> Option<GovernmentComponent> {
    if value == "federalism"@ || value == "Federalism"@ {
        Some(GovernmentComponent::Federalism)
    } else if value == "franchise"@ || value == "Franchise"@ {
        Some(GovernmentComponent::Franchise)
    } else if value == "economic_liberalism"@ || value == "EconomicLiberalism"@ {
        Some(GovernmentComponent::EconomicLiberalism)
    } else if value == "press_freedom"@ || value == "PressFreedom"@ {
        Some(GovernmentComponent::PressFreedom)
    } else if value == "legislative_strength"@ || value == "LegislativeStrength"@ {
        Some(GovernmentComponent::LegislativeStrength)
    } else if value == "judicial_independence"@ || value == "JudicialIndependence"@ {
        Some(GovernmentComponent::JudicialIndependence)
    } else {
        None
    }
}

/// The direction a name denotes, in lower case or as the variant's name.
pub open spec fn direction_named(value: Seq<char>) -> Option<PolicyDirection> {
    if value == "increase"@ || value == "Increase"@ {
        Some(PolicyDirection::Increase)
    } else if value == "decrease"@ || value == "Decrease"@ {
        Some(PolicyDirection::Decrease)
    } else {
        None
    }
}

impl GovernmentComponent {
    /// Parse a component name (as passed across the UI boundary).
    pub fn parse(value: &str) -> (r: Option<Self>)
        ensures
            r == component_named(value@),
    {
        if str_eq(value, "federalism") || str_eq(value, "Federalism") {
            Some(GovernmentComponent::Federalism)
        } else if str_eq(value, "franchise") || str_eq(value, "Franchise") {
            Some(GovernmentComponent::Franchise)
        } else if str_eq(value, "economic_liberalism") || str_eq(value, "EconomicLiberalism") {
            Some(GovernmentComponent::EconomicLiberalism)
        } else if str_eq(value, "press_freedom") || str_eq(value, "PressFreedom") {
            Some(GovernmentComponent::PressFreedom)
        } else if str_eq(value, "legislative_strength") || str_eq(value, "LegislativeStrength") {
            Some(GovernmentComponent::LegislativeStrength)
        } else if str_eq(value, "judicial_independence") || str_eq(value, "JudicialIndependence") {
            Some(GovernmentComponent::JudicialIndependence)
        } else {
            None
        }
    }
}

impl PolicyDirection {
    /// Parse a direction name (as passed across the UI boundary).
    pub fn parse(value: &str) -> (r: Option<Self>)
        ensures
            r == direction_named(value@),
    {
        if str_eq(value, "increase") || str_eq(value, "Increase") {
            Some(PolicyDirection::Increase)
        } else if str_eq(value, "decrease") || str_eq(value, "Decrease") {
            Some(PolicyDirection::Decrease)
        } else {
            None
        }
    }
}

} // verus!
