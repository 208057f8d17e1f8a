use sim_core::world::{GovernmentComponent, PolicyDirection};

#[test]
fn government_components_parse_by_either_spelling() {
    assert_eq!(GovernmentComponent::parse("federalism"), Some(GovernmentComponent::Federalism));
    assert_eq!(GovernmentComponent::parse("PressFreedom"), Some(GovernmentComponent::PressFreedom));
    assert_eq!(GovernmentComponent::parse("economic_liberalism"), Some(GovernmentComponent::EconomicLiberalism));
    assert_eq!(GovernmentComponent::parse("JudicialIndependence"), Some(GovernmentComponent::JudicialIndependence));
    assert_eq!(GovernmentComponent::parse("Press Freedom"), None);
    assert_eq!(GovernmentComponent::parse(""), None);
}

#[test]
fn policy_directions_parse_by_either_spelling() {
    assert_eq!(PolicyDirection::parse("increase"), Some(PolicyDirection::Increase));
    assert_eq!(PolicyDirection::parse("Decrease"), Some(PolicyDirection::Decrease));
    assert_eq!(PolicyDirection::parse("up"), None);
}
