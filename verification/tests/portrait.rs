use sim_core::portrait::{
    Build, EyeColor, HairColor, HairStyle, PortraitDescriptor, SkinTone, MAX_HEIGHT_CM, MIN_HEIGHT_CM,
};
use sim_core::rng::SimRng;

#[test]
fn same_seed_and_character_id_generate_the_same_descriptor() {
    let a = PortraitDescriptor::generate_for_character(42, 7);
    let b = PortraitDescriptor::generate_for_character(42, 7);
    assert_eq!(a, b);
}

#[test]
fn different_character_ids_diverge_even_with_the_same_seed() {
    let a = PortraitDescriptor::generate_for_character(42, 1);
    let b = PortraitDescriptor::generate_for_character(42, 2);
    assert_ne!(a, b);
}

#[test]
fn generating_one_characters_portrait_does_not_affect_a_sibling() {
    let alone = PortraitDescriptor::generate_for_character(99, 5);

    let _ = PortraitDescriptor::generate_for_character(99, 1);
    let _ = PortraitDescriptor::generate_for_character(99, 2);
    let _ = PortraitDescriptor::generate_for_character(99, 3);
    let after_siblings = PortraitDescriptor::generate_for_character(99, 5);

    assert_eq!(alone, after_siblings);
}

#[test]
fn height_stays_within_the_plausible_adult_range() {
    for id in 0..500 {
        let descriptor = PortraitDescriptor::generate_for_character(1, id);
        assert!(descriptor.height_cm >= MIN_HEIGHT_CM);
        assert!(descriptor.height_cm <= MAX_HEIGHT_CM);
    }
}

#[test]
fn a_known_character_gets_its_exact_descriptor() {
    let descriptor = PortraitDescriptor::generate_for_character(42, 7);
    assert_eq!(
        descriptor,
        PortraitDescriptor {
            skin_tone: SkinTone::Tan,
            hair_color: HairColor::Brown,
            hair_style: HairStyle::Tied,
            eye_color: EyeColor::Gray,
            build: Build::Slight,
            height_cm: 171,
        }
    );
}

#[test]
fn the_per_character_stream_uses_the_portrait_domain() {
    let mut rng = SimRng::from_seed(42, "portrait:7");
    assert_eq!(
        PortraitDescriptor::generate(&mut rng),
        PortraitDescriptor::generate_for_character(42, 7)
    );
}
