use sim_core::presets::{names, presets, resolve};

#[test]
fn every_preset_resolves_by_name() {
    for preset in presets() {
        let resolved = resolve(preset.name).unwrap_or_else(|| {
            panic!("preset {} did not resolve by its own name", preset.name)
        });
        assert_eq!(resolved.seed, preset.seed);
        assert_eq!(resolved.system_count, preset.system_count);
    }
}

#[test]
fn unknown_preset_name_resolves_to_none() {
    assert!(resolve("does-not-exist").is_none());
}

#[test]
fn table_stays_small_and_names_are_unique() {
    let table = presets();
    assert!(
        table.len() >= 3 && table.len() <= 5,
        "keep the preset table to 3-5 entries"
    );
    let mut seen = std::collections::HashSet::new();
    for preset in &table {
        assert!(
            seen.insert(preset.name),
            "duplicate preset name: {}",
            preset.name
        );
    }
}

#[test]
fn names_lists_every_preset_in_table_order() {
    let listed = names();
    let expected: Vec<&str> = presets().iter().map(|p| p.name).collect();
    assert_eq!(listed, expected);
}

#[test]
fn the_tutorial_preset_is_seed_42_with_two_systems() {
    let tutorial = resolve("tutorial").unwrap();
    assert_eq!((tutorial.seed, tutorial.system_count), (42, 2));
    assert!(resolve("Tutorial").is_none());
    assert_eq!(resolve("prosperous").unwrap().seed, 55);
}
