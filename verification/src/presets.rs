//! Named seed presets for reproducible demo scenarios: a small, stable
//! vocabulary ("run the sprawling preset") instead of raw seeds.

use vstd::prelude::*;
use crate::text::str_eq;

verus! {

/// A named, reproducible starting scenario: a seed plus the system count to
/// generate it with.
#[derive(Debug, Clone, Copy, PartialEq, Eq)]
pub struct SeedPreset {
    pub name: &'static str,
    pub seed: u64,
    pub system_count: u32,
    pub description: &'static str,
}

/// The full preset table, in its fixed order.
pub open spec fn preset_table() -> Seq<SeedPreset> {
    seq![
        SeedPreset {
            name: "tutorial",
            seed: 42,
            system_count: 2,
            description: "Small two-system start with a handful of cities, easy to narrate in a walkthrough.",
        },
        SeedPreset {
            name: "resource-poor",
            seed: 9999,
            system_count: 2,
            description: "Below-average city wealth throughout, good for stress-testing tight budgets.",
        },
        SeedPreset {
            name: "sprawling",
            seed: 200,
            system_count: 6,
            description: "Six systems and dozens of cities, useful for UI and performance testing at scale.",
        },
        SeedPreset {
            name: "single-system",
            seed: 1000,
            system_count: 1,
            description: "One system with a few cities, a minimal sandbox for fast iteration.",
        },
        SeedPreset {
            name: "prosperous",
            seed: 55,
            system_count: 1,
            description: "The highest average city wealth of these presets, useful for late-game economy scenarios.",
        },
    ]
}

/// The full table of known presets, in table order.
pub fn presets() -> (table: Vec<SeedPreset>)
    ensures
        table@ == preset_table(),
{
    let table = vec![
        SeedPreset {
            name: "tutorial",
            seed: 42,
            system_count: 2,
            description: "Small two-system start with a handful of cities, easy to narrate in a walkthrough.",
        },
        SeedPreset {
            name: "resource-poor",
            seed: 9999,
            system_count: 2,
            description: "Below-average city wealth throughout, good for stress-testing tight budgets.",
        },
        SeedPreset {
            name: "sprawling",
            seed: 200,
            system_count: 6,
            description: "Six systems and dozens of cities, useful for UI and performance testing at scale.",
        },
        SeedPreset {
            name: "single-system",
            seed: 1000,
            system_count: 1,
            description: "One system with a few cities, a minimal sandbox for fast iteration.",
        },
        SeedPreset {
            name: "prosperous",
            seed: 55,
            system_count: 1,
            description: "The highest average city wealth of these presets, useful for late-game economy scenarios.",
        },
    ];
    assert(table@ =~= preset_table());
    table
}

/// The first entry of the table, from position `k` on, named `name`.
pub open spec fn find_preset(name: Seq<char>, k: int) -> Option<SeedPreset>
    decreases preset_table().len() - k,
{
    if k < 0 || k >= preset_table().len() {
        None
    } else if preset_table()[k].name@ == name {
        Some(preset_table()[k])
    } else {
        find_preset(name, k + 1)
    }
}

/// Look up a preset by its exact name: the first table entry with that name,
/// or `None` for anything not in the table (including near misses).
pub fn resolve(name: &str) -> (found: Option<SeedPreset>)
    ensures
        found == find_preset(name@, 0),
        match found {
            Some(p) => exists|i: int|
                0 <= i < preset_table().len() && preset_table()[i] == p && p.name@ == name@
                    && forall|j: int| 0 <= j < i ==> preset_table()[j].name@ != name@,
            None => forall|i: int| 0 <= i < preset_table().len() ==> preset_table()[i].name@ != name@,
        },
{
    let table = presets();
    let mut i: usize = 0;
    while i < table.len()
        invariant
            table@ == preset_table(),
            i <= table@.len(),
            forall|j: int| 0 <= j < i ==> preset_table()[j].name@ != name@,
            find_preset(name@, 0) == find_preset(name@, i as int),
        decreases table@.len() - i,
    {
        if str_eq(table[i].name, name) {
            return Some(table[i]);
        }
        i += 1;
    }
    None
}

/// The preset names in table order, for usage and error messages.
pub fn names() -> (listed: Vec<&'static str>)
    ensures
        listed@.len() == preset_table().len(),
        forall|i: int| 0 <= i < listed@.len() ==> listed@[i] == preset_table()[i].name,
{
    let table = presets();
    let mut listed: Vec<&'static str> = Vec::new();
    let mut i: usize = 0;
    while i < table.len()
        invariant
            table@ == preset_table(),
            i <= table@.len(),
            listed@.len() == i,
            forall|j: int| 0 <= j < i ==> listed@[j] == preset_table()[j].name,
        decreases table@.len() - i,
    {
        listed.push(table[i].name);
        i += 1;
    }
    listed
}

/// No two presets share a name, so every preset resolves by its own name
/// to exactly itself.
pub proof fn lemma_every_preset_resolves_to_itself(i: int)
    requires
        0 <= i < preset_table().len(),
    ensures
        forall|j: int| 0 <= j < preset_table().len() && j != i ==>
            preset_table()[j].name@ != preset_table()[i].name@,
{
    reveal_strlit("tutorial");
    reveal_strlit("resource-poor");
    reveal_strlit("sprawling");
    reveal_strlit("single-system");
    reveal_strlit("prosperous");
    assert forall|j: int| 0 <= j < preset_table().len() && j != i implies
        preset_table()[j].name@ != preset_table()[i].name@ by {
        let a = preset_table()[j].name@;
        let b = preset_table()[i].name@;
        if a == b {
            assert(a.len() == b.len());
            assert(a[0] == b[0]);
            assert(a[1] == b[1]);
            assert(a[2] == b[2]);
        }
    }
}

/// Every preset whose description names its number of systems has that
/// many: "One system" has one, "Small two-system" two, "Six systems" six.
pub proof fn lemma_descriptions_match_system_counts(i: int)
    requires
        0 <= i < preset_table().len(),
    ensures
        preset_table()[i].description@.take(10) == "One system"@ ==> preset_table()[i].system_count == 1,
        preset_table()[i].description@.take(16) == "Small two-system"@ ==> preset_table()[i].system_count == 2,
        preset_table()[i].description@.take(11) == "Six systems"@ ==> preset_table()[i].system_count == 6,
{
    reveal_strlit("One system");
    reveal_strlit("Small two-system");
    reveal_strlit("Six systems");
    reveal_strlit("Small two-system start with a handful of cities, easy to narrate in a walkthrough.");
    reveal_strlit("Below-average city wealth throughout, good for stress-testing tight budgets.");
    reveal_strlit("Six systems and dozens of cities, useful for UI and performance testing at scale.");
    reveal_strlit("One system with a few cities, a minimal sandbox for fast iteration.");
    reveal_strlit("The highest average city wealth of these presets, useful for late-game economy scenarios.");
    let d = preset_table()[i].description@;
    assert(d.take(10)[0] == d[0] && d.take(16)[0] == d[0] && d.take(11)[0] == d[0]);
    assert(d.take(16)[1] == d[1] && d.take(11)[1] == d[1] && d.take(10)[1] == d[1]);
}

/// The preset table: each name with its seed and number of systems,
/// tutorial (42, 2), resource-poor (9999, 2), sprawling (200, 6),
/// single-system (1000, 1) and prosperous (55, 1), in that order.
pub proof fn lemma_preset_table_contents()
    ensures
        preset_table().len() == 5,
        preset_table()[0].name@ == "tutorial"@ && preset_table()[0].seed == 42 && preset_table()[0].system_count == 2,
        preset_table()[1].name@ == "resource-poor"@ && preset_table()[1].seed == 9999 && preset_table()[1].system_count == 2,
        preset_table()[2].name@ == "sprawling"@ && preset_table()[2].seed == 200 && preset_table()[2].system_count == 6,
        preset_table()[3].name@ == "single-system"@ && preset_table()[3].seed == 1000 && preset_table()[3].system_count == 1,
        preset_table()[4].name@ == "prosperous"@ && preset_table()[4].seed == 55 && preset_table()[4].system_count == 1,
{
}

} // verus!
