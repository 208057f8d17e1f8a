//! Sector Dynasties simulation core: the deterministic, verified parts of a
//! seeded grand-strategy simulation.

pub mod birth;
pub mod business;
pub mod career;
pub mod census;
pub mod cli;
pub mod diff;
pub mod dynasty;
pub mod events;
pub mod favor;
pub mod history;
pub mod invariants;
pub mod lobbying;
pub mod migration;
pub mod mortality;
pub mod portrait;
pub mod presets;
pub mod rng;
pub mod save;
pub mod text;
pub mod time;
pub mod trade;
pub mod traits;
pub mod views;
pub mod world;
pub mod worldgen;
