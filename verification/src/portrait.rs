//! The character portrait descriptor: a small set of categorical and
//! bounded numeric appearance traits, independent of any rendering
//! technique, drawn deterministically from a per-character stream
//! (domain `"portrait:<id>"`).

use vstd::prelude::*;
use crate::rng::{SimRng, RngState, stream_value, xoshiro_advance, seeded_state};
use crate::text::{tagged, decimal};
use crate::world::EntityId;

verus! {

#[derive(Debug, Clone, Copy, PartialEq, Eq, Structural)]
pub enum SkinTone {
    Pale,
    Fair,
    Olive,
    Tan,
    Brown,
    Deep,
}

#[derive(Debug, Clone, Copy, PartialEq, Eq, Structural)]
pub enum HairColor {
    Black,
    Brown,
    Auburn,
    Blonde,
    Gray,
    White,
}

#[derive(Debug, Clone, Copy, PartialEq, Eq, Structural)]
pub enum HairStyle {
    Shaved,
    Short,
    Long,
    Braided,
    Tied,
}

#[derive(Debug, Clone, Copy, PartialEq, Eq, Structural)]
pub enum EyeColor {
    Brown,
    Hazel,
    Green,
    Blue,
    Gray,
    Amber,
}

#[derive(Debug, Clone, Copy, PartialEq, Eq, Structural)]
pub enum Build {
    Slight,
    Average,
    Athletic,
    Heavy,
}

pub const SKIN_TONE_COUNT: usize = 6;
pub const HAIR_COLOR_COUNT: usize = 6;
pub const HAIR_STYLE_COUNT: usize = 5;
pub const EYE_COLOR_COUNT: usize = 6;
pub const BUILD_COUNT: usize = 4;
pub const MIN_HEIGHT_CM: u16 = 150;
pub const MAX_HEIGHT_CM: u16 = 200;

/// A character's look: plain enums and a bounded height, never a path,
/// URL or image reference.
#[derive(Debug, Clone, Copy, PartialEq, Eq, Structural)]
pub struct PortraitDescriptor {
    pub skin_tone: SkinTone,
    pub hair_color: HairColor,
    pub hair_style: HairStyle,
    pub eye_color: EyeColor,
    pub build: Build,
    /// Height in centimeters, within `MIN_HEIGHT_CM..=MAX_HEIGHT_CM`.
    pub height_cm: u16,
}

pub open spec fn skin_tone_at(i: int) -> SkinTone {
    if i == 0 { SkinTone::Pale } else if i == 1 { SkinTone::Fair } else if i == 2 { SkinTone::Olive }
    else if i == 3 { SkinTone::Tan } else if i == 4 { SkinTone::Brown } else { SkinTone::Deep }
}

pub open spec fn hair_color_at(i: int) -> HairColor {
    if i == 0 { HairColor::Black } else if i == 1 { HairColor::Brown } else if i == 2 { HairColor::Auburn }
    else if i == 3 { HairColor::Blonde } else if i == 4 { HairColor::Gray } else { HairColor::White }
}

pub open spec fn hair_style_at(i: int) -> HairStyle {
    if i == 0 { HairStyle::Shaved } else if i == 1 { HairStyle::Short } else if i == 2 { HairStyle::Long }
    else if i == 3 { HairStyle::Braided } else { HairStyle::Tied }
}

pub open spec fn eye_color_at(i: int) -> EyeColor {
    if i == 0 { EyeColor::Brown } else if i == 1 { EyeColor::Hazel } else if i == 2 { EyeColor::Green }
    else if i == 3 { EyeColor::Blue } else if i == 4 { EyeColor::Gray } else { EyeColor::Amber }
}

pub open spec fn build_at(i: int) -> Build {
    if i == 0 { Build::Slight } else if i == 1 { Build::Average } else if i == 2 { Build::Athletic }
    else { Build::Heavy }
}

fn pick_skin_tone(i: usize) -> (t: SkinTone)
    ensures t == skin_tone_at(i as int),
{
    match i { 0 => SkinTone::Pale, 1 => SkinTone::Fair, 2 => SkinTone::Olive, 3 => SkinTone::Tan,
        4 => SkinTone::Brown, _ => SkinTone::Deep }
}

fn pick_hair_color(i: usize) -> (c: HairColor)
    ensures c == hair_color_at(i as int),
{
    match i { 0 => HairColor::Black, 1 => HairColor::Brown, 2 => HairColor::Auburn, 3 => HairColor::Blonde,
        4 => HairColor::Gray, _ => HairColor::White }
}

fn pick_hair_style(i: usize) -> (s: HairStyle)
    ensures s == hair_style_at(i as int),
{
    match i { 0 => HairStyle::Shaved, 1 => HairStyle::Short, 2 => HairStyle::Long, 3 => HairStyle::Braided,
        _ => HairStyle::Tied }
}

fn pick_eye_color(i: usize) -> (c: EyeColor)
    ensures c == eye_color_at(i as int),
{
    match i { 0 => EyeColor::Brown, 1 => EyeColor::Hazel, 2 => EyeColor::Green, 3 => EyeColor::Blue,
        4 => EyeColor::Gray, _ => EyeColor::Amber }
}

fn pick_build(i: usize) -> (b: Build)
    ensures b == build_at(i as int),
{
    match i { 0 => Build::Slight, 1 => Build::Average, 2 => Build::Athletic, _ => Build::Heavy }
}

/// The descriptor drawn from a stream in state `s`: six consecutive draws,
/// one per field, in field order.
pub open spec fn descriptor_from_stream(s: RngState) -> PortraitDescriptor {
    PortraitDescriptor {
        skin_tone: skin_tone_at((stream_value(s, 0) % 6) as int),
        hair_color: hair_color_at((stream_value(s, 1) % 6) as int),
        hair_style: hair_style_at((stream_value(s, 2) % 5) as int),
        eye_color: eye_color_at((stream_value(s, 3) % 6) as int),
        build: build_at((stream_value(s, 4) % 4) as int),
        height_cm: (150 + stream_value(s, 5) % 51) as u16,
    }
}

/// The domain tag of a character's portrait stream.
pub open spec fn portrait_domain(character_id: EntityId) -> Seq<char> {
    "portrait:"@ + decimal(character_id as nat)
}

impl PortraitDescriptor {
    /// Draw a descriptor from an already-derived stream, consuming exactly
    /// six values.
    pub fn generate(rng: &mut SimRng) -> (d: Self)
        ensures
            d == descriptor_from_stream(old(rng)@),
            final(rng)@ == xoshiro_advance(old(rng)@, 6),
            MIN_HEIGHT_CM <= d.height_cm <= MAX_HEIGHT_CM,
    {
        let ghost s0 = rng@;
        let height_span: u32 = (MAX_HEIGHT_CM - MIN_HEIGHT_CM) as u32 + 1;
        let skin_tone = pick_skin_tone(rng.pick_index(SKIN_TONE_COUNT));
        let hair_color = pick_hair_color(rng.pick_index(HAIR_COLOR_COUNT));
        let hair_style = pick_hair_style(rng.pick_index(HAIR_STYLE_COUNT));
        let eye_color = pick_eye_color(rng.pick_index(EYE_COLOR_COUNT));
        let build = pick_build(rng.pick_index(BUILD_COUNT));
        let height_cm: u16 = MIN_HEIGHT_CM + rng.next_below(height_span) as u16;
        proof {
            reveal_with_fuel(xoshiro_advance, 7);
        }
        PortraitDescriptor { skin_tone, hair_color, hair_style, eye_color, build, height_cm }
    }

    /// The descriptor for `character_id` under `world_seed`, from its own
    /// stream (domain `"portrait:<id>"`), independent of every other stream.
    pub fn generate_for_character(world_seed: u64, character_id: EntityId) -> (d: Self)
        ensures
            d == descriptor_from_stream(seeded_state(world_seed, portrait_domain(character_id))),
            MIN_HEIGHT_CM <= d.height_cm <= MAX_HEIGHT_CM,
    {
        let domain = tagged("portrait:", character_id as u64);
        let mut rng = SimRng::from_seed(world_seed, domain.as_str());
        Self::generate(&mut rng)
    }
}

} // verus!
