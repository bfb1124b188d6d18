//! What a search runs in: the game edition, the story progress, the room and
//! the alternate mode. The spawn oracle reads it; the search never changes it.

use vstd::prelude::*;

verus! {

/// The game edition.
#[derive(Clone, Copy, Debug, PartialEq, Eq, Structural)]
pub enum Version {
    BD,
    SP,
}

/// How far the story has progressed; later tiers unlock more spawns.
#[derive(Clone, Copy, Debug, PartialEq, Eq, Structural)]
pub enum StoryFlag {
    UndergroundUnlocked,
    StrengthObtained,
    DefogObtained,
    SevenBadges,
    WaterfallObtained,
    NationalDex,
}

/// The ordinal of a story tier, from 1 for the first to 6 for the last.
pub open spec fn tier_of(f: StoryFlag) -> u8 {
    match f {
        StoryFlag::UndergroundUnlocked => 1,
        StoryFlag::StrengthObtained => 2,
        StoryFlag::DefogObtained => 3,
        StoryFlag::SevenBadges => 4,
        StoryFlag::WaterfallObtained => 5,
        StoryFlag::NationalDex => 6,
    }
}

impl StoryFlag {
    /// The name of the tier shown to a user.
    pub fn get_str(&self) -> (r: &'static str)
        ensures
            r@ == (match *self {
                StoryFlag::UndergroundUnlocked => "Underground Unlocked"@,
                StoryFlag::StrengthObtained => "Strength Obtained"@,
                StoryFlag::DefogObtained => "Defog Obtained"@,
                StoryFlag::SevenBadges => "7 Badges"@,
                StoryFlag::WaterfallObtained => "Waterfall Obtained"@,
                StoryFlag::NationalDex => "National Dex"@,
            }),
    {
        match self {
            StoryFlag::UndergroundUnlocked => "Underground Unlocked",
            StoryFlag::StrengthObtained => "Strength Obtained",
            StoryFlag::DefogObtained => "Defog Obtained",
            StoryFlag::SevenBadges => "7 Badges",
            StoryFlag::WaterfallObtained => "Waterfall Obtained",
            StoryFlag::NationalDex => "National Dex",
        }
    }

    /// The ordinal that the spawn tables are keyed by.
    pub fn tier(&self) -> (r: u8)
        ensures
            r == tier_of(*self),
            1 <= r <= 6,
    {
        match self {
            StoryFlag::UndergroundUnlocked => 1,
            StoryFlag::StrengthObtained => 2,
            StoryFlag::DefogObtained => 3,
            StoryFlag::SevenBadges => 4,
            StoryFlag::WaterfallObtained => 5,
            StoryFlag::NationalDex => 6,
        }
    }
}

impl Default for StoryFlag {
    fn default() -> (r: StoryFlag)
        ensures
            r == StoryFlag::NationalDex,
    {
        StoryFlag::NationalDex
    }
}

/// The rooms of the underground.
#[derive(Clone, Copy, Debug, PartialEq, Eq, Structural)]
pub enum RoomType {
    SpaciousCave,
    GrasslandCave,
    FountainspringCave,
    RockyCave,
    VolcanicCave,
    SwampyCave,
    DazzlingCave,
    WhiteoutCave,
    IcyCave,
    RiverbankCave,
    SandsearCave,
    StillWaterCavern,
    SunlitCavern,
    BigBluffCavern,
    StargleamCavern,
    GlacialCavern,
    BogsunkCavern,
    TyphloCavern,
}

/// The fixed inputs of one search, handed to the spawn oracle at every advance.
#[derive(Clone, Copy, Debug, PartialEq, Eq, Structural)]
pub struct SearchContext {
    pub version: Version,
    pub story_flag: StoryFlag,
    pub room: RoomType,
    /// The alternate spawn mode of the game (Diglett mode).
    pub diglett_mode: bool,
}

} // verus!
