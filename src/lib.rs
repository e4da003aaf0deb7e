//! Character-building data for a tabletop role-playing game: ability-score
//! bonuses with their compact text codec, races layered from a base race and
//! a sub-race, and the spell list records.

pub mod abilities;
pub mod error;
pub mod races;
pub mod text;
pub mod spells;

pub use abilities::AbilityScores;
pub use error::{YAPCCError, YAPCCResult};
pub use races::{PartialRace, PartialRaces, Race, Trait};
pub use spells::{Spell, SpellBook, SpellTraits};
