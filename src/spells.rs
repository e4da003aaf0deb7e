//! Spell records as the spell list gives them.

use vstd::prelude::*;

use std::collections::HashMap;

use crate::text::chars_of;

verus! {

/// The yes/no properties of a spell: its components and the classes that
/// may learn it.
#[derive(Debug, Clone, Copy, PartialEq, Eq)]
pub struct SpellTraits {
    pub ritual: bool,
    pub verbal: bool,
    pub somatic: bool,
    pub material: bool,
    pub concentration: bool,
    pub bard: bool,
    pub cleric: bool,
    pub druid: bool,
    pub paladin: bool,
    pub ranger: bool,
    pub sorcerer: bool,
    pub warlock: bool,
    pub wizard: bool,
}

/// A spell of the spell list.
#[derive(Debug, Clone, PartialEq, Eq)]
pub struct Spell {
    pub name: String,
    pub page: u32,
    pub level: u8,
    pub school: String,
    pub casting_time: String,
    pub traits: SpellTraits,
}

/// The spells of a spell list, by name.
#[derive(Debug)]
pub struct SpellBook {
    pub spells: HashMap<String, Spell>,
}

/// The marker that sets a spell property in the spell list.
pub open spec fn set_marker() -> Seq<char> {
    seq!['x']
}

impl SpellTraits {
    /// Reads one property cell of the spell list: set exactly where the cell
    /// is `x`.
    pub fn flag(marker: &str) -> (r: bool)
        ensures
            r == (marker@ == set_marker()),
    {
        let cs = chars_of(marker);
        if cs.len() == 1 && cs[0] == 'x' {
            assert(cs@ =~= set_marker());
            true
        } else {
            false
        }
    }
}

} // verus!
