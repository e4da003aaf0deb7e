//! Races as two layers, a base race and a sub-race, and their merge into a
//! finished race.

use vstd::prelude::*;

use std::collections::HashMap;

use crate::abilities::AbilityScores;
use crate::error::YAPCCError;

verus! {

/// A named rule of a race.
#[derive(Debug, Clone, PartialEq, Eq)]
pub struct Trait {
    pub name: String,
    pub desc: String,
}

/// A race or a sub-race as the data file gives it: each layer says only what
/// it specifies.
#[derive(Debug)]
pub struct PartialRace {
    pub speed: Option<u8>,
    pub abilities: AbilityScores,
    /// The sub-races of a top-level race, by name.
    pub subraces: Option<HashMap<String, PartialRace>>,
    pub hp_bonus: Option<u8>,
    pub page: Option<u16>,
    pub traits: Vec<Trait>,
    pub weapon_proficiencies: Vec<String>,
    pub tool_proficiencies: Vec<String>,
    pub armor_proficiencies: Vec<String>,
}

/// A finished race: a speed is always there.
#[derive(Debug, Clone, PartialEq, Eq)]
pub struct Race {
    pub speed: u8,
    pub abilities: AbilityScores,
    pub hp_bonus: Option<u8>,
    pub page: Option<u16>,
    pub traits: Vec<Trait>,
    pub weapon_proficiencies: Vec<String>,
    pub tool_proficiencies: Vec<String>,
    pub armor_proficiencies: Vec<String>,
}

/// The races of a data file, by name.
#[derive(Debug)]
pub struct PartialRaces {
    pub races: HashMap<String, PartialRace>,
}

/// What one layer of a race says, leaving out its sub-races.
pub struct LayerModel {
    pub speed: Option<u8>,
    pub abilities: AbilityScores,
    pub hp_bonus: Option<u8>,
    pub page: Option<u16>,
    pub traits: Seq<Trait>,
    pub weapon_proficiencies: Seq<String>,
    pub tool_proficiencies: Seq<String>,
    pub armor_proficiencies: Seq<String>,
}

/// What a finished race holds.
pub struct RaceModel {
    pub speed: u8,
    pub abilities: AbilityScores,
    pub hp_bonus: Option<u8>,
    pub page: Option<u16>,
    pub traits: Seq<Trait>,
    pub weapon_proficiencies: Seq<String>,
    pub tool_proficiencies: Seq<String>,
    pub armor_proficiencies: Seq<String>,
}

impl View for PartialRace {
    type V = LayerModel;

    open spec fn view(&self) -> LayerModel {
        LayerModel {
            speed: self.speed,
            abilities: self.abilities,
            hp_bonus: self.hp_bonus,
            page: self.page,
            traits: self.traits@,
            weapon_proficiencies: self.weapon_proficiencies@,
            tool_proficiencies: self.tool_proficiencies@,
            armor_proficiencies: self.armor_proficiencies@,
        }
    }
}

impl View for Race {
    type V = RaceModel;

    open spec fn view(&self) -> RaceModel {
        RaceModel {
            speed: self.speed,
            abilities: self.abilities,
            hp_bonus: self.hp_bonus,
            page: self.page,
            traits: self.traits@,
            weapon_proficiencies: self.weapon_proficiencies@,
            tool_proficiencies: self.tool_proficiencies@,
            armor_proficiencies: self.armor_proficiencies@,
        }
    }
}

impl LayerModel {
    /// A layer that specifies nothing.
    pub open spec fn empty() -> LayerModel {
        LayerModel {
            speed: None,
            abilities: AbilityScores::zero(),
            hp_bonus: None,
            page: None,
            traits: Seq::empty(),
            weapon_proficiencies: Seq::empty(),
            tool_proficiencies: Seq::empty(),
            armor_proficiencies: Seq::empty(),
        }
    }
}

/// Override with fallback: the upper layer's value where it has one, else
/// the lower layer's.
pub open spec fn overridden<T>(lower: Option<T>, upper: Option<T>) -> Option<T> {
    if upper is Some {
        upper
    } else {
        lower
    }
}

/// The finished race of a base layer and a sub-race layer, or `None` where
/// neither gives a speed. The speed, hit-point bonus and page come from the
/// sub-race where it has them, else from the base; the ability bonuses add
/// up; the lists are the base's followed by the sub-race's.
pub open spec fn merge_layers(base: LayerModel, sub: LayerModel) -> Option<RaceModel> {
    match overridden(base.speed, sub.speed) {
        None => None,
        Some(speed) => Some(
            RaceModel {
                speed,
                abilities: base.abilities.spec_add(sub.abilities),
                hp_bonus: overridden(base.hp_bonus, sub.hp_bonus),
                page: overridden(base.page, sub.page),
                traits: base.traits + sub.traits,
                weapon_proficiencies: base.weapon_proficiencies + sub.weapon_proficiencies,
                tool_proficiencies: base.tool_proficiencies + sub.tool_proficiencies,
                armor_proficiencies: base.armor_proficiencies + sub.armor_proficiencies,
            },
        ),
    }
}

/// The name of the field whose absence from both layers stops a merge.
pub open spec fn speed_field_name() -> Seq<char> {
    seq!['s', 'p', 'e', 'e', 'd']
}

impl Default for PartialRace {
    /// A layer that specifies nothing and has no sub-races; merging a base
    /// race with it gives the base race standing alone.
    fn default() -> (r: PartialRace)
        ensures
            r@ == LayerModel::empty(),
            r.subraces is None,
    {
        PartialRace {
            speed: None,
            abilities: AbilityScores::default(),
            subraces: None,
            hp_bonus: None,
            page: None,
            traits: Vec::new(),
            weapon_proficiencies: Vec::new(),
            tool_proficiencies: Vec::new(),
            armor_proficiencies: Vec::new(),
        }
    }
}

impl PartialRace {
    /// Merges this base race with the chosen sub-race (see `merge_layers`);
    /// the sub-races held by either layer play no part. Fails with `MissingRequiredField`
    /// naming the speed where neither layer gives one.
    pub fn solidify(self, subrace: PartialRace) -> (r: Result<Race, YAPCCError>)
        requires
            self.abilities.add_fits(subrace.abilities),
        ensures
            match r {
                Ok(race) => merge_layers(self@, subrace@) == Some(race@),
                Err(e) => merge_layers(self@, subrace@) is None && (e matches YAPCCError::MissingRequiredField(
                    f,
                ) && f@ == speed_field_name()),
            },
    {
        let speed = match subrace.speed {
            Some(s) => s,
            None => match self.speed {
                Some(s) => s,
                None => {
                    let f = String::from_str("speed");
                    proof {
                        reveal_strlit("speed");
                        assert(f@ =~= speed_field_name());
                    }
                    return Err(YAPCCError::MissingRequiredField(f));
                },
            },
        };
        let mut traits = self.traits;
        let mut sub_traits = subrace.traits;
        traits.append(&mut sub_traits);
        let mut weapons = self.weapon_proficiencies;
        let mut sub_weapons = subrace.weapon_proficiencies;
        weapons.append(&mut sub_weapons);
        let mut tools = self.tool_proficiencies;
        let mut sub_tools = subrace.tool_proficiencies;
        tools.append(&mut sub_tools);
        let mut armor = self.armor_proficiencies;
        let mut sub_armor = subrace.armor_proficiencies;
        armor.append(&mut sub_armor);
        let hp_bonus = match subrace.hp_bonus {
            Some(h) => Some(h),
            None => self.hp_bonus,
        };
        let page = match subrace.page {
            Some(p) => Some(p),
            None => self.page,
        };
        Ok(
            Race {
                speed,
                abilities: self.abilities.add(subrace.abilities),
                hp_bonus,
                page,
                traits,
                weapon_proficiencies: weapons,
                tool_proficiencies: tools,
                armor_proficiencies: armor,
            },
        )
    }
}

/// Merging stacks ability bonuses rather than overriding them: wherever the
/// base race gives a speed, the finished race's scores are the field-wise
/// sum of the base race's and the sub-race's.
pub proof fn lemma_merge_additive(base: LayerModel, sub: LayerModel)
    requires
        base.speed is Some,
        base.abilities.add_fits(sub.abilities),
    ensures
        merge_layers(base, sub) matches Some(race) && race.abilities == base.abilities.spec_add(
            sub.abilities,
        ) && forall|i: int|
            0 <= i < 6 ==> #[trigger] race.abilities.score(i) == base.abilities.score(i)
                + sub.abilities.score(i),
{
    let a = base.abilities;
    let b = sub.abilities;
    assert(a.score(0) + b.score(0) <= u8::MAX);
    assert(a.score(1) + b.score(1) <= u8::MAX);
    assert(a.score(2) + b.score(2) <= u8::MAX);
    assert(a.score(3) + b.score(3) <= u8::MAX);
    assert(a.score(4) + b.score(4) <= u8::MAX);
    assert(a.score(5) + b.score(5) <= u8::MAX);
}

} // verus!
