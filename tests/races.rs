use yapcc::{AbilityScores, PartialRace, Race, Trait, YAPCCError};

fn layer(speed: Option<u8>, abilities: &str) -> PartialRace {
    let mut r = PartialRace::default();
    r.speed = speed;
    r.abilities = AbilityScores::decode(abilities).unwrap();
    r
}

fn rule(name: &str, desc: &str) -> Trait {
    Trait {
        name: name.to_string(),
        desc: desc.to_string(),
    }
}

#[test]
fn merged_abilities_add_up() {
    let base = layer(Some(30), "str+2;con+1");
    let sub = layer(None, "str+1;wis+3");
    let a = base.abilities;
    let b = sub.abilities;
    let race = base.solidify(sub).unwrap();
    assert_eq!(race.abilities, a.add(b));
    assert_eq!(race.abilities.encode(), "str+3;con+1;wis+3");
}

#[test]
fn page_and_hp_bonus_override_with_fallback() {
    let mut base = layer(Some(30), "");
    base.page = Some(5);
    let sub = layer(None, "");
    assert_eq!(base.solidify(sub).unwrap().page, Some(5));

    let mut base = layer(Some(30), "");
    base.page = Some(5);
    let mut sub = layer(None, "");
    sub.page = Some(12);
    assert_eq!(base.solidify(sub).unwrap().page, Some(12));

    let mut base = layer(Some(30), "");
    base.hp_bonus = Some(1);
    let mut sub = layer(None, "");
    sub.hp_bonus = Some(2);
    assert_eq!(base.solidify(sub).unwrap().hp_bonus, Some(2));

    let base = layer(Some(30), "");
    let sub = layer(None, "");
    let race = base.solidify(sub).unwrap();
    assert_eq!(race.hp_bonus, None);
    assert_eq!(race.page, None);
}

#[test]
fn lists_are_base_then_subrace() {
    let mut base = layer(Some(30), "");
    base.traits = vec![rule("A", "first")];
    base.weapon_proficiencies = vec!["longsword".to_string(), "bow".to_string()];
    base.tool_proficiencies = vec!["smith".to_string()];
    let mut sub = layer(None, "");
    sub.traits = vec![rule("B", "second"), rule("A", "first")];
    sub.weapon_proficiencies = vec!["bow".to_string()];
    sub.armor_proficiencies = vec!["light".to_string()];
    let race = base.solidify(sub).unwrap();
    assert_eq!(race.traits, vec![rule("A", "first"), rule("B", "second"), rule("A", "first")]);
    assert_eq!(
        race.weapon_proficiencies,
        vec!["longsword".to_string(), "bow".to_string(), "bow".to_string()]
    );
    assert_eq!(race.tool_proficiencies, vec!["smith".to_string()]);
    assert_eq!(race.armor_proficiencies, vec!["light".to_string()]);
}

#[test]
fn speed_from_subrace_overrides_base() {
    assert_eq!(layer(Some(30), "").solidify(layer(Some(25), "")).unwrap().speed, 25);
    assert_eq!(layer(None, "").solidify(layer(Some(35), "")).unwrap().speed, 35);
}

#[test]
fn missing_speed_fails() {
    let r = layer(None, "dex+1").solidify(layer(None, ""));
    assert_eq!(r, Err(YAPCCError::MissingRequiredField("speed".to_string())));
}

#[test]
fn high_elf_example() {
    let elf = layer(Some(30), "dex+2");
    let high_elf = layer(None, "int+1");
    let race = elf.solidify(high_elf).unwrap();
    let expected = Race {
        speed: 30,
        abilities: AbilityScores {
            strength: 0,
            dexterity: 2,
            constitution: 0,
            intelligence: 1,
            wisdom: 0,
            charisma: 0,
        },
        hp_bonus: None,
        page: None,
        traits: vec![],
        weapon_proficiencies: vec![],
        tool_proficiencies: vec![],
        armor_proficiencies: vec![],
    };
    assert_eq!(race, expected);
}

#[test]
fn base_race_alone_with_default_subrace() {
    let mut dwarf = layer(Some(25), "con+2");
    dwarf.traits = vec![rule("Darkvision", "see in the dark")];
    let race = dwarf.solidify(PartialRace::default()).unwrap();
    assert_eq!(race.speed, 25);
    assert_eq!(race.abilities.encode(), "con+2");
    assert_eq!(race.traits, vec![rule("Darkvision", "see in the dark")]);
}
