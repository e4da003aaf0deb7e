use yapcc::{AbilityScores, YAPCCError};

fn scores(s: u8, d: u8, c: u8, i: u8, w: u8, ch: u8) -> AbilityScores {
    AbilityScores {
        strength: s,
        dexterity: d,
        constitution: c,
        intelligence: i,
        wisdom: w,
        charisma: ch,
    }
}

fn is_decode_error(r: Result<AbilityScores, YAPCCError>) -> bool {
    matches!(r, Err(YAPCCError::DecodeError(_)))
}

#[test]
fn empty_token_is_all_zero() {
    assert_eq!(AbilityScores::default().encode(), "");
    assert_eq!(AbilityScores::decode("").unwrap(), AbilityScores::default());
    assert_eq!(AbilityScores::decode("").unwrap(), scores(0, 0, 0, 0, 0, 0));
}

#[test]
fn entry_order_does_not_matter() {
    let a = AbilityScores::decode("dex+1;str+2").unwrap();
    let b = AbilityScores::decode("str+2;dex+1").unwrap();
    assert_eq!(a, b);
    assert_eq!(a, scores(2, 1, 0, 0, 0, 0));
}

#[test]
fn missing_or_non_numeric_value_is_rejected() {
    assert!(is_decode_error(AbilityScores::decode("str")));
    assert!(is_decode_error(AbilityScores::decode("str+x")));
    assert!(is_decode_error(AbilityScores::decode("dex+1;cha+")));
    assert!(is_decode_error(AbilityScores::decode("wis+-1")));
}

#[test]
fn value_over_255_is_rejected() {
    assert!(is_decode_error(AbilityScores::decode("con+256")));
    assert_eq!(AbilityScores::decode("con+255").unwrap(), scores(0, 0, 255, 0, 0, 0));
}

#[test]
fn unknown_names_are_ignored() {
    assert_eq!(AbilityScores::decode("foo+3;int+1").unwrap(), scores(0, 0, 0, 1, 0, 0));
    assert_eq!(AbilityScores::decode("luck").unwrap(), scores(0, 0, 0, 0, 0, 0));
    assert_eq!(AbilityScores::decode("luck+x;wis+4").unwrap(), scores(0, 0, 0, 0, 4, 0));
}

#[test]
fn last_entry_of_a_name_wins() {
    assert_eq!(AbilityScores::decode("str+1;str+3").unwrap(), scores(3, 0, 0, 0, 0, 0));
    assert_eq!(AbilityScores::decode("str+x;str+2").unwrap(), scores(2, 0, 0, 0, 0, 0));
    assert!(is_decode_error(AbilityScores::decode("str+2;str+x")));
}

#[test]
fn value_stops_at_second_plus_and_leading_zeros_read() {
    assert_eq!(AbilityScores::decode("cha+1+9").unwrap(), scores(0, 0, 0, 0, 0, 1));
    assert_eq!(AbilityScores::decode("dex+007").unwrap(), scores(0, 7, 0, 0, 0, 0));
    assert_eq!(AbilityScores::decode("int+2;").unwrap(), scores(0, 0, 0, 2, 0, 0));
}

#[test]
fn encode_is_canonical() {
    assert_eq!(scores(2, 0, 0, 1, 0, 0).encode(), "str+2;int+1");
    assert_eq!(scores(0, 0, 0, 0, 0, 255).encode(), "cha+255");
    assert_eq!(scores(1, 2, 3, 4, 5, 6).encode(), "str+1;dex+2;con+3;int+4;wis+5;cha+6");
    assert_eq!(scores(0, 10, 0, 0, 0, 0).encode(), "dex+10");
}

#[test]
fn decode_of_encode_round_trips() {
    for v in 0..10u8 {
        let s = scores(v, 9 - v, v / 2, (v * 7) % 10, 0, v % 3);
        assert_eq!(AbilityScores::decode(&s.encode()).unwrap(), s);
    }
    let s = scores(255, 100, 99, 10, 1, 0);
    assert_eq!(AbilityScores::decode(&s.encode()).unwrap(), s);
}

#[test]
fn add_is_field_wise() {
    let a = scores(1, 2, 0, 0, 3, 0);
    let b = scores(0, 1, 4, 0, 0, 250);
    assert_eq!(a.add(b), scores(1, 3, 4, 0, 3, 250));
}

#[test]
fn fits_with_detects_overflow() {
    assert!(scores(200, 0, 0, 0, 0, 0).fits_with(&scores(55, 9, 9, 9, 9, 9)));
    assert!(!scores(200, 0, 0, 0, 0, 0).fits_with(&scores(56, 0, 0, 0, 0, 0)));
    assert!(!scores(0, 0, 0, 0, 0, 1).fits_with(&scores(0, 0, 0, 0, 0, 255)));
}
