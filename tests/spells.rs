use yapcc::SpellTraits;

#[test]
fn only_x_marks_a_property() {
    assert!(SpellTraits::flag("x"));
    assert!(!SpellTraits::flag(""));
    assert!(!SpellTraits::flag("X"));
    assert!(!SpellTraits::flag("xx"));
    assert!(!SpellTraits::flag(" x"));
}
