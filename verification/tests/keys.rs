use hop::keys::Usage;

#[test]
fn modifiers_are_recognized() {
    assert!(Usage(Usage::LEFT_GUI).is_modifier());
    assert!(Usage(Usage::RIGHT_CTRL).is_modifier());
    assert!(!Usage(Usage::A).is_modifier());
}

#[test]
fn usage_values_match_hid_spec() {
    assert_eq!(Usage(Usage::A).0, 0x04);
    assert_eq!(Usage(Usage::LEFT_CTRL).0, 0xE0);
    assert_eq!(Usage(Usage::LEFT_GUI).0, 0xE3);
    assert_eq!(Usage(Usage::RIGHT_GUI).0, 0xE7);
}
