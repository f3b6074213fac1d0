use hop::keys::Usage;
use hop::macos::keymap::{usage_to_virtual_key, virtual_key_to_usage, TABLE};

#[test]
fn maps_letters_correctly() {
    assert_eq!(virtual_key_to_usage(0), Some(Usage(Usage::A)));
    assert_eq!(virtual_key_to_usage(8), Some(Usage(Usage::C)));
}

#[test]
fn maps_modifiers_correctly() {
    assert_eq!(virtual_key_to_usage(55), Some(Usage(Usage::LEFT_GUI)));
    assert_eq!(virtual_key_to_usage(59), Some(Usage(Usage::LEFT_CTRL)));
    assert_eq!(virtual_key_to_usage(58), Some(Usage(Usage::LEFT_ALT)));
    assert_eq!(virtual_key_to_usage(56), Some(Usage(Usage::LEFT_SHIFT)));
}

#[test]
fn round_trips_every_known_key() {
    for code in 0..=0x7F {
        if let Some(usage) = virtual_key_to_usage(code) {
            assert_eq!(
                usage_to_virtual_key(usage),
                Some(code),
                "keycode {code} did not round trip"
            );
        }
    }
}

#[test]
fn unknown_keycodes_are_none_rather_than_wrong() {
    assert_eq!(virtual_key_to_usage(9999), None);
}

#[test]
fn right_command_maps_to_right_gui() {
    assert_eq!(virtual_key_to_usage(54), Some(Usage(Usage::RIGHT_GUI)));
    assert_eq!(virtual_key_to_usage(55), Some(Usage(Usage::LEFT_GUI)));
    assert_eq!(usage_to_virtual_key(Usage(Usage::RIGHT_GUI)), Some(54));
    assert_eq!(usage_to_virtual_key(Usage(Usage::LEFT_GUI)), Some(55));
}

#[test]
fn table_stays_injective() {
    let mut seen = std::collections::HashSet::new();
    for (_, usage) in TABLE {
        assert!(seen.insert(usage), "duplicate HID usage {usage:#x}");
    }
}

#[test]
fn navigation_and_forward_delete_round_trip() {
    assert_eq!(virtual_key_to_usage(115), Some(Usage(0x4A))); // home
    assert_eq!(virtual_key_to_usage(116), Some(Usage(0x4B))); // page up
    assert_eq!(virtual_key_to_usage(117), Some(Usage(0x4C))); // forward delete
    assert_eq!(virtual_key_to_usage(119), Some(Usage(0x4D))); // end
    assert_eq!(virtual_key_to_usage(121), Some(Usage(0x4E))); // page down

    for code in [115_i64, 116, 117, 119, 121] {
        let usage = virtual_key_to_usage(code).unwrap();
        assert_eq!(usage_to_virtual_key(usage), Some(code));
    }
}

#[test]
fn numeric_keypad_and_f13_and_above_are_mapped() {
    assert_eq!(virtual_key_to_usage(82), Some(Usage(0x62))); // keypad 0
    assert_eq!(virtual_key_to_usage(83), Some(Usage(0x59))); // keypad 1
    assert_eq!(virtual_key_to_usage(76), Some(Usage(0x58))); // keypad enter
    assert_eq!(virtual_key_to_usage(105), Some(Usage(0x68))); // f13
    assert_eq!(virtual_key_to_usage(90), Some(Usage(0x6F))); // f20

    for code in [
        65_i64, 67, 69, 71, 75, 76, 78, 81, 82, 83, 84, 85, 86, 87, 88, 89, 91, 92,
    ] {
        let usage = virtual_key_to_usage(code).unwrap();
        assert_eq!(usage_to_virtual_key(usage), Some(code), "keypad key {code}");
    }
    for code in [64_i64, 79, 80, 90, 105, 106, 107, 113] {
        let usage = virtual_key_to_usage(code).unwrap();
        assert_eq!(
            usage_to_virtual_key(usage),
            Some(code),
            "function key {code}"
        );
    }
}
