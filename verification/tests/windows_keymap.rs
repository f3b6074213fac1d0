use hop::keys::Usage;
use hop::windows::keymap::{usage_to_scancode, TABLE};

#[test]
fn maps_letters_to_set_one_scancodes() {
    assert_eq!(usage_to_scancode(Usage(Usage::A)), Some((0x1E, false)));
    assert_eq!(usage_to_scancode(Usage(Usage::C)), Some((0x2E, false)));
}

#[test]
fn maps_modifiers_including_extended_flag() {
    assert_eq!(usage_to_scancode(Usage(Usage::LEFT_CTRL)), Some((0x1D, false)));
    assert_eq!(usage_to_scancode(Usage(Usage::RIGHT_CTRL)), Some((0x1D, true)));
    assert_eq!(usage_to_scancode(Usage(Usage::LEFT_ALT)), Some((0x38, false)));
    assert_eq!(usage_to_scancode(Usage(Usage::RIGHT_ALT)), Some((0x38, true)));
}

#[test]
fn unmapped_usages_are_none() {
    assert_eq!(usage_to_scancode(Usage(0xFFFF)), None);
}

#[test]
fn every_entry_is_reachable_and_distinct() {
    let mut seen = std::collections::HashSet::new();
    for (_, code, extended) in TABLE {
        assert!(
            seen.insert((code, extended)),
            "duplicate scancode {code:#x}"
        );
    }
}

#[test]
fn home_end_and_forward_delete_map_to_extended_scancodes() {
    assert_eq!(usage_to_scancode(Usage(0x4A)), Some((0x47, true))); // home
    assert_eq!(usage_to_scancode(Usage(0x4D)), Some((0x4F, true))); // end
    assert_eq!(usage_to_scancode(Usage(0x4C)), Some((0x53, true))); // forward delete
    assert_eq!(usage_to_scancode(Usage(0x4B)), Some((0x49, true))); // page up
    assert_eq!(usage_to_scancode(Usage(0x4E)), Some((0x51, true))); // page down

    assert_eq!(usage_to_scancode(Usage(0x5F)), Some((0x47, false))); // keypad 7
    assert_eq!(usage_to_scancode(Usage(0x59)), Some((0x4F, false))); // keypad 1
    assert_eq!(usage_to_scancode(Usage(0x63)), Some((0x53, false))); // keypad .
    assert_eq!(usage_to_scancode(Usage(0x61)), Some((0x49, false))); // keypad 9
    assert_eq!(usage_to_scancode(Usage(0x5B)), Some((0x51, false))); // keypad 3
}

#[test]
fn function_keys_f13_through_f20_are_mapped() {
    assert_eq!(usage_to_scancode(Usage(0x68)), Some((0x64, false))); // f13
    assert_eq!(usage_to_scancode(Usage(0x6F)), Some((0x6B, false))); // f20
}
