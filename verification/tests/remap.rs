use hop::keys::Usage;
use hop::remap::RemapTable;

#[test]
fn unmapped_keys_pass_through() {
    let table = RemapTable::new();
    assert_eq!(table.apply(Usage(Usage::C)), Usage(Usage::C));
}

#[test]
fn command_becomes_control_by_default() {
    let table = RemapTable::mac_to_windows_defaults();
    assert_eq!(table.apply(Usage(Usage::LEFT_GUI)), Usage(Usage::LEFT_CTRL));
    assert_eq!(table.apply(Usage(Usage::RIGHT_GUI)), Usage(Usage::RIGHT_CTRL));
}

#[test]
fn option_stays_alt_by_default() {
    let table = RemapTable::mac_to_windows_defaults();
    assert_eq!(table.apply(Usage(Usage::LEFT_ALT)), Usage(Usage::LEFT_ALT));
}

#[test]
fn explicit_entries_override_defaults() {
    let mut table = RemapTable::mac_to_windows_defaults();
    table.insert(Usage(Usage::LEFT_GUI), Usage(Usage::LEFT_ALT));
    assert_eq!(table.apply(Usage(Usage::LEFT_GUI)), Usage(Usage::LEFT_ALT));
}

#[test]
fn mapping_is_not_applied_twice() {
    let mut table = RemapTable::new();
    table.insert(Usage(Usage::A), Usage(Usage::C));
    table.insert(Usage(Usage::C), Usage(Usage::V));
    assert_eq!(table.apply(Usage(Usage::A)), Usage(Usage::C));
    assert_ne!(table.apply(Usage(Usage::A)), Usage(Usage::V));
}
