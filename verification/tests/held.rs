use hop::held::HeldKeys;
use hop::keys::Usage;

#[test]
fn tracks_press_and_release() {
    let mut keys = HeldKeys::new();
    keys.record(Usage(Usage::LEFT_GUI), true);
    assert_eq!(keys.held(), vec![Usage(Usage::LEFT_GUI)]);
    keys.record(Usage(Usage::LEFT_GUI), false);
    assert!(keys.is_empty());
}

#[test]
fn repeated_press_does_not_duplicate() {
    let mut keys = HeldKeys::new();
    keys.record(Usage(Usage::A), true);
    keys.record(Usage(Usage::A), true); // key repeat
    assert_eq!(keys.held(), vec![Usage(Usage::A)]);
}

#[test]
fn release_of_unheld_key_is_harmless() {
    let mut keys = HeldKeys::new();
    keys.record(Usage(Usage::A), false);
    assert!(keys.is_empty());
}

#[test]
fn drain_returns_everything_and_clears() {
    let mut keys = HeldKeys::new();
    keys.record(Usage(Usage::LEFT_GUI), true);
    keys.record(Usage(Usage::C), true);
    let drained = keys.drain_release();
    assert_eq!(drained, vec![Usage(Usage::C), Usage(Usage::LEFT_GUI)]);
    assert!(keys.is_empty(), "draining must leave nothing held");
}

#[test]
fn drain_on_empty_is_empty() {
    let mut keys = HeldKeys::new();
    assert!(keys.drain_release().is_empty());
}
