use hop::device::InputEvent;
use hop::hotkey::HotkeyWatcher;
use hop::keys::Usage;

fn key(usage: u16, pressed: bool) -> InputEvent {
    InputEvent::Key {
        usage: Usage(usage),
        pressed,
    }
}

#[test]
fn a_completed_combination_triggers_once() {
    let mut watcher = HotkeyWatcher::new(vec![Usage(Usage::LEFT_CTRL), Usage(Usage::ESCAPE)]);
    watcher.observe(&key(Usage::LEFT_CTRL, true));
    assert!(!watcher.take_triggered());
    watcher.observe(&key(Usage::ESCAPE, true));
    watcher.observe(&key(Usage::ESCAPE, false));
    assert!(watcher.take_triggered(), "letting go again does not undo it");
    assert!(!watcher.take_triggered());
}

#[test]
fn a_combination_that_stays_down_triggers_again() {
    let mut watcher = HotkeyWatcher::new(vec![Usage(Usage::LEFT_CTRL), Usage(Usage::ESCAPE)]);
    watcher.observe(&key(Usage::LEFT_CTRL, true));
    watcher.observe(&key(Usage::ESCAPE, true));
    assert!(watcher.take_triggered());
    assert!(!watcher.take_triggered());
    watcher.observe(&key(Usage::C, true));
    assert!(watcher.take_triggered());
    watcher.observe(&key(Usage::ESCAPE, false));
    watcher.observe(&key(Usage::C, false));
    assert!(!watcher.take_triggered());
}

#[test]
fn a_released_key_breaks_the_combination() {
    let mut watcher = HotkeyWatcher::new(vec![Usage(Usage::LEFT_CTRL), Usage(Usage::ESCAPE)]);
    watcher.observe(&key(Usage::LEFT_CTRL, true));
    watcher.observe(&key(Usage::LEFT_CTRL, false));
    watcher.observe(&key(Usage::ESCAPE, true));
    assert!(!watcher.take_triggered());
}

#[test]
fn no_combination_never_triggers() {
    let mut watcher = HotkeyWatcher::new(vec![]);
    watcher.observe(&key(Usage::ESCAPE, true));
    watcher.observe(&InputEvent::Mouse { dx: 1, dy: 1 });
    assert!(!watcher.take_triggered());
}
