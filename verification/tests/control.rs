use hop::control::{Action, Control, Focus};
use hop::keys::Usage;

#[test]
fn starts_local() {
    assert_eq!(Control::new().focus(), Focus::Local);
}

#[test]
fn crossing_the_edge_takes_focus_remote() {
    let mut c = Control::new();
    assert_eq!(c.on_edge_crossed(), Action::Nothing);
    assert_eq!(c.focus(), Focus::Remote);
}

#[test]
fn keys_are_dropped_while_local() {
    let mut c = Control::new();
    assert_eq!(c.on_key(Usage(Usage::C), true), Action::Nothing);
}

#[test]
fn keys_are_forwarded_while_remote() {
    let mut c = Control::new();
    c.on_edge_crossed();
    assert_eq!(c.on_key(Usage(Usage::C), true), Action::Forward(Usage(Usage::C), true));
}

#[test]
fn release_returns_focus_and_clears_held_keys() {
    let mut c = Control::new();
    c.on_edge_crossed();
    c.on_key(Usage(Usage::LEFT_GUI), true);
    assert_eq!(c.on_release_requested(), Action::ReleaseAll);
    assert_eq!(c.focus(), Focus::Local);
}

#[test]
fn disconnect_while_remote_releases_and_returns_focus() {
    let mut c = Control::new();
    c.on_edge_crossed();
    c.on_key(Usage(Usage::LEFT_GUI), true);
    assert_eq!(c.on_disconnected(), Action::ReleaseAll);
    assert_eq!(c.focus(), Focus::Local);
}

#[test]
fn disconnect_while_local_is_a_no_op() {
    let mut c = Control::new();
    assert_eq!(c.on_disconnected(), Action::Nothing);
    assert_eq!(c.focus(), Focus::Local);
}

#[test]
fn panic_hotkey_always_returns_focus() {
    let mut c = Control::new();
    c.on_edge_crossed();
    c.on_key(Usage(Usage::A), true);
    assert_eq!(c.on_panic_hotkey(), Action::ReleaseAll);
    assert_eq!(c.focus(), Focus::Local);
}

#[test]
fn releasing_a_key_stops_tracking_it() {
    let mut c = Control::new();
    c.on_edge_crossed();
    c.on_key(Usage(Usage::A), true);
    c.on_key(Usage(Usage::A), false);
    assert_eq!(c.on_release_requested(), Action::Nothing);
}
