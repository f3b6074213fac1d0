use hop::link::LinkState;

#[test]
fn a_disconnect_says_why_rather_than_just_that() {
    let state = LinkState::Disconnected {
        reason: "connect failed".into(),
    };
    assert_eq!(state.summary(), "Disconnected: connect failed");
    assert!(!state.is_connected());
}

#[test]
fn a_connection_names_the_peer() {
    let state = LinkState::Connected {
        peer: "192.168.1.42:24810".into(),
    };
    assert_eq!(state.summary(), "Connected to 192.168.1.42:24810");
    assert!(state.is_connected());
}

#[test]
fn connecting_is_not_connected() {
    assert!(!LinkState::Connecting.is_connected());
    assert_eq!(LinkState::Connecting.summary(), "Connecting");
}
