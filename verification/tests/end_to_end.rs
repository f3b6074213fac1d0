use hop::control::{Action, Control, Focus};
use hop::crypto::{Direction, SessionId, SharedKey};
use hop::device::{FakeInjector, InputEvent};
use hop::held::HeldKeys;
use hop::keys::Usage;
use hop::message::{Button, Message};
use hop::remap::RemapTable;
use hop::session::{event_to_message, message_to_event, pump_client, pump_events, pump_server, send_release_all};
use hop::transport::{split, TransportReader, TransportWriter};

fn key() -> SharedKey {
    SharedKey::from_bytes([42u8; 32])
}

fn session() -> SessionId {
    SessionId([9u8; 32])
}

fn pair() -> (TransportWriter, TransportReader) {
    let (_, server_side) = split(key(), session(), Direction::ServerToClient);
    let (client_side, _) = split(key(), session(), Direction::ClientToServer);
    (server_side, client_side)
}

fn carry(messages: &[Message], server_side: &mut TransportWriter, client_side: &mut TransportReader) -> Vec<Message> {
    let mut arrived = Vec::new();
    for message in messages {
        let bytes = server_side.send(message).expect("server pump");
        arrived.push(client_side.recv(&bytes[4..]).expect("client pump"));
    }
    arrived
}

#[test]
fn captured_input_arrives_injected_on_the_far_side() {
    let (mut server_side, mut client_side) = pair();

    let captured = vec![
        InputEvent::EdgeCrossed,
        InputEvent::Mouse { dx: 5, dy: -2 },
        InputEvent::Scroll { dx: 1, dy: -3 },
        InputEvent::Button {
            button: Button::Left,
            pressed: true,
        },
        InputEvent::Key {
            usage: Usage(Usage::LEFT_GUI),
            pressed: true,
        },
        InputEvent::Key {
            usage: Usage(Usage::C),
            pressed: true,
        },
    ];
    let mut control = Control::new();
    let remap = RemapTable::mac_to_windows_defaults();
    let mut injector = FakeInjector::new();
    let mut held = HeldKeys::new();

    let sent = pump_events(&mut control, &remap, &captured, None);
    assert_eq!(sent.len(), 5);
    for message in carry(&sent, &mut server_side, &mut client_side) {
        pump_client(&message, &mut injector, &mut held);
    }

    assert_eq!(
        injector.injected(),
        vec![
            InputEvent::Mouse { dx: 5, dy: -2 },
            InputEvent::Scroll { dx: 1, dy: -3 },
            InputEvent::Button {
                button: Button::Left,
                pressed: true
            },
            InputEvent::Key {
                usage: Usage(Usage::LEFT_CTRL),
                pressed: true
            },
            InputEvent::Key {
                usage: Usage(Usage::C),
                pressed: true
            },
        ]
    );
}

#[test]
fn input_before_the_edge_is_not_forwarded() {
    let (mut server_side, mut client_side) = pair();

    let captured = vec![InputEvent::Key {
        usage: Usage(Usage::A),
        pressed: true,
    }];
    let mut control = Control::new();
    let remap = RemapTable::new();
    let mut injector = FakeInjector::new();
    let mut held = HeldKeys::new();

    let mut sent = pump_events(&mut control, &remap, &captured, None);
    sent.push(Message::Heartbeat);
    for message in carry(&sent, &mut server_side, &mut client_side) {
        pump_client(&message, &mut injector, &mut held);
    }
    assert!(
        injector.injected().is_empty(),
        "local input must not reach the peer"
    );
}

#[test]
fn local_pointer_and_click_activity_does_not_cross_the_wire() {
    let (mut server_side, mut client_side) = pair();

    let captured = vec![
        InputEvent::Mouse { dx: 3, dy: 4 },
        InputEvent::Scroll { dx: 0, dy: 1 },
        InputEvent::Button {
            button: Button::Left,
            pressed: true,
        },
    ];
    let mut control = Control::new();
    let remap = RemapTable::new();
    let mut injector = FakeInjector::new();
    let mut held = HeldKeys::new();

    let mut sent = pump_events(&mut control, &remap, &captured, None);
    sent.push(Message::Heartbeat);
    for message in carry(&sent, &mut server_side, &mut client_side) {
        pump_client(&message, &mut injector, &mut held);
    }

    assert!(
        injector.injected().is_empty(),
        "local mouse activity must not reach the peer"
    );
}

#[test]
fn explicit_release_clears_keys_held_on_the_peer() {
    let (mut server_side, mut client_side) = pair();

    let captured = vec![
        InputEvent::EdgeCrossed,
        InputEvent::Key {
            usage: Usage(Usage::LEFT_GUI),
            pressed: true,
        },
    ];
    let mut control = Control::new();
    let remap = RemapTable::new();
    let mut injector = FakeInjector::new();
    let mut held = HeldKeys::new();

    let sent = pump_events(&mut control, &remap, &captured, None);
    for message in carry(&sent, &mut server_side, &mut client_side) {
        pump_client(&message, &mut injector, &mut held);
    }

    assert_eq!(
        injector.injected(),
        vec![InputEvent::Key {
            usage: Usage(Usage::LEFT_GUI),
            pressed: true
        }]
    );
    assert_eq!(
        held.held(),
        vec![Usage(Usage::LEFT_GUI)],
        "the client must consider the key it just injected as held"
    );

    let action = control.on_release_requested();
    assert_eq!(action, Action::ReleaseAll);
    assert_eq!(control.focus(), Focus::Local);

    let bytes = send_release_all(&mut server_side).expect("send release all");
    let message = client_side.recv(&bytes[4..]).expect("client pump");
    pump_client(&message, &mut injector, &mut held);

    assert_eq!(
        injector.injected(),
        vec![
            InputEvent::Key {
                usage: Usage(Usage::LEFT_GUI),
                pressed: true
            },
            InputEvent::Key {
                usage: Usage(Usage::LEFT_GUI),
                pressed: false
            },
        ]
    );
    assert!(
        held.is_empty(),
        "the client must not consider anything held after ReleaseAllKeys"
    );
}

#[test]
fn a_peer_with_the_wrong_key_gets_nothing() {
    let (_, mut server_side) = split(SharedKey::from_bytes([42u8; 32]), session(), Direction::ServerToClient);
    let (mut eavesdropper, _) = split(SharedKey::from_bytes([43u8; 32]), session(), Direction::ClientToServer);

    let captured = vec![
        InputEvent::EdgeCrossed,
        InputEvent::Key {
            usage: Usage(Usage::C),
            pressed: true,
        },
    ];
    let mut control = Control::new();
    let remap = RemapTable::new();

    let sent = pump_events(&mut control, &remap, &captured, None);
    assert_eq!(sent.len(), 1);
    let bytes = server_side.send(&sent[0]).expect("server pump");
    assert!(eavesdropper.recv(&bytes[4..]).is_err());
}

#[test]
fn a_crossing_announces_where_it_happened() {
    let mut control = Control::new();
    let remap = RemapTable::new();
    assert_eq!(
        pump_server(&mut control, &remap, InputEvent::EdgeCrossed, Some(77)),
        Some(Message::Enter { along: 77 })
    );
    assert_eq!(control.focus(), Focus::Remote);
    let mut silent = Control::new();
    assert_eq!(pump_server(&mut silent, &remap, InputEvent::EdgeCrossed, None), None);
    assert_eq!(silent.focus(), Focus::Remote);
}

#[test]
fn events_and_messages_correspond() {
    let remap = RemapTable::new();
    for (event, message) in [
        (InputEvent::Mouse { dx: 1, dy: -2 }, Message::MouseMove { dx: 1, dy: -2 }),
        (InputEvent::Scroll { dx: 3, dy: 4 }, Message::Scroll { dx: 3, dy: 4 }),
        (
            InputEvent::Button {
                button: Button::Right,
                pressed: false,
            },
            Message::MouseButton {
                button: Button::Right,
                pressed: false,
            },
        ),
        (
            InputEvent::Key {
                usage: Usage(Usage::A),
                pressed: true,
            },
            Message::Key {
                usage: Usage(Usage::A),
                pressed: true,
            },
        ),
    ] {
        assert_eq!(event_to_message(&remap, event), Some(message.clone()));
        assert_eq!(message_to_event(&message), Some(event));
    }
    assert_eq!(event_to_message(&remap, InputEvent::EdgeCrossed), None);
    assert_eq!(message_to_event(&Message::Heartbeat), None);
}
