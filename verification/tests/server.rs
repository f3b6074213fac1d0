use hop::device::InputEvent;
use hop::keys::Usage;
use hop::message::Message;
use hop::remap::RemapTable;
use hop::server::{Reaction, ServerAction, ServerConnection, DEATH_TIMEOUT_SECS, HEARTBEAT_SECS};
use hop::time::{Duration, Instant};

fn at(millis: u64) -> Instant {
    Instant::since_origin(Duration::from_millis(millis))
}

fn press(usage: u16) -> InputEvent {
    InputEvent::Key {
        usage: Usage(usage),
        pressed: true,
    }
}

fn escape() -> Vec<Usage> {
    vec![Usage(Usage::LEFT_CTRL), Usage(Usage::ESCAPE)]
}

fn connection() -> ServerConnection {
    ServerConnection::new(RemapTable::mac_to_windows_defaults(), escape(), at(0))
}

fn sent(action: ServerAction) -> Vec<Message> {
    match action {
        ServerAction::Send(messages) => messages,
        ServerAction::Disconnect => panic!("the connection should be kept"),
    }
}

#[test]
fn a_crossing_hands_focus_over_and_what_follows_is_sent() {
    let mut server = connection();
    assert!(!server.is_remote());
    let events = vec![
        press(Usage::A),
        InputEvent::EdgeCrossed,
        press(Usage::LEFT_GUI),
        InputEvent::Mouse { dx: 2, dy: 3 },
    ];
    assert_eq!(
        sent(server.on_tick(&events, Some(5), at(10))),
        vec![
            Message::Enter { along: 5 },
            Message::Key {
                usage: Usage(Usage::LEFT_CTRL),
                pressed: true
            },
            Message::MouseMove { dx: 2, dy: 3 },
        ]
    );
    assert!(server.is_remote());
}

#[test]
fn a_release_brings_focus_home() {
    let mut server = connection();
    sent(server.on_tick(&vec![InputEvent::EdgeCrossed, press(Usage::A)], None, at(10)));
    assert_eq!(
        server.on_message(&Message::Release { along: 77 }, at(20)),
        Reaction { reply: Some(Message::ReleaseAllKeys), home: Some(77) }
    );
    assert!(!server.is_remote());
    assert_eq!(
        server.on_message(&Message::Release { along: 77 }, at(30)),
        Reaction { reply: None, home: None },
        "focus is at home already"
    );
    assert_eq!(sent(server.on_tick(&vec![press(Usage::A)], None, at(40))), vec![]);
}

#[test]
fn the_escape_brings_focus_home() {
    let mut server = connection();
    sent(server.on_tick(&vec![InputEvent::EdgeCrossed], None, at(10)));
    let messages = sent(server.on_tick(&vec![press(Usage::LEFT_CTRL), press(Usage::ESCAPE)], None, at(20)));
    assert_eq!(messages.last(), Some(&Message::ReleaseAllKeys));
    assert!(!server.is_remote());
    sent(server.on_tick(&vec![InputEvent::EdgeCrossed], None, at(30)));
    assert!(server.is_remote());
    sent(server.on_tick(&vec![press(Usage::A)], None, at(40)));
    assert!(server.is_remote(), "the escape is over once it was taken");
}

#[test]
fn a_heartbeat_goes_out_when_it_is_due() {
    let mut server = connection();
    let due = HEARTBEAT_SECS * 1000;
    assert_eq!(sent(server.on_tick(&vec![], None, at(due - 1))), vec![]);
    assert_eq!(sent(server.on_tick(&vec![], None, at(due))), vec![Message::Heartbeat]);
    server.heartbeat_sent(at(due));
    assert_eq!(sent(server.on_tick(&vec![], None, at(due + 1))), vec![]);
}

#[test]
fn a_silent_client_is_given_up_however_much_is_sent_to_it() {
    let mut server = connection();
    let limit = DEATH_TIMEOUT_SECS * 1000;
    sent(server.on_tick(&vec![InputEvent::EdgeCrossed], None, at(10)));
    for millis in (20..=limit).step_by(20) {
        sent(server.on_tick(&vec![InputEvent::Mouse { dx: 1, dy: 0 }], None, at(millis)));
        server.heartbeat_sent(at(millis));
    }
    assert!(matches!(
        server.on_tick(&vec![], None, at(limit + 1)),
        ServerAction::Disconnect
    ));
}

#[test]
fn anything_heard_keeps_the_connection() {
    let mut server = connection();
    let limit = DEATH_TIMEOUT_SECS * 1000;
    assert_eq!(server.on_message(&Message::Heartbeat, at(limit)), Reaction { reply: None, home: None });
    sent(server.on_tick(&vec![], None, at(2 * limit)));
    assert!(matches!(
        server.on_tick(&vec![], None, at(2 * limit + 1)),
        ServerAction::Disconnect
    ));
}
