use hop::crypto::SharedKey;
use hop::device::{DeviceError, FailingInjector, FakeInjector, Injector, InputEvent};
use hop::held::HeldKeys;
use hop::keys::Usage;
use hop::message::Message;
use hop::supervisor::{
    apply_message, attempt_over, edge_reply, release_everything, ClientAction, ClientEvent, ClientStep, ClientSupervisor,
    ReconnectPolicy,
};
use hop::time::{Duration, Instant};

struct ReturnEdgeInjector {
    inner: FakeInjector,
    reached: Option<u32>,
}

impl Injector for ReturnEdgeInjector {
    fn inject(&mut self, event: &InputEvent) -> Result<(), DeviceError> {
        self.inner.inject(event)
    }

    fn reached_return_edge(&mut self) -> Option<u32> {
        self.reached
    }
}

fn at(millis: u64) -> Instant {
    Instant::since_origin(Duration::from_millis(millis))
}

#[test]
fn a_dead_connection_releases_held_keys_locally() {
    let mut held = HeldKeys::new();
    held.record(Usage(Usage::LEFT_CTRL), true);
    let mut injector = FakeInjector::new();

    release_everything(&mut injector, &mut held);

    assert_eq!(
        injector.injected(),
        vec![InputEvent::Key {
            usage: Usage(Usage::LEFT_CTRL),
            pressed: false
        }]
    );
    assert!(held.is_empty());
}

#[test]
fn backoff_resets_after_a_successful_connection() {
    let mut policy = ReconnectPolicy::new();
    policy.failed();
    policy.failed();
    assert!(policy.delay() > Duration::from_millis(100));
    policy.connected();
    assert_eq!(policy.delay(), Duration::from_millis(100));
}

#[test]
fn the_policy_never_gives_up() {
    let mut policy = ReconnectPolicy::new();
    for _ in 0..1000 {
        policy.failed();
        assert!(policy.delay() <= Duration::from_secs(5));
    }
}

#[test]
fn the_delays_double_up_to_the_cap() {
    let mut policy = ReconnectPolicy::new();
    assert_eq!(policy.delay(), Duration::from_millis(100));
    for millis in [100, 200, 400, 800, 1600, 3200, 5000, 5000] {
        policy.failed();
        assert_eq!(policy.delay(), Duration::from_millis(millis));
    }
}

#[test]
fn cursor_at_the_return_edge_sends_a_release() {
    let along = 12.5f32.to_bits();
    let mut injector = ReturnEdgeInjector {
        inner: FakeInjector::new(),
        reached: Some(along),
    };
    let mut held = HeldKeys::new();

    let reply = apply_message(&Message::MouseMove { dx: 1, dy: 1 }, &mut injector, &mut held);
    assert_eq!(reply, Some(Message::Release { along }));
    assert_eq!(injector.inner.injected(), vec![InputEvent::Mouse { dx: 1, dy: 1 }]);
}

#[test]
fn cursor_elsewhere_sends_no_release() {
    let mut injector = ReturnEdgeInjector {
        inner: FakeInjector::new(),
        reached: None,
    };
    let mut held = HeldKeys::new();

    let result = apply_message(&Message::MouseMove { dx: 1, dy: 1 }, &mut injector, &mut held);
    assert!(
        result.is_none(),
        "no message should have been sent, got {result:?}"
    );
}

#[test]
fn only_motion_events_are_checked_against_the_return_edge() {
    let mut injector = ReturnEdgeInjector {
        inner: FakeInjector::new(),
        reached: Some(0),
    };
    let mut held = HeldKeys::new();

    let result = apply_message(
        &Message::Key {
            usage: Usage(Usage::A),
            pressed: true,
        },
        &mut injector,
        &mut held,
    );
    assert!(
        result.is_none(),
        "no message should have been sent, got {result:?}"
    );
    assert_eq!(held.held(), vec![Usage(Usage::A)]);
}

#[test]
fn a_motion_the_platform_refused_reaches_nothing() {
    let motion = InputEvent::Mouse { dx: 1, dy: 1 };
    assert_eq!(edge_reply(&motion, true, Some(7)), Some(Message::Release { along: 7 }));
    assert_eq!(edge_reply(&motion, false, Some(7)), None);
    assert_eq!(edge_reply(&motion, true, None), None);
    assert_eq!(edge_reply(&InputEvent::Scroll { dx: 1, dy: 1 }, true, Some(7)), None);
}

#[test]
fn a_key_is_tracked_even_when_the_platform_refuses_it() {
    let mut injector = FailingInjector::new();
    let mut held = HeldKeys::new();
    let key = Message::Key {
        usage: Usage(Usage::A),
        pressed: true,
    };
    assert_eq!(apply_message(&key, &mut injector, &mut held), None);
    assert_eq!(held.held(), vec![Usage(Usage::A)]);
}

#[test]
fn a_dead_link_releases_a_held_modifier_locally_end_to_end() {
    let mut injector = FakeInjector::new();
    let mut held = HeldKeys::new();
    let mut policy = ReconnectPolicy::new();
    let supervisor = ClientSupervisor::new("127.0.0.1:1".to_string(), SharedKey::from_bytes([9u8; 32]), "pc".to_string())
        .with_liveness(Duration::from_millis(20), Duration::from_millis(60));
    let mut connection = supervisor.connection(at(0));

    let press = Message::Key {
        usage: Usage(Usage::LEFT_CTRL),
        pressed: true,
    };
    let step = connection.step(ClientEvent::Received(press), at(1), &mut injector, &mut held, &mut policy);
    assert_eq!(step.action, ClientAction::Continue);

    let mut now = 1;
    loop {
        now += 20;
        match connection.step(ClientEvent::Tick, at(now), &mut injector, &mut held, &mut policy).action {
            ClientAction::Send(message) => {
                assert_eq!(message, Message::Heartbeat);
                connection.step(ClientEvent::HeartbeatSent, at(now), &mut injector, &mut held, &mut policy);
            }
            action => {
                assert_eq!(action, ClientAction::Disconnect);
                break;
            }
        }
    }
    assert_eq!(now, 81);
    attempt_over(&mut injector, &mut held, &mut policy);

    assert_eq!(
        injector.injected(),
        vec![
            InputEvent::Key {
                usage: Usage(Usage::LEFT_CTRL),
                pressed: true
            },
            InputEvent::Key {
                usage: Usage(Usage::LEFT_CTRL),
                pressed: false
            },
        ],
        "the client must inject its own release when the link dies, leaving nothing held"
    );
    assert!(held.is_empty());
}

#[test]
fn only_the_first_authenticated_frame_resets_the_backoff() {
    let mut injector = FakeInjector::new();
    let mut held = HeldKeys::new();
    let mut policy = ReconnectPolicy::new();
    policy.failed();
    policy.failed();
    let supervisor = ClientSupervisor::new("host:1".to_string(), SharedKey::from_bytes([9u8; 32]), "pc".to_string());
    let mut connection = supervisor.connection(at(0));

    assert!(!connection.step(ClientEvent::Tick, at(1), &mut injector, &mut held, &mut policy).connected);
    connection.step(ClientEvent::HeartbeatSent, at(1), &mut injector, &mut held, &mut policy);
    assert_eq!(policy.delay(), Duration::from_millis(200));

    let first = connection.step(ClientEvent::Received(Message::Heartbeat), at(2), &mut injector, &mut held, &mut policy);
    assert!(first.connected);
    assert_eq!(policy.delay(), Duration::from_millis(100));

    policy.failed();
    policy.failed();
    let second = connection.step(ClientEvent::Received(Message::Heartbeat), at(3), &mut injector, &mut held, &mut policy);
    assert!(!second.connected);
    assert_eq!(policy.delay(), Duration::from_millis(200));

    assert_eq!(
        connection.step(ClientEvent::Lost, at(4), &mut injector, &mut held, &mut policy),
        ClientStep { action: ClientAction::Disconnect, connected: false }
    );
    assert_eq!(attempt_over(&mut injector, &mut held, &mut policy), Duration::from_millis(400));
}

#[test]
fn a_supervisor_keeps_what_it_was_given() {
    let supervisor = ClientSupervisor::new("host:1".to_string(), SharedKey::from_bytes([9u8; 32]), "pc".to_string());
    assert_eq!(supervisor.addr(), "host:1");
    assert_eq!(supervisor.peer_id(), "pc");
    assert_eq!(supervisor.key().as_bytes(), &[9u8; 32]);
    assert_eq!(supervisor.heartbeat_interval(), Duration::from_secs(1));
}

/// Refuses every event, though the cursor stands on the edge.
struct StuckInjector {
    asked: usize,
}

impl Injector for StuckInjector {
    fn inject(&mut self, _event: &InputEvent) -> Result<(), DeviceError> {
        Err(DeviceError::Rejected("stuck".to_string()))
    }

    fn reached_return_edge(&mut self) -> Option<u32> {
        self.asked += 1;
        Some(0)
    }
}

#[test]
fn the_edge_is_asked_about_only_after_a_motion_that_was_taken() {
    let mut stuck = StuckInjector { asked: 0 };
    let mut held = HeldKeys::new();
    assert_eq!(apply_message(&Message::MouseMove { dx: 1, dy: 1 }, &mut stuck, &mut held), None);
    assert_eq!(apply_message(&Message::Scroll { dx: 0, dy: 1 }, &mut stuck, &mut held), None);
    assert_eq!(apply_message(&Message::ReleaseAllKeys, &mut stuck, &mut held), None);
    assert_eq!(stuck.asked, 0);
}
