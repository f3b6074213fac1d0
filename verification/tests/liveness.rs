use hop::liveness::Liveness;
use hop::time::{Duration, Instant};

fn setup() -> (Liveness, Instant) {
    let start = Instant::since_origin(Duration::from_secs(100));
    let l = Liveness::new(start, Duration::from_secs(1), Duration::from_secs(3));
    (l, start)
}

fn after(start: Instant, span: Duration) -> Instant {
    start.checked_add(span).expect("fits")
}

#[test]
fn fresh_connection_is_alive() {
    let (l, start) = setup();
    assert!(!l.is_dead(start));
}

#[test]
fn silence_past_the_timeout_is_death() {
    let (l, start) = setup();
    assert!(!l.is_dead(after(start, Duration::from_secs(2))));
    assert!(l.is_dead(after(start, Duration::from_secs(4))));
}

#[test]
fn activity_keeps_it_alive() {
    let (mut l, start) = setup();
    l.record_activity(after(start, Duration::from_secs(2)));
    assert!(!l.is_dead(after(start, Duration::from_secs(4))));
}

#[test]
fn heartbeat_is_due_after_the_interval() {
    let (l, start) = setup();
    assert!(!l.should_send_heartbeat(start));
    assert!(l.should_send_heartbeat(after(start, Duration::from_millis(1100))));
}

#[test]
fn sending_a_heartbeat_resets_the_interval() {
    let (mut l, start) = setup();
    let later = after(start, Duration::from_millis(1100));
    l.record_heartbeat_sent(later);
    assert!(!l.should_send_heartbeat(later));
}

#[test]
fn sending_heartbeats_does_not_mask_a_dead_peer() {
    let (mut l, start) = setup();
    for i in 1..=5 {
        l.record_heartbeat_sent(after(start, Duration::from_secs(i)));
    }
    assert!(l.is_dead(after(start, Duration::from_secs(5))));
}

#[test]
fn heartbeat_is_due_exactly_at_the_interval() {
    let (l, start) = setup();
    assert!(l.should_send_heartbeat(after(start, Duration::from_secs(1))));
}

#[test]
fn exactly_at_the_timeout_is_not_yet_dead() {
    let (l, start) = setup();
    assert!(!l.is_dead(after(start, Duration::from_secs(3))));
    assert!(l.is_dead(after(start, Duration::from_millis(3001))));
}
