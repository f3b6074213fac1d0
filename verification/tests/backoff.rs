use hop::backoff::Backoff;
use hop::time::Duration;

fn backoff() -> Backoff {
    Backoff::new(Duration::from_millis(100), Duration::from_secs(5))
}

#[test]
fn starts_at_the_initial_delay() {
    assert_eq!(backoff().next_delay(), Duration::from_millis(100));
}

#[test]
fn doubles_each_attempt() {
    let mut b = backoff();
    assert_eq!(b.next_delay(), Duration::from_millis(100));
    assert_eq!(b.next_delay(), Duration::from_millis(200));
    assert_eq!(b.next_delay(), Duration::from_millis(400));
}

#[test]
fn never_exceeds_the_cap() {
    let mut b = backoff();
    for _ in 0..50 {
        assert!(b.next_delay() <= Duration::from_secs(5));
    }
}

#[test]
fn keeps_retrying_forever_at_the_cap() {
    let mut b = backoff();
    for _ in 0..50 {
        b.next_delay();
    }
    assert_eq!(b.next_delay(), Duration::from_secs(5));
}

#[test]
fn reset_returns_to_the_initial_delay() {
    let mut b = backoff();
    b.next_delay();
    b.next_delay();
    b.reset();
    assert_eq!(b.next_delay(), Duration::from_millis(100));
}
