use hop::device::InputEvent;
use hop::keys::Usage;
use hop::macos::capture::{
    crossing_fraction, watchdog, Capture, Edge, EventType, OverflowLog, TapEvent, WatchdogAction, MAX_QUEUED_EVENTS,
    QUEUE_OVERFLOW_LOG_SECS, WATCHDOG_TIMEOUT_SECS,
};
use hop::macos::cursor::Bounds;
use hop::screen::{steps, Rect, Screen, WHOLE};
use hop::time::{Duration, Instant};

const WIDTH: i32 = 1000;
const HEIGHT: i32 = 800;

fn bounds() -> Bounds {
    Bounds {
        min_x: 0,
        min_y: 0,
        max_x: steps(WIDTH),
        max_y: steps(HEIGHT),
    }
}

fn capture() -> Capture {
    let screen = Screen::single(Rect::from_origin_size(0, 0, steps(WIDTH), steps(HEIGHT)));
    Capture::new(
        Edge::Top,
        bounds(),
        screen,
        None,
        vec![Usage(Usage::LEFT_SHIFT), Usage(Usage::ESCAPE)],
    )
}

fn event(event_type: EventType, x: i32, y: i32) -> TapEvent {
    TapEvent {
        event_type,
        keycode: 0,
        flags: 0,
        delta_x: 0,
        delta_y: 0,
        button_number: 0,
        continuous: false,
        point_delta_x: 0,
        point_delta_y: 0,
        line_delta_x: 0,
        line_delta_y: 0,
        x: steps(x),
        y: steps(y),
    }
}

fn motion(x: i32, y: i32) -> TapEvent {
    event(EventType::MouseMoved, x, y)
}

#[test]
fn nobody_connected_nothing_suppressed() {
    let mut capture = capture();
    let outcome = capture.handle_event(&motion(500, 0));
    assert!(!outcome.suppress && !outcome.park);
    assert!(!capture.is_remote());
    assert_eq!(capture.poll(), None);
}

#[test]
fn a_crossing_takes_effect_at_once() {
    let mut capture = capture();
    capture.peer_arrived();
    let outcome = capture.handle_event(&motion(750, 0));
    assert!(outcome.suppress && outcome.park);
    assert!(capture.is_remote());
    assert_eq!(capture.last_crossing_fraction(), WHOLE / 4 * 3);
    assert_eq!(capture.last_crossing_along(), i64::from(steps(250)));
    assert_eq!(capture.poll(), Some(InputEvent::EdgeCrossed));
    assert_eq!(capture.poll(), None);

    let mut moved = motion(500, 400);
    moved.delta_x = 3;
    moved.delta_y = -1;
    assert!(capture.handle_event(&moved).suppress);
    assert_eq!(capture.poll(), Some(InputEvent::Mouse { dx: 3, dy: -1 }));
}

#[test]
fn a_restored_cursor_does_not_cross_again() {
    let mut capture = capture();
    capture.peer_arrived();
    capture.handle_event(&motion(500, 0));
    capture.set_remote(false);
    let (x, y) = capture.unpark().expect("parked");
    assert_eq!(capture.unpark(), None);
    let mut back = motion(0, 0);
    back.x = x;
    back.y = y;
    assert!(!capture.handle_event(&back).suppress);
    assert!(!capture.is_remote());
}

#[test]
fn the_escape_frees_local_input_and_is_passed_on() {
    let mut capture = capture();
    capture.peer_arrived();
    capture.handle_event(&motion(500, 0));
    capture.poll();

    let mut shift = event(EventType::FlagsChanged, 500, 400);
    shift.keycode = 56;
    shift.flags = 0x2;
    assert!(capture.handle_event(&shift).suppress);
    let mut escape = event(EventType::KeyDown, 500, 400);
    escape.keycode = 53;
    let outcome = capture.handle_event(&escape);
    assert!(!outcome.suppress);
    assert!(outcome.restore.is_some());
    assert!(!capture.is_remote());
    let key = |usage: u16| {
        Some(InputEvent::Key {
            usage: Usage(usage),
            pressed: true,
        })
    };
    assert_eq!(capture.poll(), key(Usage::LEFT_SHIFT));
    assert_eq!(capture.poll(), key(Usage::ESCAPE));
}

#[test]
fn local_input_is_not_kept() {
    let mut capture = capture();
    capture.peer_arrived();
    let mut typed = event(EventType::KeyDown, 500, 400);
    typed.keycode = 0;
    assert!(!capture.handle_event(&typed).suppress);
    assert_eq!(capture.poll(), None);
}

#[test]
fn losing_the_peer_frees_local_input() {
    let mut capture = capture();
    capture.peer_arrived();
    capture.handle_event(&motion(500, 0));
    capture.peer_left();
    let outcome = capture.handle_event(&motion(500, 400));
    assert!(!outcome.suppress);
    assert!(outcome.restore.is_some());
}

#[test]
fn a_disabled_tap_is_switched_on() {
    let mut capture = capture();
    for event_type in [EventType::TapDisabledByTimeout, EventType::TapDisabledByUserInput] {
        let outcome = capture.handle_event(&event(event_type, 0, 0));
        assert!(outcome.reenable && !outcome.suppress);
    }
}

#[test]
fn a_trackpad_scrolls_in_whole_units() {
    let mut capture = capture();
    capture.peer_arrived();
    capture.handle_event(&motion(500, 0));
    capture.poll();
    let mut scroll = event(EventType::ScrollWheel, 500, 400);
    scroll.continuous = true;
    scroll.point_delta_y = 4;
    for _ in 0..2 {
        capture.handle_event(&scroll);
        assert_eq!(capture.poll(), Some(InputEvent::Scroll { dx: 0, dy: 0 }));
    }
    capture.handle_event(&scroll);
    assert_eq!(capture.poll(), Some(InputEvent::Scroll { dx: 0, dy: 1 }));
}

#[test]
fn a_full_queue_says_so() {
    let mut capture = capture();
    capture.peer_arrived();
    capture.handle_event(&motion(500, 0));
    for _ in 1..MAX_QUEUED_EVENTS {
        assert!(!capture.handle_event(&motion(500, 400)).overflowed);
    }
    assert!(capture.handle_event(&motion(500, 400)).overflowed);
    assert_eq!(capture.poll(), Some(InputEvent::Mouse { dx: 0, dy: 0 }));
}

#[test]
fn a_crossing_is_measured_along_its_edge() {
    assert_eq!(crossing_fraction(Edge::Top, steps(250), 0, bounds()), WHOLE / 4);
    assert_eq!(crossing_fraction(Edge::Left, 0, steps(400), bounds()), WHOLE / 2);
    assert_eq!(crossing_fraction(Edge::Top, steps(-5), 0, bounds()), 0);
    assert_eq!(crossing_fraction(Edge::Top, steps(5000), 0, bounds()), WHOLE);
}

#[test]
fn the_watchdog_switches_on_only_what_is_off() {
    let quiet = Duration::from_secs(WATCHDOG_TIMEOUT_SECS);
    assert_eq!(watchdog(Duration::from_millis(10), Some(false)), WatchdogAction::Wait);
    assert_eq!(watchdog(quiet, Some(false)), WatchdogAction::Reenable);
    assert_eq!(watchdog(quiet, Some(true)), WatchdogAction::Idle);
    assert_eq!(watchdog(quiet, None), WatchdogAction::Stop);
}

#[test]
fn a_flood_is_logged_once_in_a_while() {
    let at = |secs: u64| Instant::since_origin(Duration::from_secs(secs));
    let mut log = OverflowLog::new();
    assert!(log.overflowed(at(100)));
    assert!(!log.overflowed(at(100)));
    assert!(!log.overflowed(at(100 + QUEUE_OVERFLOW_LOG_SECS - 1)));
    assert!(log.overflowed(at(100 + QUEUE_OVERFLOW_LOG_SECS)));
}

#[test]
fn the_cursor_comes_home_where_the_peer_said() {
    // The anchor is the middle of the only display.
    for (along, x) in [(0, 500), (-200, 300), (499, 999), (9000, 999), (-501, 0)] {
        let mut capture = capture();
        capture.peer_arrived();
        assert!(capture.handle_event(&motion(100, 0)).park);
        capture.come_home(i64::from(steps(along)));
        assert!(capture.is_remote(), "where input goes is said separately");
        capture.set_remote(false);
        let outcome = capture.handle_event(&motion(100, 400));
        assert_eq!(outcome.restore, Some((steps(x), steps(12))), "{along}");
        assert!(!capture.handle_event(&motion(x, 12)).park, "{along}");
    }
}

#[test]
fn coming_home_from_far_away_lands_at_a_corner() {
    for (along, x) in [(i64::MAX, WIDTH - 1), (i64::MIN, 0)] {
        let mut capture = capture();
        capture.peer_arrived();
        assert!(capture.handle_event(&motion(100, 0)).park);
        capture.come_home(along);
        assert_eq!(capture.unpark(), Some((steps(x), steps(12))));
    }
}

#[test]
fn a_cursor_that_is_not_parked_stays_where_it_is() {
    let mut capture = capture();
    capture.peer_arrived();
    capture.come_home(0);
    assert_eq!(capture.unpark(), None);
    assert_eq!(capture.handle_event(&motion(100, 400)).restore, None);
}
