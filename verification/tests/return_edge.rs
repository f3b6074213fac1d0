use hop::screen::{Rect, Screen, UNIT};
use hop::windows::return_edge::{return_crossing, ReturnEdge};

fn rect(min_x: f64, min_y: f64, max_x: f64, max_y: f64) -> Rect {
    let steps = |v: f64| (v * f64::from(UNIT)) as i32;
    Rect::new(steps(min_x), steps(min_y), steps(max_x), steps(max_y))
}

fn crossing_at(
    edge: ReturnEdge,
    anchor: Option<i64>,
    screen: &Screen,
    position: Option<(i32, i32)>,
) -> Option<f64> {
    return_crossing(edge, anchor, screen, position).map(|along| along as f64 / f64::from(UNIT))
}

struct FakeSource {
    position: Option<(i32, i32)>,
    screen: Screen,
}

fn one_monitor() -> Screen {
    Screen::new(vec![rect(0.0, 0.0, 1920.0, 1080.0)], 0)
}

fn released(edge: ReturnEdge, source: &FakeSource) -> bool {
    crossing_at(edge, None, &source.screen, source.position).is_some()
}

#[test]
fn parses_the_four_edge_names() {
    assert_eq!(ReturnEdge::parse("top"), Some(ReturnEdge::Top));
    assert_eq!(ReturnEdge::parse("bottom"), Some(ReturnEdge::Bottom));
    assert_eq!(ReturnEdge::parse("left"), Some(ReturnEdge::Left));
    assert_eq!(ReturnEdge::parse("right"), Some(ReturnEdge::Right));
}

#[test]
fn an_unknown_edge_name_is_none_rather_than_a_guess() {
    assert_eq!(ReturnEdge::parse("diagonal"), None);
    assert_eq!(ReturnEdge::parse(""), None);
}

#[test]
fn cursor_at_the_return_edge_says_release() {
    let source = FakeSource {
        position: Some((960, 1079)),
        screen: one_monitor(),
    };
    assert_eq!(
        crossing_at(ReturnEdge::Bottom, None, &source.screen, source.position),
        Some(0.0)
    );
}

#[test]
fn the_release_carries_where_along_the_edge_the_cursor_left() {
    let source = FakeSource {
        position: Some((1400, 1079)),
        screen: one_monitor(),
    };
    assert_eq!(
        crossing_at(ReturnEdge::Bottom, None, &source.screen, source.position),
        Some(440.0)
    );
}

#[test]
fn cursor_elsewhere_says_no_release() {
    let source = FakeSource {
        position: Some((960, 500)),
        screen: one_monitor(),
    };
    assert!(!released(ReturnEdge::Bottom, &source));
}

#[test]
fn the_bottom_of_a_shorter_monitor_still_releases() {
    let source = FakeSource {
        position: Some((3000, 1079)),
        screen: Screen::new(
            vec![
                rect(0.0, 0.0, 2560.0, 1440.0),
                rect(2560.0, 0.0, 4480.0, 1080.0),
            ],
            0,
        ),
    };
    assert!(released(ReturnEdge::Bottom, &source));
}

#[test]
fn a_seam_between_two_monitors_never_releases() {
    let source = FakeSource {
        position: Some((960, 1079)),
        screen: Screen::new(
            vec![
                rect(0.0, 0.0, 1920.0, 1080.0),
                rect(0.0, 1080.0, 1920.0, 2160.0),
            ],
            0,
        ),
    };
    assert!(!released(ReturnEdge::Bottom, &source));
}

#[test]
fn only_the_configured_edge_triggers_a_release() {
    let source = FakeSource {
        position: Some((1919, 1079)),
        screen: one_monitor(),
    };
    assert!(released(ReturnEdge::Bottom, &source));
    assert!(released(ReturnEdge::Right, &source));
    assert!(!released(ReturnEdge::Top, &source));
    assert!(!released(ReturnEdge::Left, &source));
}

#[test]
fn a_failed_position_read_never_triggers_a_release() {
    let source = FakeSource {
        position: None,
        screen: one_monitor(),
    };
    assert!(!released(ReturnEdge::Bottom, &source));
}

#[test]
fn a_secondary_monitor_to_the_left_puts_the_desktop_at_a_negative_origin() {
    let source = FakeSource {
        position: Some((-1920, 500)),
        screen: Screen::new(
            vec![
                rect(-1920.0, 0.0, 0.0, 1080.0),
                rect(0.0, 0.0, 1920.0, 1080.0),
            ],
            1,
        ),
    };
    assert!(released(ReturnEdge::Left, &source));
    assert!(!released(ReturnEdge::Right, &source));
}
