use hop::macos::cursor::{union_rects, Bounds};
use hop::screen::{Rect, UNIT};

fn to_steps(v: f64) -> i32 {
    (v * f64::from(UNIT)) as i32
}

fn units(v: i32) -> f64 {
    f64::from(v) / f64::from(UNIT)
}

fn rect(x: f64, y: f64, width: f64, height: f64) -> Rect {
    Rect::from_origin_size(to_steps(x), to_steps(y), to_steps(width), to_steps(height))
}

#[derive(Debug, Clone, Copy, PartialEq)]
struct Area {
    min_x: f64,
    min_y: f64,
    max_x: f64,
    max_y: f64,
}

fn area(bounds: Bounds) -> Area {
    Area {
        min_x: units(bounds.min_x),
        min_y: units(bounds.min_y),
        max_x: units(bounds.max_x),
        max_y: units(bounds.max_y),
    }
}

#[test]
fn union_of_no_rects_is_none() {
    assert_eq!(union_rects(&Vec::new()), None);
}

#[test]
fn union_of_one_rect_is_its_own_bounds() {
    let bounds = union_rects(&vec![rect(0.0, 0.0, 1920.0, 1080.0)]).map(area).unwrap();
    assert_eq!(
        bounds,
        Area {
            min_x: 0.0,
            min_y: 0.0,
            max_x: 1920.0,
            max_y: 1080.0,
        }
    );
}

#[test]
fn union_extends_upward_for_a_display_above_main() {
    let main = rect(0.0, 0.0, 1920.0, 1080.0);
    let above = rect(-320.0, -1440.0, 2560.0, 1440.0);
    let bounds = union_rects(&vec![main, above]).map(area).unwrap();
    assert_eq!(
        bounds,
        Area {
            min_x: -320.0,
            min_y: -1440.0,
            max_x: 2240.0,
            max_y: 1080.0,
        }
    );
}

#[test]
fn union_extends_leftward_for_a_display_to_the_left() {
    let main = rect(0.0, 0.0, 1920.0, 1080.0);
    let left = rect(-1920.0, 0.0, 1920.0, 1080.0);
    let bounds = union_rects(&vec![main, left]).map(area).unwrap();
    assert_eq!(bounds.min_x, -1920.0);
    assert_eq!(bounds.max_x, 1920.0);
}

#[test]
fn union_is_order_independent() {
    let main = rect(0.0, 0.0, 1920.0, 1080.0);
    let above = rect(-320.0, -1440.0, 2560.0, 1440.0);
    let forward = union_rects(&vec![main, above]).map(area).unwrap();
    let backward = union_rects(&vec![above, main]).map(area).unwrap();
    assert_eq!(forward, backward);
}
