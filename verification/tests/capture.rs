use std::collections::HashSet;

use hop::device::InputEvent;
use hop::held::HeldKeys;
use hop::hotkey::hotkey_matched;
use hop::keys::Usage;
use hop::macos::capture::{
    scale_continuous_scroll, should_begin_crossing, translate, translate_modifier, Edge, EventQueue,
    EventType, MAX_QUEUED_EVENTS,
};
use hop::macos::cursor::Bounds;
use hop::message::Button;
use hop::screen::UNIT;

fn to_steps(v: f64) -> i32 {
    (v * f64::from(UNIT)) as i32
}

fn units(v: i32) -> f64 {
    f64::from(v) / f64::from(UNIT)
}

#[derive(Clone, Copy)]
struct Area {
    min_x: f64,
    min_y: f64,
    max_x: f64,
    max_y: f64,
}

fn bounds(area: Area) -> Bounds {
    Bounds {
        min_x: to_steps(area.min_x),
        min_y: to_steps(area.min_y),
        max_x: to_steps(area.max_x),
        max_y: to_steps(area.max_y),
    }
}

fn crossed(edge: Edge, x: f64, y: f64, area: Area) -> bool {
    hop::macos::capture::crossed(edge, to_steps(x), to_steps(y), bounds(area))
}

fn nudge_inward(edge: Edge, x: f64, y: f64, area: Area) -> (f64, f64) {
    let (x, y) = hop::macos::capture::nudge_inward(edge, to_steps(x), to_steps(y), bounds(area));
    (units(x), units(y))
}

#[test]
fn translates_key_down() {
    assert_eq!(
        translate(EventType::KeyDown, 0, 0, 0, 0),
        Some(InputEvent::Key {
            usage: Usage(Usage::A),
            pressed: true
        })
    );
}

#[test]
fn translates_key_up() {
    assert_eq!(
        translate(EventType::KeyUp, 8, 0, 0, 0),
        Some(InputEvent::Key {
            usage: Usage(Usage::C),
            pressed: false
        })
    );
}

#[test]
fn translates_mouse_move_from_deltas_not_position() {
    assert_eq!(
        translate(EventType::MouseMoved, 0, 12, -7, 0),
        Some(InputEvent::Mouse { dx: 12, dy: -7 })
    );
}

#[test]
fn translates_dragged_events_as_motion_like_mouse_moved() {
    assert_eq!(
        translate(EventType::LeftMouseDragged, 0, 5, -2, 0),
        Some(InputEvent::Mouse { dx: 5, dy: -2 })
    );
    assert_eq!(
        translate(EventType::RightMouseDragged, 0, -3, 9, 0),
        Some(InputEvent::Mouse { dx: -3, dy: 9 })
    );
}

#[test]
fn translates_scroll() {
    assert_eq!(
        translate(EventType::ScrollWheel, 0, 1, -3, 0),
        Some(InputEvent::Scroll { dx: 1, dy: -3 })
    );
}

#[test]
fn unmapped_keycode_yields_none_rather_than_a_guess() {
    assert_eq!(translate(EventType::KeyDown, 9999, 0, 0, 0), None);
    assert_eq!(translate(EventType::KeyUp, 9999, 0, 0, 0), None);
}

#[test]
fn translates_mouse_buttons() {
    assert_eq!(
        translate(EventType::LeftMouseDown, 0, 0, 0, 0),
        Some(InputEvent::Button {
            button: Button::Left,
            pressed: true
        })
    );
    assert_eq!(
        translate(EventType::RightMouseUp, 0, 0, 0, 0),
        Some(InputEvent::Button {
            button: Button::Right,
            pressed: false
        })
    );
}

#[test]
fn translates_middle_button_from_other_mouse_events() {
    assert_eq!(
        translate(EventType::OtherMouseDown, 0, 0, 0, 2),
        Some(InputEvent::Button {
            button: Button::Middle,
            pressed: true
        })
    );
    assert_eq!(
        translate(EventType::OtherMouseUp, 0, 0, 0, 2),
        Some(InputEvent::Button {
            button: Button::Middle,
            pressed: false
        })
    );
}

#[test]
fn other_mouse_buttons_past_middle_are_ignored_not_guessed() {
    assert_eq!(translate(EventType::OtherMouseDown, 0, 0, 0, 3), None);
    assert_eq!(translate(EventType::OtherMouseUp, 0, 0, 0, 4), None);
}

#[test]
fn irrelevant_event_types_yield_none() {
    assert_eq!(translate(EventType::FlagsChanged, 56, 0, 0, 0), None);
    assert_eq!(
        translate(EventType::TapDisabledByTimeout, 0, 0, 0, 0),
        None
    );
}

#[test]
fn left_shift_reads_from_its_own_device_bit() {
    let mut held = HashSet::new();
    let down = 0x0002_0000 | 0x2;
    assert_eq!(
        translate_modifier(56, down, &mut held),
        Some(InputEvent::Key {
            usage: Usage(Usage::LEFT_SHIFT),
            pressed: true
        })
    );
    assert_eq!(
        translate_modifier(56, 0, &mut held),
        Some(InputEvent::Key {
            usage: Usage(Usage::LEFT_SHIFT),
            pressed: false
        })
    );
}

#[test]
fn right_shift_is_distinguished_from_left_by_its_own_device_bit() {
    let mut held = HashSet::new();
    let right_down = 0x0002_0000 | 0x4;
    assert_eq!(
        translate_modifier(60, right_down, &mut held),
        Some(InputEvent::Key {
            usage: Usage(Usage::RIGHT_SHIFT),
            pressed: true
        })
    );
    assert_eq!(
        translate_modifier(56, right_down, &mut held),
        Some(InputEvent::Key {
            usage: Usage(Usage::LEFT_SHIFT),
            pressed: false
        })
    );
}

#[test]
fn shift_state_survives_a_dropped_flags_changed_event() {
    let mut held = HashSet::new();
    let down = 0x0002_0000 | 0x2; // left shift down
    assert_eq!(
        translate_modifier(56, down, &mut held),
        Some(InputEvent::Key {
            usage: Usage(Usage::LEFT_SHIFT),
            pressed: true
        })
    );
    assert_eq!(
        translate_modifier(56, down, &mut held),
        Some(InputEvent::Key {
            usage: Usage(Usage::LEFT_SHIFT),
            pressed: true
        })
    );
}

#[test]
fn caps_lock_still_toggles_via_the_held_set() {
    let mut held = HashSet::new();
    assert_eq!(
        translate_modifier(57, 0, &mut held),
        Some(InputEvent::Key {
            usage: Usage(0x39),
            pressed: true
        })
    );
    assert!(held.contains(&57));
    assert_eq!(
        translate_modifier(57, 0, &mut held),
        Some(InputEvent::Key {
            usage: Usage(0x39),
            pressed: false
        })
    );
    assert!(!held.contains(&57));
}

#[test]
fn unmapped_modifier_yields_none_and_does_not_get_tracked() {
    let mut held = HashSet::new();
    assert_eq!(translate_modifier(9999, 0, &mut held), None);
    assert!(held.is_empty());
}

const SCREEN_W: f64 = 1920.0;
const SCREEN_H: f64 = 1080.0;
const SINGLE_DISPLAY: Area = Area {
    min_x: 0.0,
    min_y: 0.0,
    max_x: SCREEN_W,
    max_y: SCREEN_H,
};

#[test]
fn top_edge_triggers_exactly_at_y_zero() {
    assert!(crossed(Edge::Top, 960.0, 0.0, SINGLE_DISPLAY));
}

#[test]
fn top_edge_does_not_trigger_just_inside() {
    assert!(!crossed(Edge::Top, 960.0, 5.0, SINGLE_DISPLAY));
}

#[test]
fn bottom_edge_triggers_at_the_screen_height_boundary() {
    assert!(crossed(Edge::Bottom, 960.0, SCREEN_H - 1.0, SINGLE_DISPLAY));
}

#[test]
fn bottom_edge_does_not_trigger_just_inside() {
    assert!(!crossed(
        Edge::Bottom,
        960.0,
        SCREEN_H - 6.0,
        SINGLE_DISPLAY
    ));
}

#[test]
fn left_edge_triggers_exactly_at_x_zero() {
    assert!(crossed(Edge::Left, 0.0, 540.0, SINGLE_DISPLAY));
}

#[test]
fn left_edge_does_not_trigger_just_inside() {
    assert!(!crossed(Edge::Left, 5.0, 540.0, SINGLE_DISPLAY));
}

#[test]
fn right_edge_triggers_at_the_screen_width_boundary() {
    assert!(crossed(Edge::Right, SCREEN_W - 1.0, 540.0, SINGLE_DISPLAY));
}

#[test]
fn right_edge_does_not_trigger_just_inside() {
    assert!(!crossed(Edge::Right, SCREEN_W - 6.0, 540.0, SINGLE_DISPLAY));
}

#[test]
fn only_the_top_edge_triggers_at_the_top_boundary() {
    let (x, y) = (960.0, 0.0);
    assert!(crossed(Edge::Top, x, y, SINGLE_DISPLAY));
    assert!(!crossed(Edge::Bottom, x, y, SINGLE_DISPLAY));
    assert!(!crossed(Edge::Left, x, y, SINGLE_DISPLAY));
    assert!(!crossed(Edge::Right, x, y, SINGLE_DISPLAY));
}

#[test]
fn only_the_left_edge_triggers_at_the_left_boundary() {
    let (x, y) = (0.0, 540.0);
    assert!(crossed(Edge::Left, x, y, SINGLE_DISPLAY));
    assert!(!crossed(Edge::Top, x, y, SINGLE_DISPLAY));
    assert!(!crossed(Edge::Bottom, x, y, SINGLE_DISPLAY));
    assert!(!crossed(Edge::Right, x, y, SINGLE_DISPLAY));
}

#[test]
fn only_the_right_edge_triggers_at_the_right_boundary() {
    let (x, y) = (SCREEN_W - 1.0, 540.0);
    assert!(crossed(Edge::Right, x, y, SINGLE_DISPLAY));
    assert!(!crossed(Edge::Top, x, y, SINGLE_DISPLAY));
    assert!(!crossed(Edge::Bottom, x, y, SINGLE_DISPLAY));
    assert!(!crossed(Edge::Left, x, y, SINGLE_DISPLAY));
}

#[test]
fn only_the_bottom_edge_triggers_at_the_bottom_boundary() {
    let (x, y) = (960.0, SCREEN_H - 1.0);
    assert!(crossed(Edge::Bottom, x, y, SINGLE_DISPLAY));
    assert!(!crossed(Edge::Top, x, y, SINGLE_DISPLAY));
    assert!(!crossed(Edge::Left, x, y, SINGLE_DISPLAY));
    assert!(!crossed(Edge::Right, x, y, SINGLE_DISPLAY));
}

const ABOVE_MAIN: Area = Area {
    min_x: -320.0,
    min_y: -1440.0,
    max_x: 2240.0,
    max_y: 1080.0,
};
const BELOW_MAIN: Area = Area {
    min_x: 0.0,
    min_y: 0.0,
    max_x: 2120.0,
    max_y: 2160.0,
};

#[test]
fn top_edge_does_not_trigger_at_the_main_displays_own_top_when_a_display_sits_above_it() {
    assert!(!crossed(Edge::Top, 500.0, 0.0, ABOVE_MAIN));
}

#[test]
fn top_edge_triggers_at_the_true_top_of_a_display_above_main() {
    assert!(crossed(Edge::Top, 500.0, ABOVE_MAIN.min_y, ABOVE_MAIN));
    assert!(!crossed(
        Edge::Top,
        500.0,
        ABOVE_MAIN.min_y + 5.0,
        ABOVE_MAIN
    ));
}

#[test]
fn bottom_edge_does_not_trigger_at_the_main_displays_own_bottom_when_a_display_sits_below_it() {
    assert!(!crossed(Edge::Bottom, 500.0, SCREEN_H - 1.0, BELOW_MAIN));
}

#[test]
fn bottom_edge_triggers_at_the_true_bottom_of_a_display_below_main() {
    assert!(crossed(
        Edge::Bottom,
        500.0,
        BELOW_MAIN.max_y - 1.0,
        BELOW_MAIN
    ));
    assert!(!crossed(
        Edge::Bottom,
        500.0,
        BELOW_MAIN.max_y - 6.0,
        BELOW_MAIN
    ));
}

#[test]
fn each_edge_triggers_at_and_only_at_its_own_boundary_with_negative_origins() {
    let bounds = Area {
        min_x: -500.0,
        min_y: -300.0,
        max_x: 1420.0,
        max_y: 780.0,
    };

    assert!(crossed(Edge::Top, 0.0, bounds.min_y, bounds));
    assert!(!crossed(Edge::Top, 0.0, bounds.min_y + 5.0, bounds));

    assert!(crossed(Edge::Bottom, 0.0, bounds.max_y - 1.0, bounds));
    assert!(!crossed(Edge::Bottom, 0.0, bounds.max_y - 6.0, bounds));

    assert!(crossed(Edge::Left, bounds.min_x, 0.0, bounds));
    assert!(!crossed(Edge::Left, bounds.min_x + 5.0, 0.0, bounds));

    assert!(crossed(Edge::Right, bounds.max_x - 1.0, 0.0, bounds));
    assert!(!crossed(Edge::Right, bounds.max_x - 6.0, 0.0, bounds));
}

#[test]
fn nudge_inward_moves_away_from_each_edge_past_its_own_boundary() {
    let (_, y) = nudge_inward(Edge::Top, 960.0, 0.0, SINGLE_DISPLAY);
    assert!(!crossed(Edge::Top, 960.0, y, SINGLE_DISPLAY));

    let (_, y) = nudge_inward(Edge::Bottom, 960.0, SCREEN_H - 1.0, SINGLE_DISPLAY);
    assert!(!crossed(Edge::Bottom, 960.0, y, SINGLE_DISPLAY));

    let (x, _) = nudge_inward(Edge::Left, 0.0, 540.0, SINGLE_DISPLAY);
    assert!(!crossed(Edge::Left, x, 540.0, SINGLE_DISPLAY));

    let (x, _) = nudge_inward(Edge::Right, SCREEN_W - 1.0, 540.0, SINGLE_DISPLAY);
    assert!(!crossed(Edge::Right, x, 540.0, SINGLE_DISPLAY));
}

#[test]
fn nudge_inward_moves_away_from_the_true_edge_on_a_multi_display_union() {
    let (_, y) = nudge_inward(Edge::Top, 500.0, ABOVE_MAIN.min_y, ABOVE_MAIN);
    assert!(!crossed(Edge::Top, 500.0, y, ABOVE_MAIN));
}

#[test]
fn nudge_inward_clamps_on_a_screen_smaller_than_the_margin() {
    let tiny = Area {
        min_x: 0.0,
        min_y: 0.0,
        max_x: 3.0,
        max_y: 3.0,
    };
    let (x, _) = nudge_inward(Edge::Left, 0.0, 5.0, tiny);
    assert!((tiny.min_x..=tiny.max_x).contains(&x));

    let (_, y) = nudge_inward(Edge::Top, 5.0, 0.0, tiny);
    assert!((tiny.min_y..=tiny.max_y).contains(&y));
}

#[test]
fn crossing_with_no_peer_connected_is_a_no_op() {
    assert!(!should_begin_crossing(false, true));
}

#[test]
fn crossing_with_a_peer_connected_starts_a_crossing() {
    assert!(should_begin_crossing(true, true));
}

#[test]
fn no_edge_crossing_never_starts_one_regardless_of_peer_state() {
    assert!(!should_begin_crossing(true, false));
    assert!(!should_begin_crossing(false, false));
}

#[test]
fn hotkey_matches_once_every_key_in_the_combo_is_held() {
    let combo: Vec<Usage> = [Usage(Usage::LEFT_CTRL), Usage(Usage::LEFT_ALT), Usage(Usage::ESCAPE)]
        .into_iter()
        .collect();
    let mut held = HeldKeys::new();
    held.record(Usage(Usage::LEFT_CTRL), true);
    held.record(Usage(Usage::LEFT_ALT), true);
    assert!(!hotkey_matched(&combo, &held), "combo not fully held yet");
    held.record(Usage(Usage::ESCAPE), true);
    assert!(hotkey_matched(&combo, &held), "combo now fully held");
}

#[test]
fn an_empty_combo_never_matches() {
    let combo: Vec<Usage> = Vec::new();
    let mut held = HeldKeys::new();
    held.record(Usage(Usage::A), true);
    held.record(Usage(Usage::LEFT_GUI), true);
    assert!(!hotkey_matched(&combo, &held));
}

#[test]
fn extra_held_keys_beyond_the_combo_still_match() {
    let combo: Vec<Usage> = [Usage(Usage::LEFT_CTRL), Usage(Usage::LEFT_ALT)].into_iter().collect();
    let mut held = HeldKeys::new();
    held.record(Usage(Usage::LEFT_CTRL), true);
    held.record(Usage(Usage::LEFT_ALT), true);
    held.record(Usage(Usage::A), true);
    assert!(hotkey_matched(&combo, &held));
}

#[test]
fn a_single_flick_is_scaled_down_to_a_few_notches_not_thousands_of_units() {
    let (units, remainder) = scale_continuous_scroll(30, 0);
    assert_eq!(units, 3);
    assert_eq!(remainder, 0);
}

#[test]
fn slow_scrolling_accumulates_across_events_instead_of_being_discarded() {
    let mut remainder = 0;
    let mut total_units = 0;
    for _ in 0..6 {
        let (units, new_remainder) = scale_continuous_scroll(5, remainder);
        total_units += units;
        remainder = new_remainder;
    }
    assert_eq!(total_units, 3);
    assert_eq!(remainder, 0);
}

#[test]
fn negative_deltas_scale_and_accumulate_the_same_way() {
    let (units, remainder) = scale_continuous_scroll(-30, 0);
    assert_eq!(units, -3);
    assert_eq!(remainder, 0);

    let mut remainder = 0;
    let mut total_units = 0;
    for _ in 0..6 {
        let (units, new_remainder) = scale_continuous_scroll(-5, remainder);
        total_units += units;
        remainder = new_remainder;
    }
    assert_eq!(total_units, -3);
}

#[test]
fn event_queue_pops_in_fifo_order() {
    let mut queue = EventQueue::new();
    queue.push(InputEvent::Mouse { dx: 1, dy: 0 });
    queue.push(InputEvent::Mouse { dx: 2, dy: 0 });
    queue.push(InputEvent::Mouse { dx: 3, dy: 0 });
    assert_eq!(queue.pop(), Some(InputEvent::Mouse { dx: 1, dy: 0 }));
    assert_eq!(queue.pop(), Some(InputEvent::Mouse { dx: 2, dy: 0 }));
    assert_eq!(queue.pop(), Some(InputEvent::Mouse { dx: 3, dy: 0 }));
    assert_eq!(queue.pop(), None);
}

#[test]
fn event_queue_drops_the_oldest_event_once_the_cap_is_reached() {
    let mut queue = EventQueue::new();
    for i in 0..MAX_QUEUED_EVENTS {
        queue.push(InputEvent::Mouse {
            dx: i as i32,
            dy: 0,
        });
    }
    queue.push(InputEvent::Mouse {
        dx: MAX_QUEUED_EVENTS as i32,
        dy: 0,
    });
    assert_eq!(queue.pop(), Some(InputEvent::Mouse { dx: 1, dy: 0 }));
    let mut remaining = 1;
    while queue.pop().is_some() {
        remaining += 1;
    }
    assert_eq!(remaining, MAX_QUEUED_EVENTS);
}
