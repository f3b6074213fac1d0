use hop::device::{DeviceError, InputEvent};
use hop::keys::Usage;
use hop::message::Button;
use hop::screen::{steps, Rect, Screen, UNIT, WHOLE};
use hop::time::{Duration, Instant};
use hop::windows::inject::{
    button_input, delivered, key_input, mouse_move_absolute_input, scale_delta, scroll_inputs,
    wheel_delta, Desktop, Input, MouseInput, WindowsInjector,
};
use hop::windows::return_edge::ReturnEdge;
use windows_sys::Win32::UI::Input::KeyboardAndMouse::{
    KEYEVENTF_EXTENDEDKEY, KEYEVENTF_KEYUP, KEYEVENTF_SCANCODE, MOUSEEVENTF_ABSOLUTE,
    MOUSEEVENTF_HWHEEL, MOUSEEVENTF_LEFTDOWN, MOUSEEVENTF_LEFTUP, MOUSEEVENTF_MIDDLEDOWN,
    MOUSEEVENTF_MIDDLEUP, MOUSEEVENTF_MOVE, MOUSEEVENTF_RIGHTDOWN, MOUSEEVENTF_RIGHTUP,
    MOUSEEVENTF_VIRTUALDESK, MOUSEEVENTF_WHEEL,
};

fn desktop(left: i32, top: i32, width: i32, height: i32) -> Desktop {
    Desktop { left, top, width, height }
}

fn parts(scale: f64) -> i64 {
    (scale * WHOLE as f64).round() as i64
}

#[test]
fn absolute_coordinates_span_the_whole_virtual_desktop() {
    let screen = desktop(0, 0, 1920, 1080);
    let top_left = mouse_move_absolute_input(0, 0, screen);
    let bottom_right = mouse_move_absolute_input(1919, 1079, screen);
    assert_eq!(top_left.dx, 0);
    assert_eq!(top_left.dy, 0);
    assert!(bottom_right.dx > 65000);
    assert!(bottom_right.dy > 65000);
}

#[test]
fn absolute_coordinates_handle_a_negative_origin() {
    let screen = desktop(-1920, -1080, 3840, 2160);
    let at_origin = mouse_move_absolute_input(-1920, -1080, screen);
    assert_eq!(at_origin.dx, 0);
    assert_eq!(at_origin.dy, 0);
}

#[test]
fn a_zero_sized_desktop_does_not_divide_by_zero() {
    let input = mouse_move_absolute_input(0, 0, desktop(0, 0, 0, 0));
    assert_eq!(input.dx, 0);
}

#[test]
fn scaling_reduces_a_delta() {
    let mut rem = (0, 0);
    assert_eq!(scale_delta(10, 10, parts(0.5), &mut rem), (5, 5));
}

#[test]
fn a_scale_of_one_changes_nothing() {
    let mut rem = (0, 0);
    assert_eq!(scale_delta(7, -3, parts(1.0), &mut rem), (7, -3));
}

#[test]
fn slow_movement_is_not_rounded_away_to_nothing() {
    let mut rem = (0, 0);
    let mut moved = 0;
    for _ in 0..10 {
        let (dx, _) = scale_delta(1, 0, parts(0.5), &mut rem);
        moved += dx;
    }
    assert_eq!(moved, 5, "ten one pixel steps at 0.5 should travel five");
}

#[test]
fn the_remainder_does_not_accumulate_error_over_time() {
    let mut rem = (0, 0);
    let mut moved = 0;
    for _ in 0..100 {
        let (dx, _) = scale_delta(3, 0, parts(0.7), &mut rem);
        moved += dx;
    }
    let expected = (100.0 * 3.0 * 0.7) as i32;
    assert!(
        (moved - expected).abs() <= 1,
        "drifted: moved {moved}, expected about {expected}"
    );
}

#[test]
fn negative_deltas_scale_symmetrically() {
    let mut a = (0, 0);
    let mut b = (0, 0);
    let (px, _) = scale_delta(10, 0, parts(0.6), &mut a);
    let (nx, _) = scale_delta(-10, 0, parts(0.6), &mut b);
    assert_eq!(px, -nx);
}

#[test]
fn key_down_sets_no_keyup_flag() {
    let input = key_input(Usage(Usage::A), true).expect("A is mapped");
    let ki = input;
    assert_eq!(ki.flags & KEYEVENTF_KEYUP, 0);
    assert_ne!(ki.flags & KEYEVENTF_SCANCODE, 0);
}

#[test]
fn key_up_sets_keyup_flag() {
    let input = key_input(Usage(Usage::A), false).expect("A is mapped");
    let ki = input;
    assert_ne!(ki.flags & KEYEVENTF_KEYUP, 0);
}

#[test]
fn right_hand_modifier_sets_extended_flag() {
    let right = key_input(Usage(Usage::RIGHT_CTRL), true).expect("right ctrl is mapped");
    assert_ne!(right.flags & KEYEVENTF_EXTENDEDKEY, 0);

    let left = key_input(Usage(Usage::LEFT_CTRL), true).expect("left ctrl is mapped");
    assert_eq!(left.scancode, right.scancode);
    assert_eq!(left.flags & KEYEVENTF_EXTENDEDKEY, 0);
}

#[test]
fn unmapped_usage_returns_none() {
    assert!(key_input(Usage(0xFFFF), true).is_none());
}

#[test]
fn scroll_skips_zero_axes_but_keeps_nonzero_ones() {
    assert!(scroll_inputs(0, 0).is_empty());
    assert_eq!(scroll_inputs(0, 2).len(), 1);
    assert_eq!(scroll_inputs(3, 0).len(), 1);
    assert_eq!(scroll_inputs(3, 2).len(), 2);
}

#[test]
fn button_press_and_release_use_distinct_flags() {
    let down = button_input(Button::Left, true).flags;
    let up = button_input(Button::Left, false).flags;
    assert_eq!(down, MOUSEEVENTF_LEFTDOWN);
    assert_eq!(up, MOUSEEVENTF_LEFTUP);
}

fn one_monitor() -> Screen {
    Screen::single(Rect::new(0, 0, steps(1920), steps(1080)))
}

#[test]
fn the_flags_are_those_of_the_system() {
    use_flag(button_input(Button::Right, true).flags, MOUSEEVENTF_RIGHTDOWN);
    use_flag(button_input(Button::Right, false).flags, MOUSEEVENTF_RIGHTUP);
    use_flag(button_input(Button::Middle, true).flags, MOUSEEVENTF_MIDDLEDOWN);
    use_flag(button_input(Button::Middle, false).flags, MOUSEEVENTF_MIDDLEUP);
    use_flag(scroll_inputs(0, 1)[0].flags, MOUSEEVENTF_WHEEL);
    use_flag(scroll_inputs(1, 0)[0].flags, MOUSEEVENTF_HWHEEL);
    use_flag(
        mouse_move_absolute_input(0, 0, desktop(0, 0, 10, 10)).flags,
        MOUSEEVENTF_MOVE | MOUSEEVENTF_ABSOLUTE | MOUSEEVENTF_VIRTUALDESK,
    );
}

fn use_flag(got: u32, want: u32) {
    assert_eq!(got, want);
}

#[test]
fn a_wheel_notch_is_a_hundred_and_twenty_and_saturates() {
    assert_eq!(wheel_delta(1), 120);
    assert_eq!(wheel_delta(-3), -360);
    assert_eq!(wheel_delta(i32::MAX), i32::MAX);
    assert_eq!(wheel_delta(i32::MIN), i32::MIN);
}

#[test]
fn an_absolute_place_is_rounded_to_the_nearest_part() {
    // 960 of 1920 is half of 65535, which is rounded up.
    assert_eq!(mouse_move_absolute_input(960, 540, desktop(0, 0, 1920, 1080)).dx, 32768);
    assert_eq!(mouse_move_absolute_input(1, 0, desktop(0, 0, 65535, 1)).dx, 1);
    assert_eq!(mouse_move_absolute_input(-5, 0, desktop(0, 0, 100, 100)).dx, 0);
    assert_eq!(mouse_move_absolute_input(500, 0, desktop(0, 0, 100, 100)).dx, 65535);
}

#[test]
fn a_motion_moves_the_cursor_to_an_absolute_place_on_a_monitor() {
    let mut injector = WindowsInjector::new(Some(ReturnEdge::Bottom), None, WHOLE);
    let area = desktop(0, 0, 1920, 1080);
    let got = injector.inputs_for(
        &InputEvent::Mouse { dx: 10, dy: -20 },
        0,
        Some((100, 200)),
        &one_monitor(),
        area,
    );
    assert_eq!(got, vec![Input::Mouse(mouse_move_absolute_input(110, 180, area))]);
    // Past the edge it stays on the last row.
    let got = injector.inputs_for(
        &InputEvent::Mouse { dx: 0, dy: 5000 },
        0,
        Some((100, 200)),
        &one_monitor(),
        area,
    );
    assert_eq!(got, vec![Input::Mouse(mouse_move_absolute_input(100, 1079, area))]);
}

#[test]
fn a_motion_without_a_known_cursor_is_relative() {
    let mut injector = WindowsInjector::new(None, None, WHOLE);
    let got = injector.inputs_for(
        &InputEvent::Mouse { dx: 3, dy: 4 },
        0,
        None,
        &one_monitor(),
        desktop(0, 0, 1920, 1080),
    );
    assert_eq!(
        got,
        vec![Input::Mouse(MouseInput { dx: 3, dy: 4, data: 0, flags: MOUSEEVENTF_MOVE })]
    );
}

#[test]
fn a_motion_that_scales_to_nothing_sends_nothing_but_is_remembered() {
    let mut injector = WindowsInjector::new(None, None, parts(0.5));
    let area = desktop(0, 0, 1920, 1080);
    let one = InputEvent::Mouse { dx: 1, dy: 0 };
    assert!(injector.inputs_for(&one, 0, None, &one_monitor(), area).is_empty());
    assert_eq!(injector.inputs_for(&one, 0, None, &one_monitor(), area).len(), 1);
}

#[test]
fn focus_arrives_at_the_edge_it_leaves_by() {
    let mut injector = WindowsInjector::new(Some(ReturnEdge::Bottom), None, WHOLE);
    let area = desktop(0, 0, 1920, 1080);
    let got = injector.inputs_for(
        &InputEvent::Enter { along: 0 },
        i64::from(100 * UNIT),
        None,
        &one_monitor(),
        area,
    );
    assert_eq!(got, vec![Input::Mouse(mouse_move_absolute_input(1060, 1067, area))]);
}

#[test]
fn buttons_scrolls_and_keys_each_have_their_records() {
    let mut injector = WindowsInjector::new(None, None, WHOLE);
    let area = desktop(0, 0, 1920, 1080);
    let screen = one_monitor();
    let button = InputEvent::Button { button: Button::Left, pressed: true };
    assert_eq!(
        injector.inputs_for(&button, 0, None, &screen, area),
        vec![Input::Mouse(button_input(Button::Left, true))]
    );
    assert_eq!(
        injector.inputs_for(&InputEvent::Scroll { dx: 1, dy: 2 }, 0, None, &screen, area).len(),
        2
    );
    let key = InputEvent::Key { usage: Usage(Usage::A), pressed: true };
    assert_eq!(
        injector.inputs_for(&key, 0, None, &screen, area),
        vec![Input::Key(key_input(Usage(Usage::A), true).unwrap())]
    );
    let unknown = InputEvent::Key { usage: Usage(0xFFFF), pressed: true };
    assert!(injector.inputs_for(&unknown, 0, None, &screen, area).is_empty());
    assert!(injector.inputs_for(&InputEvent::EdgeCrossed, 0, None, &screen, area).is_empty());
}

#[test]
fn every_modifier_is_let_go_of_at_the_start() {
    let ups = WindowsInjector::new(None, None, WHOLE).release_all_modifiers();
    assert_eq!(ups.len(), 8);
    for (i, up) in ups.iter().enumerate() {
        let want = key_input(Usage(0xE0 + i as u16), false).unwrap();
        assert_eq!(*up, Input::Key(want));
    }
}

#[test]
fn a_release_is_asked_for_once_within_the_window() {
    let mut injector = WindowsInjector::new(Some(ReturnEdge::Bottom), None, WHOLE);
    let screen = one_monitor();
    let at = |millis: u64| Instant::since_origin(Duration::from_millis(millis));
    let edge = Some((960, 1079));
    assert_eq!(injector.reached_return_edge(edge, &screen, at(1000)), Some(0));
    assert_eq!(injector.reached_return_edge(edge, &screen, at(1001)), None);
    assert_eq!(injector.reached_return_edge(edge, &screen, at(1499)), None);
    assert_eq!(injector.reached_return_edge(edge, &screen, at(1500)), Some(0));
    let mut none = WindowsInjector::new(None, None, WHOLE);
    assert_eq!(none.reached_return_edge(edge, &screen, at(1000)), None);
}

#[test]
fn a_short_delivery_is_a_rejection_with_the_systems_code() {
    assert!(delivered(2, 2, 0).is_ok());
    match delivered(1, 2, 5) {
        Err(DeviceError::Rejected(reason)) => {
            assert_eq!(reason, "SendInput inserted 1 of 2 events (GetLastError = 5)")
        }
        Ok(()) => panic!("one of two is a failure"),
    }
}
