use hop::screen::{steps, Rect, Screen, Side, UNIT, WHOLE};

fn to_steps(v: f64) -> i32 {
    (v * f64::from(UNIT)) as i32
}

fn units(v: i32) -> f64 {
    f64::from(v) / f64::from(UNIT)
}

fn rect(min_x: f64, min_y: f64, max_x: f64, max_y: f64) -> Rect {
    Rect::new(to_steps(min_x), to_steps(min_y), to_steps(max_x), to_steps(max_y))
}

fn anchor(screen: &Screen, side: Side, fraction: Option<f64>) -> f64 {
    units(screen.anchor(side, fraction.map(|f| (f * WHOLE as f64) as i64)))
}

fn landing(screen: &Screen, side: Side, along: f64, margin: f64) -> Option<(f64, f64)> {
    screen
        .landing(side, i64::from(to_steps(along)), to_steps(margin))
        .map(|(x, y)| (units(x), units(y)))
}

fn at_outer_edge(screen: &Screen, side: Side, x: f64, y: f64) -> Option<f64> {
    screen.at_outer_edge(side, to_steps(x), to_steps(y)).map(units)
}

fn clamp_to_monitors(screen: &Screen, x: f64, y: f64) -> (f64, f64) {
    let (x, y) = screen.clamp_to_monitors(to_steps(x), to_steps(y));
    (units(x), units(y))
}

fn resting_point(screen: &Screen) -> Option<(f64, f64)> {
    screen.resting_point().map(|(x, y)| (units(x), units(y)))
}

fn pc() -> Screen {
    Screen::new(
        vec![
            rect(0.0, 0.0, 1920.0, 1080.0),
            rect(1920.0, 0.0, 3840.0, 1080.0),
        ],
        0,
    )
}

fn mac() -> Screen {
    Screen::new(vec![rect(0.0, 0.0, 1470.0, 956.0)], 0)
}

#[test]
fn a_crossing_from_the_middle_of_the_mac_lands_at_the_bottom_of_the_primary_monitor() {
    let (mac, pc) = (mac(), pc());
    let u = anchor(&mac, Side::Top, None) - anchor(&mac, Side::Top, None);
    let (x, y) = landing(&pc, Side::Bottom, u + anchor(&pc, Side::Bottom, None), 12.0)
        .expect("the reference PC has a bottom edge");
    assert_eq!((x, y), (960.0, 1067.0));
    assert!(pc.monitors()[0].contains(to_steps(x), to_steps(y)), "landed off the primary");
    assert!(y > 1000.0, "landed at the top instead of the bottom");
}

#[test]
fn a_landing_is_never_itself_at_the_edge() {
    for side in [Side::Top, Side::Bottom, Side::Left, Side::Right] {
        for screen in [pc(), mac()] {
            let along = anchor(&screen, side, None);
            let (x, y) = landing(&screen, side, along, 12.0).expect("has an edge");
            assert_eq!(
                at_outer_edge(&screen, side, x, y),
                None,
                "{side:?} landing at ({x}, {y}) would immediately cross back"
            );
        }
    }
}

#[test]
fn side_by_side_monitors_both_face_outward_along_the_bottom() {
    let segments = pc().outward_segments(Side::Bottom);
    assert_eq!(segments.len(), 2);
    assert_eq!((units(segments[0].lo), units(segments[0].hi)), (0.0, 1920.0));
    assert_eq!((units(segments[1].lo), units(segments[1].hi)), (1920.0, 3840.0));
    assert_eq!(units(segments[0].edge), 1079.0);
    assert_eq!(units(segments[1].edge), 1079.0);
}

#[test]
fn stacked_monitors_expose_only_the_lower_ones_bottom() {
    let screen = Screen::new(
        vec![
            rect(0.0, 0.0, 1920.0, 1080.0),
            rect(0.0, 1080.0, 1920.0, 2160.0),
        ],
        0,
    );
    let segments = screen.outward_segments(Side::Bottom);
    assert_eq!(segments.len(), 1);
    assert_eq!(segments[0].monitor, 1);
    assert_eq!(units(segments[0].edge), 2159.0);
}

#[test]
fn a_display_above_the_laptop_covers_only_the_part_it_overlaps() {
    let screen = Screen::new(
        vec![
            rect(0.0, 0.0, 2560.0, 1440.0),
            rect(320.0, -1080.0, 2240.0, 0.0),
        ],
        0,
    );
    let segments = screen.outward_segments(Side::Top);
    let laptop: Vec<_> = segments.iter().filter(|s| s.monitor == 0).collect();
    assert_eq!(laptop.len(), 2);
    assert_eq!((units(laptop[0].lo), units(laptop[0].hi)), (0.0, 320.0));
    assert_eq!((units(laptop[1].lo), units(laptop[1].hi)), (2240.0, 2560.0));
}

#[test]
fn the_bottom_of_a_shorter_monitor_is_still_an_edge() {
    let screen = Screen::new(
        vec![
            rect(0.0, 0.0, 2560.0, 1440.0),
            rect(2560.0, 0.0, 4480.0, 1080.0),
        ],
        0,
    );
    assert_eq!(
        at_outer_edge(&screen, Side::Bottom, 3000.0, 1079.0),
        Some(3000.0)
    );
    assert_eq!(
        at_outer_edge(&screen, Side::Bottom, 1000.0, 1439.0),
        Some(1000.0)
    );
    assert_eq!(at_outer_edge(&screen, Side::Bottom, 1000.0, 1079.0), None);
}

#[test]
fn a_seam_between_two_monitors_is_not_an_edge() {
    let screen = Screen::new(
        vec![
            rect(0.0, 0.0, 1920.0, 1080.0),
            rect(0.0, 1080.0, 1920.0, 2160.0),
        ],
        0,
    );
    assert_eq!(at_outer_edge(&screen, Side::Bottom, 960.0, 1079.0), None);
}

#[test]
fn a_return_from_the_far_monitor_clamps_to_the_mac_corner() {
    let (mac, pc) = (mac(), pc());
    let u = 3000.0 - anchor(&pc, Side::Bottom, None);
    assert_eq!(u, 2040.0);
    let along = u + anchor(&mac, Side::Top, None);
    assert_eq!(along, 2775.0);
    let (x, y) = landing(&mac, Side::Top, along, 12.0).expect("has a top edge");
    assert_eq!((x, y), (1469.0, 12.0));
}

#[test]
fn the_default_anchor_is_the_centre_of_the_primary_monitors_segment() {
    assert_eq!(anchor(&pc(), Side::Bottom, None), 960.0);
}

#[test]
fn an_anchor_override_is_a_fraction_of_the_whole_extent() {
    assert_eq!(anchor(&pc(), Side::Bottom, Some(0.5)), 1920.0);
    assert_eq!(anchor(&pc(), Side::Bottom, Some(0.75)), 2880.0);
    assert_eq!(anchor(&pc(), Side::Bottom, Some(2.0)), 3840.0);
    assert_eq!(anchor(&pc(), Side::Bottom, Some(-1.0)), 0.0);
}

#[test]
fn a_primary_monitor_that_does_not_face_the_edge_falls_back_to_the_extent_centre() {
    let screen = Screen::new(
        vec![
            rect(0.0, 0.0, 1920.0, 1080.0),
            rect(0.0, 1080.0, 1920.0, 2160.0),
        ],
        0,
    );
    assert_eq!(anchor(&screen, Side::Bottom, None), 960.0);
}

#[test]
fn a_position_survives_a_round_trip_through_the_anchor() {
    let (mac, pc) = (mac(), pc());
    for x in [0.0, 300.0, 735.0, 1200.0, 1469.0] {
        let u = x - anchor(&mac, Side::Top, None);
        let (px, _) = landing(&pc, Side::Bottom, u + anchor(&pc, Side::Bottom, None), 12.0)
            .unwrap();
        let back = (px - anchor(&pc, Side::Bottom, None)) + anchor(&mac, Side::Top, None);
        assert!((back - x).abs() < 1.0, "{x} came back as {back}");
    }
}

#[test]
fn clamping_leaves_a_point_inside_a_monitor_alone() {
    assert_eq!(clamp_to_monitors(&pc(), 2500.0, 500.0), (2500.0, 500.0));
}

#[test]
fn clamping_slides_a_dead_zone_point_onto_the_nearest_monitor() {
    let screen = Screen::new(
        vec![
            rect(0.0, 0.0, 2560.0, 1440.0),
            rect(2560.0, 0.0, 4480.0, 1080.0),
        ],
        0,
    );
    assert_eq!(clamp_to_monitors(&screen, 3000.0, 1300.0), (3000.0, 1079.0));
}

#[test]
fn a_crossing_at_the_mac_corner_lands_at_the_near_end_of_the_pc_edge() {
    let (mac, pc) = (mac(), pc());
    let along = at_outer_edge(&mac, Side::Top, 0.0, 0.0)
        .expect("the top-left corner is on the top edge");
    assert_eq!(along, 0.0);
    let u = along - anchor(&mac, Side::Top, None);
    let (x, y) = landing(&pc, Side::Bottom, u + anchor(&pc, Side::Bottom, None), 12.0)
        .unwrap();
    assert_eq!((x, y), (225.0, 1067.0));
}

#[test]
fn only_the_configured_side_registers_a_crossing() {
    let mac = mac();
    assert!(at_outer_edge(&mac, Side::Top, 700.0, 0.0).is_some());
    assert!(at_outer_edge(&mac, Side::Bottom, 700.0, 0.0).is_none());
    assert!(at_outer_edge(&mac, Side::Left, 700.0, 0.0).is_none());
}

#[test]
fn a_single_monitor_fallback_behaves_like_the_old_union_model() {
    let screen = Screen::single(Rect::from_origin_size(steps(-1920), steps(0), steps(3840), steps(1080)));
    assert_eq!(
        at_outer_edge(&screen, Side::Left, -1920.0, 500.0),
        Some(500.0)
    );
    assert_eq!(at_outer_edge(&screen, Side::Bottom, 0.0, 1079.0), Some(0.0));
    assert_eq!(at_outer_edge(&screen, Side::Bottom, 0.0, 500.0), None);
}

#[test]
fn a_monitor_thinner_than_the_margin_still_lands_on_it() {
    let screen = Screen::new(vec![rect(0.0, 0.0, 100.0, 8.0)], 0);
    let (x, y) = landing(&screen, Side::Bottom, 50.0, 12.0).unwrap();
    assert_eq!((x, y), (50.0, 0.0));
}

#[test]
fn the_resting_point_is_the_centre_of_the_primary_monitor() {
    assert_eq!(resting_point(&pc()), Some((960.0, 540.0)));
    assert_eq!(resting_point(&mac()), Some((735.0, 478.0)));
}

#[test]
fn the_resting_point_is_clear_of_every_edge() {
    for screen in [pc(), mac()] {
        let (x, y) = resting_point(&screen).expect("has a monitor");
        for side in [Side::Top, Side::Bottom, Side::Left, Side::Right] {
            assert_eq!(
                at_outer_edge(&screen, side, x, y),
                None,
                "resting point sits on the {side:?} edge"
            );
        }
    }
}

#[test]
fn a_screen_with_no_monitors_has_no_resting_point() {
    assert_eq!(resting_point(&Screen::new(Vec::new(), 0)), None);
}

#[test]
fn parses_the_four_side_names() {
    assert_eq!(Side::parse("top"), Some(Side::Top));
    assert_eq!(Side::parse("bottom"), Some(Side::Bottom));
    assert_eq!(Side::parse("left"), Some(Side::Left));
    assert_eq!(Side::parse("right"), Some(Side::Right));
    assert_eq!(Side::parse("diagonal"), None);
}

#[test]
fn a_landing_is_exactly_the_margin_in() {
    let screen = pc();
    for along in [-5000.0, 0.0, 960.0, 1919.0, 1920.0, 3839.0, 9000.0] {
        let at = if along < 0.0 { 0.0 } else if along > 3839.0 { 3839.0 } else { along };
        assert_eq!(landing(&screen, Side::Bottom, along, 12.0), Some((at, 1079.0 - 12.0)), "{along}");
        assert_eq!(landing(&screen, Side::Top, along, 12.0), Some((at, 12.0)), "{along}");
    }
    assert_eq!(landing(&screen, Side::Left, 500.0, 12.0), Some((12.0, 500.0)));
    assert_eq!(landing(&screen, Side::Right, 500.0, 12.0), Some((3839.0 - 12.0, 500.0)));
}

#[test]
fn every_side_of_a_machine_with_a_monitor_can_be_landed_on() {
    let stacked = Screen::new(
        vec![rect(0.0, 0.0, 1920.0, 1080.0), rect(300.0, 1080.0, 1580.0, 1800.0)],
        0,
    );
    let alone = Screen::single(rect(-100.0, -50.0, 700.0, 550.0));
    for side in [Side::Top, Side::Bottom, Side::Left, Side::Right] {
        for screen in [&stacked, &alone] {
            let (x, y) = landing(screen, side, 123.0, 12.0).expect("a place");
            assert_eq!(at_outer_edge(screen, side, x, y), None);
        }
    }
    assert_eq!(landing(&alone, Side::Bottom, 123.0, 12.0), Some((123.0, 537.0)));
    assert_eq!(landing(&alone, Side::Bottom, -500.0, 12.0), Some((-100.0, 537.0)));
    assert_eq!(landing(&alone, Side::Left, 9000.0, 12.0), Some((-88.0, 549.0)));
    assert_eq!(landing(&Screen::new(Vec::new(), 0), Side::Top, 0.0, 12.0), None);
}
