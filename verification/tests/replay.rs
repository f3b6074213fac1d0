use hop::replay::ReplayWindow;

#[test]
fn accepts_increasing_sequence() {
    let mut w = ReplayWindow::new();
    assert!(w.accept(1));
    assert!(w.accept(2));
    assert!(w.accept(3));
}

#[test]
fn rejects_exact_replay() {
    let mut w = ReplayWindow::new();
    assert!(w.accept(5));
    assert!(
        !w.accept(5),
        "the same sequence number must never be accepted twice"
    );
}

#[test]
fn accepts_out_of_order_within_window() {
    let mut w = ReplayWindow::new();
    assert!(w.accept(10));
    assert!(w.accept(8), "slightly reordered delivery is legitimate");
    assert!(!w.accept(8));
}

#[test]
fn rejects_far_past() {
    let mut w = ReplayWindow::new();
    assert!(w.accept(1000));
    assert!(!w.accept(1), "older than the window must be refused");
}

#[test]
fn handles_large_forward_jump() {
    let mut w = ReplayWindow::new();
    assert!(w.accept(1));
    assert!(w.accept(u64::from(u32::MAX)));
    assert!(!w.accept(1));
}

#[test]
fn refuses_replay_at_the_forward_jump_boundary() {
    let mut w = ReplayWindow::new();
    assert!(w.accept(100));
    assert!(w.accept(164));
    assert!(!w.accept(100), "replay at shift == WINDOW must be refused");
}

#[test]
fn window_edge_accepts_once_then_refuses() {
    let mut w = ReplayWindow::new();
    assert!(w.accept(200));
    assert!(w.accept(263));
    assert!(w.accept(201), "age 62 is inside the window");
    assert!(!w.accept(201));
}

#[test]
fn refuses_just_outside_the_window() {
    let mut w = ReplayWindow::new();
    assert!(w.accept(500));
    assert!(!w.accept(435), "age 65 is outside the window");
}
