use hop::warp::WarpDebt;

#[test]
fn nothing_is_swallowed_when_hop_has_not_warped() {
    let mut debt = WarpDebt::new();
    assert!(!debt.absorb());
    assert!(!debt.absorb());
}

#[test]
fn exactly_one_event_is_swallowed_per_warp() {
    let mut debt = WarpDebt::new();
    debt.note_warp();
    assert!(debt.absorb(), "the polluted event must be dropped");
    assert!(!debt.absorb(), "the next one is the user's real movement");
}

#[test]
fn two_warps_before_any_motion_still_swallow_only_one() {
    let mut debt = WarpDebt::new();
    debt.note_warp();
    debt.note_warp();
    assert!(debt.absorb());
    assert!(!debt.absorb());
}

#[test]
fn a_debt_survives_until_a_motion_event_actually_arrives() {
    let mut debt = WarpDebt::new();
    debt.note_warp();
    assert!(debt.is_pending());
    assert!(debt.is_pending(), "checking must not clear the debt");
    assert!(debt.absorb());
    assert!(!debt.is_pending());
}
