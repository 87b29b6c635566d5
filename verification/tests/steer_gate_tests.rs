use session::steer_gate::{IdleDecision, SubagentSteerGate};

#[test]
fn committed_admission_forces_another_boundary() {
    let mut gate = SubagentSteerGate::new();
    let observed = gate.epoch();
    let r = gate.reserve().unwrap();
    assert!(r.commit(&mut gate));
    assert_eq!(gate.settle_idle(observed), Some(IdleDecision::Continue));
    assert!(!gate.is_closed());
}

#[test]
fn idle_waits_for_an_in_flight_admission() {
    let mut gate = SubagentSteerGate::new();
    let observed = gate.epoch();
    let reservation = gate.reserve().unwrap();
    assert_eq!(gate.settle_idle(observed), None);
    assert!(reservation.commit(&mut gate));
    assert_eq!(gate.settle_idle(observed), Some(IdleDecision::Continue));
}

#[test]
fn close_rejects_late_admission() {
    let mut gate = SubagentSteerGate::new();
    let e = gate.epoch();
    assert_eq!(gate.settle_idle(e), Some(IdleDecision::Close));
    assert!(gate.is_closed());
    assert!(gate.reserve().is_none());
}

#[test]
fn force_close_makes_existing_reservation_fail_commit() {
    let mut gate = SubagentSteerGate::new();
    let reservation = gate.reserve().unwrap();
    gate.force_close();
    assert!(!reservation.commit(&mut gate));
    assert!(gate.reserve().is_none());
}

#[test]
fn committed_before_any_waiter_is_not_lost() {
    let mut gate = SubagentSteerGate::new();
    let observed = gate.epoch();
    let r = gate.reserve().unwrap();
    assert!(r.commit(&mut gate));
    assert_eq!(gate.settle_idle(observed), Some(IdleDecision::Continue));
}

#[test]
fn force_close_wakes_an_already_waiting_settle_idle() {
    let mut gate = SubagentSteerGate::new();
    let observed = gate.epoch();
    let reservation = gate.reserve().unwrap();
    assert_eq!(gate.settle_idle(observed), None);
    gate.force_close();
    assert_eq!(gate.settle_idle(observed), Some(IdleDecision::Close));
    assert!(!reservation.commit(&mut gate));
}

#[test]
fn aborted_reservation_lets_the_boundary_close() {
    let mut gate = SubagentSteerGate::new();
    let observed = gate.epoch();
    let r = gate.reserve().unwrap();
    r.abort(&mut gate);
    assert_eq!(gate.epoch(), observed);
    assert_eq!(gate.settle_idle(observed), Some(IdleDecision::Close));
}
