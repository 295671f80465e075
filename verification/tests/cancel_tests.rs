use localchat::CancelRegistry;

#[test]
fn a_mark_fires_once() {
    let reg = CancelRegistry::new();
    reg.mark(42);
    assert!(reg.check_and_clear(42));
    assert!(!reg.check_and_clear(42));
}

#[test]
fn marks_are_per_id() {
    let reg = CancelRegistry::new();
    reg.mark(1);
    assert!(!reg.check_and_clear(2));
    assert!(reg.check_and_clear(1));
}

#[test]
fn marking_is_idempotent() {
    let reg = CancelRegistry::new();
    reg.mark(7);
    reg.mark(7);
    assert!(reg.check_and_clear(7));
    assert!(!reg.check_and_clear(7));
}

#[test]
fn unknown_ids_never_fire() {
    let reg = CancelRegistry::new();
    assert!(!reg.check_and_clear(123));
}

#[test]
fn marks_survive_until_observed() {
    let reg = CancelRegistry::new();
    reg.mark(9);
    assert!(!reg.check_and_clear(8));
    assert!(!reg.check_and_clear(10));
    assert!(reg.check_and_clear(9));
}
