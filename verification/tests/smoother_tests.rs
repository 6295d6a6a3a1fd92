use one_pole::smoother::Smoother;

#[test]
fn linear_convergence_upward() {
    let mut s = Smoother::new(0);
    s.set_target(1_000_000, 10);
    let mut prev: i64 = 0;
    for _ in 0..10 {
        s.tick();
        let c = s.current();
        assert!(c >= prev, "smoothed value moved away from the target");
        assert!(c <= 1_000_000, "smoothed value overshot the target");
        prev = c;
    }
    assert_eq!(s.current(), 1_000_000);
    // Further advances hold at the target.
    s.tick();
    s.tick();
    assert_eq!(s.current(), 1_000_000);
}

#[test]
fn linear_convergence_downward() {
    let mut s = Smoother::new(500_000);
    s.set_target(-250_000, 7);
    let mut prev: i64 = 500_000;
    for _ in 0..7 {
        s.tick();
        let c = s.current();
        assert!(c <= prev);
        assert!(c >= -250_000);
        prev = c;
    }
    assert_eq!(s.current(), -250_000);
}

#[test]
fn sub_resolution_target_still_lands_exactly() {
    // The gap is smaller than the step count, so early steps stall at
    // zero motion; the last step must still land on the target.
    let mut s = Smoother::new(0);
    s.set_target(1, 2);
    s.tick();
    assert_eq!(s.current(), 0);
    s.tick();
    assert_eq!(s.current(), 1);
}

#[test]
fn set_now_jumps_without_ramp() {
    let mut s = Smoother::new(123);
    s.set_now(-77);
    assert_eq!(s.current(), -77);
    s.tick();
    assert_eq!(s.current(), -77);
}
