use space_shooter::timer::Timer;

#[test]
fn timer_not_finished_before_duration() {
    let mut t = Timer::from_millis(1000);
    assert!(!t.tick(300));
    assert!(!t.tick(300));
    assert!(!t.tick(300));
    assert_eq!(t.elapsed_ms, 900);
}

#[test]
fn timer_finishes_exactly_at_duration() {
    let mut t = Timer::from_millis(1000);
    assert!(!t.tick(999));
    assert!(t.tick(1));
    assert_eq!(t.elapsed_ms, 1000);
}

#[test]
fn timer_finished_is_sticky_until_reset() {
    let mut t = Timer::from_millis(400);
    assert!(t.tick(400));
    assert!(t.tick(0));
    assert!(t.tick(7));
    t.reset();
    assert_eq!(t.elapsed_ms, 0);
    assert_eq!(t.duration_ms, 400);
    assert!(!t.tick(399));
    assert!(t.tick(1));
}

#[test]
fn timer_reset_restarts_accumulation_at_zero() {
    let mut t = Timer::from_millis(2000);
    assert!(t.tick(2500));
    t.reset();
    assert!(!t.tick(1999));
    assert!(t.tick(1));
}

#[test]
fn timer_accumulates_across_uneven_ticks() {
    let mut t = Timer::from_millis(2000);
    assert!(!t.tick(500));
    assert!(!t.tick(500));
    assert!(!t.tick(999));
    assert!(t.tick(1));
}
