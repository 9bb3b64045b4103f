use rusty_gaym_engine::{ActiveClock, Clock};

#[test]
fn fresh_clock_has_no_delta() {
    let c = ActiveClock::start(1_000);
    assert_eq!(c.delta(), 0);
    assert_eq!(c.elapsed_from_start(1_000), 0);
}

#[test]
fn tick_measures_the_previous_frame() {
    let mut c = ActiveClock::start(10);
    c.tick(25);
    assert_eq!(c.delta(), 15);
    c.tick(100);
    assert_eq!(c.delta(), 75);
    assert_eq!(c.elapsed_from_start(140), 130);
}

#[test]
fn tick_never_runs_backwards() {
    let mut c = ActiveClock::start(10);
    c.tick(50);
    c.tick(20);
    assert_eq!(c.delta(), 0);
    c.tick(60);
    assert_eq!(c.delta(), 10);
}

#[test]
fn elapsed_before_start_is_zero() {
    let c = ActiveClock::start(500);
    assert_eq!(c.elapsed_from_start(499), 0);
    assert_eq!(c.elapsed_from_start(u64::MAX), u64::MAX - 500);
}

#[test]
fn default_clock_is_inactive_and_stays_so() {
    let mut clock = Clock::default();
    assert!(matches!(clock, Clock::Inactive));
    clock.tick(5);
    assert!(matches!(clock, Clock::Inactive));
}

#[test]
fn active_clock_ticks_through_the_enum() {
    let mut clock = Clock::Active(ActiveClock::start(0));
    clock.tick(7);
    match clock {
        Clock::Active(c) => assert_eq!(c.delta(), 7),
        Clock::Inactive => panic!("clock stopped"),
    }
}
