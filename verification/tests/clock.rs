use frame_engine::clock::Clock;

#[test]
fn ticks_are_whole_slices_of_real_time() {
    let mut c = Clock::new(30, 5);
    // one tick is 33_333_333 ns; 100 ms owes three ticks and keeps 1 ns.
    assert_eq!(c.advance_by(true, 100_000_000), 3);
    // the kept nanosecond plus 33_333_332 more makes exactly one tick.
    assert_eq!(c.advance_by(true, 33_333_332), 1);
    assert_eq!(c.advance_by(true, 0), 0);
}

#[test]
fn paused_clock_owes_nothing_and_loses_nothing() {
    let mut c = Clock::new(30, 5);
    assert_eq!(c.advance_by(true, 20_000_000), 0);
    assert_eq!(c.advance_by(false, 1_000_000_000), 0);
    // the 20 ms from before the pause are still there.
    assert_eq!(c.advance_by(true, 13_333_333), 1);
}

#[test]
fn catch_up_is_capped_after_a_stall() {
    let mut c = Clock::new(30, 5);
    assert_eq!(c.advance_by(true, 10_000_000_000), 5);
    assert_eq!(c.advance_by(true, u128::MAX), 5);
    let mut none = Clock::new(30, 0);
    assert_eq!(none.advance_by(true, 10_000_000_000), 0);
}

#[test]
fn one_tick_per_second_and_real_clock_advance() {
    let mut c = Clock::new(1, 3);
    assert_eq!(c.advance_by(true, 2_500_000_000), 2);
    assert_eq!(c.advance_by(true, 500_000_000), 1);
    let mut live = Clock::new(30, 5);
    assert!(live.advance(true) <= 5);
    assert_eq!(live.advance(false), 0);
}

#[test]
fn paused_time_is_dropped() {
    let mut c = Clock::new(30, 5);
    let t0 = std::time::Instant::now() + std::time::Duration::from_secs(1);
    assert_eq!(c.advance_at(true, t0), 5);
    let paused_until = t0 + std::time::Duration::from_secs(10);
    assert_eq!(c.advance_at(false, paused_until), 0);
    assert_eq!(c.advance_at(true, paused_until + std::time::Duration::from_millis(100)), 3);
}
