use sim_foundation::host::{DeterministicTime, HostRefusal, MonotonicTimestamp, SystemWallClock};

#[test]
fn deterministic_binding_preserves_wall_behavior_and_composes_timer() {
    let mut time = DeterministicTime::new(1_000, 25);
    assert_eq!(time.now_ms().unwrap(), 1_000);
    assert_eq!(time.now_ms().unwrap(), 1_025);
    time.wait_until(MonotonicTimestamp::from_nanos(50_000_000));
    assert_eq!(
        time.now_monotonic(),
        MonotonicTimestamp::from_nanos(50_000_000)
    );
}

#[test]
fn time_deterministic_wall_overflow_remains_fail_closed() {
    let mut time = DeterministicTime::new(u64::MAX, 1);
    assert!(time.now().is_err());
}

#[test]
fn platform_time_deterministic_wall_overflow_remains_fail_closed() {
    let mut time = DeterministicTime::new(u64::MAX, 1);
    assert!(time.now().is_err());
}

#[test]
fn common_refusal_vocabulary_is_exhaustive_and_mechanical() {
    let refusals = [
        HostRefusal::Unsupported,
        HostRefusal::Denied,
        HostRefusal::Unavailable,
        HostRefusal::Suspended,
        HostRefusal::Invalid,
        HostRefusal::BudgetExhausted,
        HostRefusal::Cancelled,
        HostRefusal::ProviderFault,
    ];
    assert_eq!(refusals.len(), 8);
}

#[test]
fn failed_wall_observation_leaves_the_timeline_unchanged() {
    let mut time = DeterministicTime::new(u64::MAX - 1, 1);
    assert_eq!(time.now_ms().unwrap(), u64::MAX - 1);
    assert!(time.now_ms().is_err());
    assert!(time.now_ms().is_err());
    assert_eq!(time.now_monotonic().nanos(), 0);
}

#[test]
fn timer_never_moves_the_monotonic_clock_backward() {
    let mut time = DeterministicTime::new(0, 0);
    time.wait_until(MonotonicTimestamp::from_nanos(10));
    time.wait_until(MonotonicTimestamp::from_nanos(5));
    assert_eq!(time.now_monotonic().nanos(), 10);
    assert_eq!(time.now_ms().unwrap(), 0);
    assert_eq!(time.now_ms().unwrap(), 0);
}

#[test]
fn huge_wall_steps_saturate() {
    let mut time = DeterministicTime::new(0, u64::MAX);
    assert_eq!(time.now_ms().unwrap(), 0);
    assert_eq!(time.now_ms().unwrap(), u64::MAX / 1_000_000);
}

#[test]
fn system_wall_clock_is_the_epoch() {
    assert_eq!(SystemWallClock.now().unwrap().unix_millis(), 0);
}

#[test]
fn wall_observations_step_until_overflow_then_stay_refused() {
    let start = u64::MAX - 25;
    let mut time = DeterministicTime::new(start, 10);
    assert_eq!(time.now().unwrap().unix_millis(), start);
    assert_eq!(time.now().unwrap().unix_millis(), start + 10);
    assert!(time.now().is_err());
    assert!(time.now().is_err());
    assert_eq!(time.now_monotonic(), MonotonicTimestamp::from_nanos(0));
}
