use wallpaper::schedule::{plan_wake, time_to_sleep, update_due, ScheduleError, Wake};

const MIN: u128 = 60_000_000_000;

#[test]
fn sleeps_until_next_check() {
    assert_eq!(time_to_sleep(5 * MIN, 12 * MIN), 3 * MIN);
    assert_eq!(time_to_sleep(5 * MIN, 10 * MIN), 5 * MIN);
}

#[test]
fn update_due_when_period_advances() {
    assert!(update_due(59 * MIN, 60 * MIN, 60 * MIN));
    assert!(!update_due(60 * MIN, 119 * MIN, 60 * MIN));
    assert!(!update_due(0, 0, 60 * MIN));
}

#[test]
fn plans_a_cycle() {
    let w = plan_wake(5 * MIN, 60 * MIN, 0, 61 * MIN + 7).unwrap();
    assert_eq!(w, Wake { update_now: true, sleep_nanos: (4 * MIN - 7) as u64 });
}

#[test]
fn zero_interval_is_refused() {
    assert_eq!(plan_wake(0, 60 * MIN, 0, 1), Err(ScheduleError::ZeroInterval));
    assert_eq!(plan_wake(5 * MIN, 0, 0, 1), Err(ScheduleError::ZeroInterval));
}

#[test]
fn overlong_sleep_is_refused() {
    let huge: u128 = (u64::MAX as u128) * 4;
    assert_eq!(plan_wake(huge, MIN, 0, 1), Err(ScheduleError::SleepTooLong));
}
