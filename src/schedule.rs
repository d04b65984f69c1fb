//! Timing of the daemon's cycle: when to wake and when to swap images.
use vstd::prelude::*;

verus! {

/// What the daemon does at the start of a cycle.
#[derive(Clone, Copy, Debug, PartialEq, Eq, Structural)]
pub struct Wake {
    /// Whether a swap on every monitor is due now.
    pub update_now: bool,
    /// How long to wait for control messages, in nanoseconds.
    pub sleep_nanos: u64,
}

/// Why no cycle can be planned.
#[derive(Clone, Copy, Debug, PartialEq, Eq, Structural)]
pub enum ScheduleError {
    /// An interval of zero length.
    ZeroInterval,
    /// A wait too long for a 64-bit count of nanoseconds.
    SleepTooLong,
}

/// The time left until the next multiple of `check_interval`.
pub open spec fn to_sleep(check_interval: u128, now: u128) -> int {
    check_interval - now % check_interval
}

/// Whether `now` falls in a later period of `update_interval` than `last`.
pub open spec fn update_is_due(last: u128, now: u128, update_interval: u128) -> bool {
    last / update_interval < now / update_interval
}

/// The nanoseconds from `now` to the next multiple of `check_interval`: more
/// than nothing and at most one interval.
pub fn time_to_sleep(check_interval: u128, now: u128) -> (r: u128)
    requires
        check_interval > 0,
    ensures
        r == to_sleep(check_interval, now),
        0 < r <= check_interval,
{
    check_interval - now % check_interval
}

/// Whether the period of `update_interval` that holds `now` comes after the one
/// that holds `last`.
pub fn update_due(last: u128, now: u128, update_interval: u128) -> (r: bool)
    requires
        update_interval > 0,
    ensures
        r == update_is_due(last, now, update_interval),
{
    last / update_interval < now / update_interval
}

/// Plans a cycle at `now` (nanoseconds since the Unix epoch), given the last
/// swap at `last` and the two intervals of the configuration.
pub fn plan_wake(check_interval: u128, update_interval: u128, last: u128, now: u128) -> (r: Result<
    Wake,
    ScheduleError,
>)
    ensures
        r == if check_interval == 0 || update_interval == 0 {
            Err(ScheduleError::ZeroInterval)
        } else if to_sleep(check_interval, now) > u64::MAX {
            Err(ScheduleError::SleepTooLong)
        } else {
            Ok(
                Wake {
                    update_now: update_is_due(last, now, update_interval),
                    sleep_nanos: to_sleep(check_interval, now) as u64,
                },
            )
        },
{
    if check_interval == 0 || update_interval == 0 {
        return Err(ScheduleError::ZeroInterval);
    }
    let update_now = update_due(last, now, update_interval);
    let t = time_to_sleep(check_interval, now);
    if t > u64::MAX as u128 {
        return Err(ScheduleError::SleepTooLong);
    }
    Ok(Wake { update_now, sleep_nanos: t as u64 })
}

} // verus!
