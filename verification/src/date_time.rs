//! Points in time as microseconds since the Unix epoch.
use std::time::{Duration, SystemTime};
use vstd::prelude::*;

verus! {

#[verifier::external_type_specification]
#[verifier::external_body]
pub struct ExSystemTime(SystemTime);

#[derive(Clone, Copy, Debug, PartialEq, Eq, Structural)]
pub struct DateTimeAsMicroseconds {
    pub unix_microseconds: i64,
}

/// Calls `std::time::SystemTime::now`. The clock's reading is not described.
#[verifier::external_body]
fn system_time_now() -> SystemTime {
    SystemTime::now()
}

/// Calls `SystemTime::duration_since` against `UNIX_EPOCH`; `None` stands for the
/// error it returns for a time before the epoch. The duration is not described.
#[verifier::external_body]
fn since_unix_epoch(time: SystemTime) -> Option<Duration> {
    match time.duration_since(std::time::UNIX_EPOCH) {
        Ok(duration) => Some(duration),
        Err(_) => None,
    }
}

/// Calls `Duration::as_micros`. The value is not described.
#[verifier::external_body]
fn duration_as_micros(duration: Duration) -> u128 {
    duration.as_micros()
}

/// The length of time from `before` to `after` in microseconds, 0 when `after` is not
/// later, and at most `i64::MAX`.
pub open spec fn positive_or_zero_micros(after: int, before: int) -> int {
    if after <= before {
        0
    } else if after - before > i64::MAX {
        i64::MAX as int
    } else {
        after - before
    }
}

impl DateTimeAsMicroseconds {
    pub fn new(unix_microseconds: i64) -> (result: Self)
        ensures
            result.unix_microseconds == unix_microseconds,
    {
        DateTimeAsMicroseconds { unix_microseconds }
    }

    /// The current time, clamped to the range of `i64` and to 0 before the epoch.
    pub fn now() -> (result: Self)
        ensures
            result.unix_microseconds >= 0,
    {
        let micros = match since_unix_epoch(system_time_now()) {
            Some(duration) => duration_as_micros(duration),
            None => 0,
        };
        let unix_microseconds: i64 = if micros > 0x7fff_ffff_ffff_ffffu128 {
            0x7fff_ffff_ffff_ffffi64
        } else {
            micros as i64
        };
        DateTimeAsMicroseconds { unix_microseconds }
    }

    /// Microseconds from `before` to `self`, 0 when `self` is not later.
    pub fn duration_since_as_positive_or_zero(&self, before: DateTimeAsMicroseconds) -> (result: i64)
        ensures
            result == positive_or_zero_micros(self.unix_microseconds as int, before.unix_microseconds as int),
    {
        if self.unix_microseconds <= before.unix_microseconds {
            0
        } else {
            match self.unix_microseconds.checked_sub(before.unix_microseconds) {
                Some(d) => d,
                None => i64::MAX,
            }
        }
    }
}

} // verus!
