//! The two clocks that the protocol reads: a monotonic one for queue and
//! cache deadlines, and the wall clock that seeds sequence numbers.

use vstd::prelude::*;
use core::time::Duration;

verus! {

/// `web_time::Instant`: a point on the monotonic clock, carried as it is.
#[verifier::external_type_specification]
#[verifier::external_body]
pub struct ExInstant(web_time::Instant);

/// `std::time::SystemTime`: a point on the wall clock, carried as it is.
#[verifier::external_type_specification]
#[verifier::external_body]
pub struct ExSystemTime(std::time::SystemTime);

/// Calls `web_time::Instant::now`. Nothing is claimed of the instant.
#[verifier::external_body]
fn instant_now() -> web_time::Instant {
    web_time::Instant::now()
}

/// Calls `Instant::elapsed`. Nothing is claimed of the duration.
#[verifier::external_body]
fn instant_elapsed(since: &web_time::Instant) -> Duration {
    since.elapsed()
}

/// Calls `Duration::as_nanos`. Nothing is claimed of the number.
#[verifier::external_body]
fn duration_as_nanos(duration: &Duration) -> u128 {
    duration.as_nanos()
}

/// Calls `SystemTime::now`. Nothing is claimed of the time.
#[verifier::external_body]
fn system_time_now() -> std::time::SystemTime {
    std::time::SystemTime::now()
}

/// Calls `SystemTime::duration_since` with the Unix epoch: the time since the
/// epoch, or `None` where the clock stands before it.
#[verifier::external_body]
fn since_unix_epoch(time: &std::time::SystemTime) -> Option<Duration> {
    match time.duration_since(std::time::SystemTime::UNIX_EPOCH) {
        Ok(duration) => Some(duration),
        Err(_) => None,
    }
}

/// The 64-bit number nearest to `n`.
pub fn clip_to_u64(n: u128) -> (r: u64)
    ensures
        r == if n <= u64::MAX {
            n
        } else {
            u64::MAX as u128
        },
{
    if n > u64::MAX as u128 {
        u64::MAX
    } else {
        n as u64
    }
}

/// A monotonic clock that counts nanoseconds from its creation.
pub struct Clock {
    start: web_time::Instant,
}

impl Clock {
    /// A clock that starts now.
    pub fn new() -> Clock {
        Clock { start: instant_now() }
    }

    /// The nanoseconds since the clock was created. Whatever the machine's
    /// clock says is taken as it is; a number over 64 bits is clipped.
    pub fn now(&self) -> u64 {
        let elapsed = instant_elapsed(&self.start);
        clip_to_u64(duration_as_nanos(&elapsed))
    }
}

/// The wall clock in nanoseconds since the Unix epoch, clipped to 64 bits, or
/// `None` where the wall clock stands before the epoch.
pub fn unix_time_nanos() -> Option<u64> {
    let now = system_time_now();
    match since_unix_epoch(&now) {
        Some(duration) => Some(clip_to_u64(duration_as_nanos(&duration))),
        None => None,
    }
}

} // verus!
