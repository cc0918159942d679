//! The time of day.

use vstd::prelude::*;

verus! {

/// `SystemTime::elapsed` of the Unix epoch gives the time from the epoch to the current time
/// of the system's clock, as whole seconds and the nanoseconds beyond them, and fails where
/// the clock stands before the epoch. Nothing is claimed of the time.
#[verifier::external_body]
pub(crate) fn elapsed_since_epoch() -> (elapsed: Option<(u64, u32)>) {
    match std::time::UNIX_EPOCH.elapsed() {
        Ok(d) => Some((d.as_secs(), d.subsec_nanos())),
        Err(_) => None,
    }
}

/// The system's clock gave this reading: it is what a call of the clock returned, and nothing
/// but such a call can tell that it is one.
pub closed spec fn clock_read(elapsed: Option<(u64, u32)>) -> bool {
    call_ensures(elapsed_since_epoch, (), elapsed)
}

/// What a call of `source` returns.
fn called<F: Fn() -> Option<(u64, u32)>>(source: F) -> (r: Option<(u64, u32)>)
    requires
        call_requires(source, ()),
    ensures
        call_ensures(source, (), r),
{
    source()
}

/// A reading of the system's clock.
fn read_clock() -> (elapsed: Option<(u64, u32)>)
    ensures
        clock_read(elapsed),
{
    called(elapsed_since_epoch)
}

/// The whole seconds of a time that has elapsed, given as seconds and nanoseconds.
pub open spec fn seconds_of(elapsed: Option<(u64, u32)>) -> Option<u64> {
    match elapsed {
        Some(e) => Some(e.0),
        None => None,
    }
}

/// The whole seconds of a time that has elapsed, given as seconds and nanoseconds.
pub fn whole_seconds(elapsed: Option<(u64, u32)>) -> (seconds: Option<u64>)
    ensures
        seconds == seconds_of(elapsed),
{
    match elapsed {
        Some((seconds, _)) => Some(seconds),
        None => None,
    }
}

/// The whole seconds since the Unix epoch; `None` where the clock stands before it.
pub fn seconds_since_epoch() -> (seconds: Option<u64>)
    ensures
        clock_gave(seconds),
{
    let elapsed = read_clock();
    assert(clock_read(elapsed) && seconds_of(elapsed) == seconds_of(elapsed));
    whole_seconds(elapsed)
}

/// The system's clock gave a reading of so many whole seconds since the epoch; `None` where it
/// stood before the epoch.
pub open spec fn clock_gave(seconds: Option<u64>) -> bool {
    exists|elapsed: Option<(u64, u32)>| #[trigger]
        clock_read(elapsed) && seconds == seconds_of(elapsed)
}

/// The system's clock gave a reading that stands for the Unix time `now`.
pub open spec fn clock_told(now: i64) -> bool {
    exists|seconds: Option<u64>| #[trigger] clock_gave(seconds) && now == time_of(seconds)
}

/// The Unix time that a reading of the clock stands for: 0 where the clock stands before
/// the epoch.
pub open spec fn time_of(seconds: Option<u64>) -> i64 {
    match seconds {
        Some(s) => s as i64,
        None => 0,
    }
}

/// The Unix time that a reading of the clock stands for.
pub fn unix_time(seconds: Option<u64>) -> (now: i64)
    ensures
        now == time_of(seconds),
{
    match seconds {
        Some(s) => #[verifier::truncate] (s as i64),
        None => 0,
    }
}

/// The Unix time now.
pub fn unix_now() -> (now: i64)
    ensures
        clock_told(now),
{
    let seconds = seconds_since_epoch();
    unix_time(seconds)
}

/// A reading of the clock is what a call of the system's clock returned.
pub(crate) proof fn readings_are_what_the_clock_returned(elapsed: Option<(u64, u32)>)
    requires
        clock_read(elapsed),
    ensures
        call_ensures(elapsed_since_epoch, (), elapsed),
{
}

/// The time that the clock told is the whole seconds of a reading of the clock, and 0 where
/// the clock stood before the epoch.
pub proof fn the_time_is_that_of_a_reading(now: i64) -> (elapsed: Option<(u64, u32)>)
    requires
        clock_told(now),
    ensures
        clock_read(elapsed),
        elapsed matches Some(e) ==> e.0 <= i64::MAX ==> now == e.0,
        elapsed is None ==> now == 0,
{
    let seconds = choose|seconds: Option<u64>| #[trigger]
        clock_gave(seconds) && now == time_of(seconds);
    choose|elapsed: Option<(u64, u32)>| #[trigger]
        clock_read(elapsed) && seconds == seconds_of(elapsed)
}

/// The seconds that the clock gave are the whole seconds of a reading of the clock.
pub proof fn the_seconds_are_those_of_a_reading(seconds: Option<u64>) -> (elapsed: Option<
    (u64, u32),
>)
    requires
        clock_gave(seconds),
    ensures
        clock_read(elapsed),
        elapsed matches Some(e) ==> seconds == Some(e.0),
        elapsed is None ==> seconds is None,
{
    choose|elapsed: Option<(u64, u32)>| #[trigger]
        clock_read(elapsed) && seconds == seconds_of(elapsed)
}

} // verus!
