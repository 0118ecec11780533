//! The system clock.
use vstd::prelude::*;

use std::time::{Duration, SystemTime, SystemTimeError};

verus! {

#[verifier::external_type_specification]
#[verifier::external_body]
pub struct ExSystemTime(SystemTime);

#[verifier::external_type_specification]
#[verifier::external_body]
pub struct ExSystemTimeError(SystemTimeError);

/// Calls `SystemTime::now`: the current time of the system clock, of which
/// nothing is promised.
#[verifier::external_body]
fn now() -> SystemTime {
    SystemTime::now()
}

/// Calls `SystemTime::duration_since(SystemTime::UNIX_EPOCH)`: how long after
/// the epoch `t` is, or an error when `t` is before it; which of the two
/// comes out depends on the clock and is left unsaid.
#[verifier::external_body]
fn since_unix_epoch(t: SystemTime) -> Result<Duration, SystemTimeError> {
    t.duration_since(SystemTime::UNIX_EPOCH)
}

/// What `Duration::as_secs` returns: the whole seconds of a duration.
pub uninterp spec fn duration_secs(d: Duration) -> u64;

/// Calls `Duration::as_secs`; the result is named `duration_secs` of the
/// duration.
#[verifier::external_body]
fn as_secs(d: Duration) -> (r: u64)
    ensures
        r == duration_secs(d),
{
    d.as_secs()
}

/// Get UNIX time in seconds, or `None` when the system clock is set before
/// the UNIX epoch: the whole seconds of how long after the epoch the clock
/// read. What the clock reads is not known here, so which duration that is
/// stays open.
pub fn sys_time() -> (r: Option<u64>)
    ensures
        r matches Some(s) ==> exists|d: Duration| s == #[trigger] duration_secs(d),
{
    let since = since_unix_epoch(now());
    let ghost read = since;
    let r = seconds_since_epoch(since);
    proof {
        if let Ok(d) = read {
            assert(r == Some(duration_secs(d)));
        }
    }
    r
}

/// The whole seconds of how long after the UNIX epoch the clock read, or
/// `None` when it read a time before the epoch.
pub fn seconds_since_epoch(since: Result<Duration, SystemTimeError>) -> (r: Option<u64>)
    ensures
        since matches Ok(d) ==> r == Some(duration_secs(d)),
        since is Err ==> r is None,
{
    match since {
        Ok(d) => Some(as_secs(d)),
        Err(_) => None,
    }
}

} // verus!
