//! Wall-clock time.

use std::time::SystemTime;
use vstd::prelude::*;

verus! {

/// A point in time, as the system tells it.
#[verifier::external_type_specification]
#[verifier::external_body]
pub struct ExSystemTime(std::time::SystemTime);

/// Calls `SystemTime::now`. Nothing is claimed of the time it tells.
#[verifier::external_body]
fn system_now() -> SystemTime {
    SystemTime::now()
}

/// Reads `SystemTime::UNIX_EPOCH`. Nothing is claimed of it.
#[verifier::external_body]
fn epoch() -> SystemTime {
    SystemTime::UNIX_EPOCH
}

/// Calls `SystemTime::duration_since`: the span between two times, as its whole seconds
/// and the nanoseconds beyond them, or nothing where the second time is later. Of the span
/// it is claimed that what it has beyond its whole seconds is less than one of them.
#[verifier::external_body]
fn time_since(time: SystemTime, start: SystemTime) -> (r: Option<(u64, u32)>)
    ensures
        r matches Some(t) ==> t.1 < 1_000_000_000,
{
    match time.duration_since(start) {
        Ok(d) => Some((d.as_secs(), d.subsec_nanos())),
        Err(_) => None,
    }
}

/// Whether the clock was read, and told that `t` has passed since the epoch: whole
/// seconds and nanoseconds, or nothing where the clock is before it.
pub closed spec fn clock_told(t: Option<(u64, u32)>) -> bool {
    exists|now: SystemTime, start: SystemTime|
        call_ensures(system_now, (), now) && call_ensures(epoch, (), start)
            && #[trigger] call_ensures(time_since, (now, start), t)
}

/// Read the clock: the time since the epoch in whole seconds and nanoseconds, or nothing
/// where the clock is before it.
fn since_epoch() -> (r: Option<(u64, u32)>)
    ensures
        clock_told(r),
        r matches Some(t) ==> t.1 < 1_000_000_000,
{
    let now = system_now();
    let start = epoch();
    let t = time_since(now, start);
    assert(call_ensures(time_since, (now, start), t));
    t
}

/// A span in milliseconds.
pub open spec fn millis_in(secs: u64, nanos: u32) -> int {
    secs * 1000 + nanos / 1_000_000
}

/// A count as a signed number of 64 bits: what does not fit wraps around.
pub open spec fn wrapped(n: nat) -> int {
    let low = n % 0x1_0000_0000_0000_0000;
    if low > i64::MAX {
        low - 0x1_0000_0000_0000_0000
    } else {
        low as int
    }
}

fn wrap(n: u128) -> (r: i64)
    ensures
        r == wrapped(n as nat),
{
    let low: i128 = (n % 0x1_0000_0000_0000_0000) as i128;
    if low > i64::MAX as i128 {
        (low - 0x1_0000_0000_0000_0000) as i64
    } else {
        low as i64
    }
}

/// Seconds since the epoch, of a reading of the clock: none counts as the epoch.
pub open spec fn secs_read(elapsed: Option<(u64, u32)>) -> int {
    match elapsed {
        None => 0,
        Some(t) => wrapped(t.0 as nat),
    }
}

/// Milliseconds since the epoch, of a reading of the clock: none counts as the epoch.
pub open spec fn millis_read(elapsed: Option<(u64, u32)>) -> int {
    match elapsed {
        None => 0,
        Some(t) => wrapped(millis_in(t.0, t.1) as nat),
    }
}

/// Seconds since the epoch, from what the clock says: nothing counts as the epoch.
pub fn secs_of(elapsed: Option<(u64, u32)>) -> (r: i64)
    ensures
        r == secs_read(elapsed),
{
    match elapsed {
        None => 0,
        Some((secs, _)) => wrap(secs as u128),
    }
}

/// Milliseconds since the epoch, from what the clock says: nothing counts as the
/// epoch.
pub fn millis_of(elapsed: Option<(u64, u32)>) -> (r: i64)
    ensures
        r == millis_read(elapsed),
{
    match elapsed {
        None => 0,
        Some((secs, nanos)) => wrap(secs as u128 * 1000 + (nanos / 1_000_000) as u128),
    }
}

/// The time in seconds since the epoch, as the clock told it.
pub fn now_secs() -> (r: i64)
    ensures
        exists|t: Option<(u64, u32)>| #[trigger] clock_told(t) && r == secs_read(t),
{
    secs_of(since_epoch())
}

/// The time in milliseconds since the epoch, as the clock told it: the unit of the queue's
/// deadlines.
pub fn now_millis() -> (r: i64)
    ensures
        exists|t: Option<(u64, u32)>| #[trigger] clock_told(t) && r == millis_read(t),
{
    millis_of(since_epoch())
}

/// The time in milliseconds since the epoch, as the clock told it: the unit of the
/// listings' stamps.
pub fn now_ms() -> (r: i64)
    ensures
        exists|t: Option<(u64, u32)>| #[trigger] clock_told(t) && r == millis_read(t),
{
    now_millis()
}

/// A point in time as its distance from the epoch, in seconds.
#[derive(Debug, Clone, Copy, PartialEq, Eq, Structural)]
pub enum EpochOffset {
    After(u64),
    Before(u64),
}

/// The point in time that a number of seconds names.
pub fn unix_secs(secs: i64) -> (r: EpochOffset)
    ensures
        r == (if secs >= 0 {
            EpochOffset::After(secs as u64)
        } else {
            EpochOffset::Before((-secs) as u64)
        }),
{
    if secs >= 0 {
        EpochOffset::After(secs as u64)
    } else {
        let n: i128 = -(secs as i128);
        EpochOffset::Before(n as u64)
    }
}

/// Times are read in seconds and in milliseconds of the same clock: as long as both fit, one
/// is a thousand times the other, and the rest is below a second. A time before the clock's
/// start reads as its start.
pub proof fn law_times_agree(secs: u64, nanos: u32)
    requires
        nanos < 1_000_000_000,
        secs * 1000 + 999 <= i64::MAX,
    ensures
        secs_read(Some((secs, nanos))) == secs,
        millis_read(Some((secs, nanos))) >= secs * 1000,
        millis_read(Some((secs, nanos))) < secs * 1000 + 1000,
        1_000_000 * (millis_read(Some((secs, nanos))) - secs * 1000) <= nanos,
        nanos < 1_000_000 * (millis_read(Some((secs, nanos))) - secs * 1000) + 1_000_000,
        secs_read(None) == 0 && millis_read(None) == 0,
{
}

/// A count that is cut to its low bits is the count itself where it fits, and differs from it
/// by whole turns where it does not.
pub proof fn law_cut_counts_differ_by_turns(n: nat)
    ensures
        i64::MIN <= wrapped(n) <= i64::MAX,
        n <= i64::MAX ==> wrapped(n) == n,
        (n - wrapped(n)) % 0x1_0000_0000_0000_0000 == 0,
{
}

} // verus!
