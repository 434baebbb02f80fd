//! Readings of the clocks: a monotonic instant for elapsed time, and the
//! system time. What a clock reads depends on when it is read, so nothing is
//! promised of the values; the code that reads them is verified for every
//! value they can have.
use crate::error::{AsterError, ErrorKind};
use vstd::prelude::*;

verus! {

/// A point in time of the monotonic clock (`std::time::Instant`).
#[verifier::external_type_specification]
#[verifier::external_body]
pub struct ExInstant(std::time::Instant);

/// A point in time of the system clock (`std::time::SystemTime`).
#[verifier::external_type_specification]
#[verifier::external_body]
pub struct ExSystemTime(std::time::SystemTime);

/// `std::time::Instant::now`: the current instant; nothing is promised of it.
#[verifier::external_body]
pub(crate) fn instant_now() -> (r: std::time::Instant) {
    std::time::Instant::now()
}

/// `std::time::Instant::elapsed`: the time since `start`; nothing is
/// promised of it.
#[verifier::external_body]
pub(crate) fn instant_elapsed(start: &std::time::Instant) -> (r: std::time::Duration) {
    start.elapsed()
}

/// `std::time::Duration::as_millis`: whole milliseconds of a span; nothing
/// is promised of the value, since the span itself is not modelled.
#[verifier::external_body]
pub(crate) fn duration_as_millis(d: &std::time::Duration) -> (r: u128) {
    d.as_millis()
}

/// `std::time::Duration::as_nanos`: whole nanoseconds of a span; nothing is
/// promised of the value, since the span itself is not modelled.
#[verifier::external_body]
pub(crate) fn duration_as_nanos(d: &std::time::Duration) -> (r: u128) {
    d.as_nanos()
}

/// `std::time::Duration::as_secs`: whole seconds of a span; nothing is
/// promised of the value, since the span itself is not modelled.
#[verifier::external_body]
pub(crate) fn duration_as_secs(d: &std::time::Duration) -> (r: u64) {
    d.as_secs()
}

/// `std::time::SystemTime::now`: the current system time; nothing is
/// promised of it.
#[verifier::external_body]
pub(crate) fn system_now() -> (r: std::time::SystemTime) {
    std::time::SystemTime::now()
}

/// `std::time::SystemTime::duration_since` from the Unix epoch: the span
/// since 1970, or `None` where the clock reads an earlier time; nothing is
/// promised of it.
#[verifier::external_body]
pub(crate) fn since_unix_epoch(t: &std::time::SystemTime) -> (r: Option<std::time::Duration>) {
    t.duration_since(std::time::UNIX_EPOCH).ok()
}

/// Milliseconds elapsed since `start`.
pub fn elapsed_millis(start: &std::time::Instant) -> (r: u128) {
    let d = instant_elapsed(start);
    duration_as_millis(&d)
}

/// Nanoseconds elapsed since `start`.
pub fn elapsed_nanos(start: &std::time::Instant) -> (r: u128) {
    let d = instant_elapsed(start);
    duration_as_nanos(&d)
}

/// A reading of elapsed milliseconds is past a limit: there is a limit and
/// the reading exceeds it.
pub open spec fn over_limit(elapsed_ms: u128, limit_ms: Option<u64>) -> bool {
    match limit_ms {
        Some(t) => elapsed_ms > t as u128,
        None => false,
    }
}

/// Whether the elapsed milliseconds `elapsed_ms` are past the limit
/// `limit_ms`, where there is one.
pub fn past_limit(elapsed_ms: u128, limit_ms: Option<u64>) -> (r: bool)
    ensures
        r == over_limit(elapsed_ms, limit_ms),
{
    match limit_ms {
        Some(t) => elapsed_ms > t as u128,
        None => false,
    }
}

/// The step taken on each reading of the clock: the elapsed milliseconds
/// `elapsed_ms` past the limit `timeout_ms` give a timeout error with text
/// `msg`; otherwise the work goes on.
pub fn check_deadline(elapsed_ms: u128, timeout_ms: Option<u64>, msg: &str) -> (r: Result<(), AsterError>)
    ensures
        r is Err <==> over_limit(elapsed_ms, timeout_ms),
        r matches Err(e) ==> e.spec_kind() == ErrorKind::Timeout && e.spec_text() == msg@,
{
    if past_limit(elapsed_ms, timeout_ms) {
        Err(AsterError::timeout(msg))
    } else {
        Ok(())
    }
}

/// Each of `rs` is a reading that the clock `now` can give, and none is past
/// the limit `limit_ms`.
pub open spec fn within_readings<C: Fn() -> u128>(now: C, rs: Seq<u128>, limit_ms: Option<u64>) -> bool {
    forall|i: int| 0 <= i < rs.len() ==> #[trigger] call_ensures(now, (), rs[i]) && !over_limit(rs[i], limit_ms)
}

/// A run that read the clock `now` before each of `checks` steps and went
/// through: every reading was within the limit.
pub open spec fn ran_within<C: Fn() -> u128>(now: C, checks: nat, limit_ms: Option<u64>) -> bool {
    exists|rs: Seq<u128>| rs.len() == checks && #[trigger] within_readings(now, rs, limit_ms)
}

/// A run that read the clock `now` before its steps and stopped: the
/// readings before some step, fewer than `bound` of them, were within the
/// limit, and the reading then taken was past it.
pub open spec fn stopped_before<C: Fn() -> u128>(now: C, bound: nat, limit_ms: Option<u64>) -> bool {
    exists|rs: Seq<u128>, t: u128|
        #![trigger within_readings(now, rs, limit_ms), call_ensures(now, (), t)]
        {
            &&& rs.len() < bound
            &&& within_readings(now, rs, limit_ms)
            &&& call_ensures(now, (), t)
            &&& over_limit(t, limit_ms)
        }
}

/// A run that read the clock `now` before its steps and stopped: the
/// readings before some step were within the limit, and the reading then
/// taken was past it.
pub open spec fn stopped<C: Fn() -> u128>(now: C, limit_ms: Option<u64>) -> bool {
    exists|rs: Seq<u128>, t: u128|
        #![trigger within_readings(now, rs, limit_ms), call_ensures(now, (), t)]
        {
            &&& within_readings(now, rs, limit_ms)
            &&& call_ensures(now, (), t)
            &&& over_limit(t, limit_ms)
        }
}

/// `rs` with the reading `t`, within the limit, added.
pub proof fn lemma_within_push<C: Fn() -> u128>(now: C, rs: Seq<u128>, t: u128, limit_ms: Option<u64>)
    requires
        within_readings(now, rs, limit_ms),
        call_ensures(now, (), t),
        !over_limit(t, limit_ms),
    ensures
        within_readings(now, rs.push(t), limit_ms),
{
    assert forall|i: int| 0 <= i < rs.push(t).len() implies #[trigger] call_ensures(now, (), rs.push(t)[i]) && !over_limit(
        rs.push(t)[i],
        limit_ms,
    ) by {
        if i < rs.len() {
            assert(rs.push(t)[i] == rs[i]);
        }
    }
}

/// Nanoseconds since the Unix epoch by the system clock (0 where the clock
/// reads a time before it).
pub fn unix_nanos() -> (r: u128) {
    let now = system_now();
    match since_unix_epoch(&now) {
        Some(d) => duration_as_nanos(&d),
        None => 0,
    }
}

/// Readings within the limit, one run after another, are within it.
pub proof fn lemma_within_concat<C: Fn() -> u128>(now: C, a: Seq<u128>, b: Seq<u128>, limit_ms: Option<u64>)
    requires
        within_readings(now, a, limit_ms),
        within_readings(now, b, limit_ms),
    ensures
        within_readings(now, a + b, limit_ms),
{
    assert forall|i: int| 0 <= i < (a + b).len() implies #[trigger] call_ensures(now, (), (a + b)[i]) && !over_limit(
        (a + b)[i],
        limit_ms,
    ) by {
        if i < a.len() {
            assert((a + b)[i] == a[i]);
        } else {
            let j = i - a.len();
            assert((a + b)[i] == b[j]);
            assert(call_ensures(now, (), b[j]) && !over_limit(b[j], limit_ms));
        }
    }
}

} // verus!
