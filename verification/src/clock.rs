//! Monotonic time, as the standard library measures it.
use std::time::{Duration, Instant};
use vstd::prelude::*;

verus! {

/// A point of the monotonic clock, carried as an opaque value.
#[verifier::external_type_specification]
#[verifier::external_body]
pub struct ExInstant(std::time::Instant);

/// `Instant::now` reads the clock. Nothing is promised of the reading.
pub assume_specification[ Instant::now ]() -> (now: Instant);

/// `Instant::elapsed` reads the clock and gives the time since `start`.
/// Nothing is promised of the span.
pub assume_specification[ Instant::elapsed ](start: &Instant) -> (span: Duration);

/// `Duration::as_millis` gives the whole milliseconds of a span. Spans come
/// from the clock alone, so nothing is promised of their number.
pub assume_specification[ Duration::as_millis ](span: &Duration) -> (millis: u128);

/// Whether `millis` are the whole milliseconds of a span that the clock gives
/// as the time since `start`.
pub open spec fn reads_since(start: Instant, millis: u128) -> bool {
    exists|span: Duration|
        call_ensures(Instant::elapsed, (&start,), span) && #[trigger] call_ensures(
            Duration::as_millis,
            (&span,),
            millis,
        )
}

/// Whether a duration is the time since `start` as the clock gives it.
pub open spec fn lasted_since(start: Instant, duration_ms: u64) -> bool {
    exists|millis: u128| #[trigger]
        reads_since(start, millis) && duration_ms == millis as u64
}

/// The whole milliseconds since `start`, as the clock has them now.
pub(crate) fn millis_since(start: &Instant) -> (millis: u128)
    ensures
        reads_since(*start, millis),
{
    let span = start.elapsed();
    let millis = span.as_millis();
    assert(call_ensures(Duration::as_millis, (&span,), millis));
    millis
}

} // verus!
