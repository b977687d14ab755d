//! Monotonic time and durations from std, behind trusted contracts.
use vstd::prelude::*;
use std::time::{Duration, Instant};

verus! {

#[verifier::external_type_specification]
#[verifier::external_body]
pub struct ExInstant(Instant);

/// `Instant` is `Copy`; its `clone` returns the same instant.
pub assume_specification[ <Instant as Clone>::clone ](i: &Instant) -> (r: Instant)
    ensures
        r == *i,
;

/// The length of a duration in nanoseconds.
pub uninterp spec fn duration_nanos(d: Duration) -> nat;

/// The largest duration, `Duration::MAX`, in nanoseconds.
pub open spec fn max_duration_nanos() -> nat {
    0xffff_ffff_ffff_ffff * 1_000_000_000 + 999_999_999
}

/// Calls `Duration::as_nanos`: the duration's total number of nanoseconds.
#[verifier::external_body]
pub(crate) fn duration_as_nanos(d: &Duration) -> (r: u128)
    ensures
        r == duration_nanos(*d),
{
    d.as_nanos()
}

/// Calls `Duration::saturating_mul`: the product, or `Duration::MAX` on overflow.
#[verifier::external_body]
pub(crate) fn duration_saturating_mul(d: Duration, factor: u32) -> (r: Duration)
    ensures
        duration_nanos(r) == if duration_nanos(d) * (factor as nat) <= max_duration_nanos() {
            duration_nanos(d) * (factor as nat)
        } else {
            max_duration_nanos()
        },
{
    d.saturating_mul(factor)
}

/// Calls `Duration::from_secs`: a duration of `secs` whole seconds.
#[verifier::external_body]
pub(crate) fn duration_from_secs(secs: u64) -> (r: Duration)
    ensures
        duration_nanos(r) == secs * 1_000_000_000,
{
    Duration::from_secs(secs)
}

/// Calls `Instant::now`. Nothing is stated of the value: it depends on the clock.
#[verifier::external_body]
pub(crate) fn instant_now() -> Instant {
    Instant::now()
}

/// Calls `Instant::duration_since`, which saturates at zero when `earlier` is
/// later than `later`. Nothing is stated of the value: it depends on the clock.
#[verifier::external_body]
pub(crate) fn instant_duration_since(later: &Instant, earlier: &Instant) -> Duration {
    later.duration_since(*earlier)
}

} // verus!
