//! The monotonic clock that the estimator reads.
use vstd::prelude::*;

verus! {

#[verifier::external_type_specification]
#[verifier::external_body]
pub struct ExInstant(std::time::Instant);

/// What `Instant::saturating_duration_since` returns for `later` and `earlier`.
pub uninterp spec fn duration_between(later: std::time::Instant, earlier: std::time::Instant) -> core::time::Duration;

/// What `Duration::as_nanos` returns for `d`.
pub uninterp spec fn duration_nanos(d: core::time::Duration) -> nat;

/// Relies on `Instant::now`: a reading of the monotonic clock. Nothing is
/// known of its value.
pub assume_specification[ std::time::Instant::now ]() -> std::time::Instant;

/// Relies on `Instant::saturating_duration_since`: the time from `earlier`
/// to `self`, or zero when `earlier` is later; it depends on the two
/// instants alone, and from an instant to itself no time passes.
pub assume_specification[ std::time::Instant::saturating_duration_since ](
    self_: &std::time::Instant,
    earlier: std::time::Instant,
) -> (r: core::time::Duration)
    ensures
        r == duration_between(*self_, earlier),
        *self_ == earlier ==> duration_nanos(r) == 0,
;

/// Relies on `Duration::as_nanos`: the whole number of nanoseconds held.
pub assume_specification[ core::time::Duration::as_nanos ](
    self_: &core::time::Duration,
) -> (r: u128)
    ensures
        r as nat == duration_nanos(*self_),
;

/// Nanoseconds from `earlier` to `later`, as the clock counts them.
pub open spec fn elapsed_nanos(later: std::time::Instant, earlier: std::time::Instant) -> nat {
    duration_nanos(duration_between(later, earlier))
}

/// `elapsed_nanos(later, earlier)`, capped at `u64::MAX` (some 584 years).
pub open spec fn capped_elapsed_nanos(later: std::time::Instant, earlier: std::time::Instant) -> nat {
    if elapsed_nanos(later, earlier) > u64::MAX {
        u64::MAX as nat
    } else {
        elapsed_nanos(later, earlier)
    }
}

/// Nanoseconds from `earlier` to `later`, zero when `later` is not after
/// `earlier`, and `u64::MAX` past that bound.
pub fn nanos_between(earlier: &std::time::Instant, later: &std::time::Instant) -> (r: u64)
    ensures
        r as nat == capped_elapsed_nanos(*later, *earlier),
        *later == *earlier ==> r == 0,
{
    let d = later.saturating_duration_since(*earlier);
    let n: u128 = d.as_nanos();
    if n > u64::MAX as u128 {
        u64::MAX
    } else {
        n as u64
    }
}

} // verus!
