//! The estimator: one smoothed rate and the instant of its last update.
use crate::clock::{capped_elapsed_nanos, nanos_between};
use crate::decay::DECAY_ONE;
use crate::rate::{next_estimate, next_estimate_spec, MAX_SCALED};
use vstd::prelude::*;

verus! {

/// A time-decayed estimate of a transfer rate, in bytes per second.
///
/// Each sample is folded in with a weight that grows with the time since
/// the previous one, so samples taken close together move the estimate
/// little and sparse ones move it more. A sample taken with no time elapsed
/// leaves the estimator as it is. The estimate is held scaled by
/// `DECAY_ONE`, so that slow rates are not lost to rounding.
pub struct BwEstimate {
    accum: u128,
    last_update: std::time::Instant,
}

impl BwEstimate {
    #[verifier::type_invariant]
    spec fn inv(self) -> bool {
        self.accum <= MAX_SCALED
    }

    /// The current estimate, scaled by `DECAY_ONE`.
    pub closed spec fn estimate(&self) -> nat {
        self.accum as nat
    }

    /// The instant of construction or of the last sample that saw time pass.
    pub closed spec fn last_update(&self) -> std::time::Instant {
        self.last_update
    }

    /// An estimator that starts at `init_estimate`, now.
    pub fn new(init_estimate: u64) -> (r: Self)
        ensures
            r.estimate() == init_estimate * DECAY_ONE,
    {
        Self::new_at(init_estimate, std::time::Instant::now())
    }

    /// An estimator that starts at `init_estimate` at the instant `now`.
    pub fn new_at(init_estimate: u64, now: std::time::Instant) -> (r: Self)
        ensures
            r.estimate() == init_estimate * DECAY_ONE,
            r.last_update() == now,
    {
        assert(init_estimate * DECAY_ONE <= MAX_SCALED) by (nonlinear_arith)
            requires
                init_estimate <= u64::MAX,
                DECAY_ONE == 4_294_967_296u64,
                MAX_SCALED == 79_228_162_514_264_337_589_248_983_040u128,
        ;
        BwEstimate { accum: (init_estimate as u128) * (DECAY_ONE as u128), last_update: now }
    }

    /// Folds in `delta` bytes observed since the last update, now.
    pub fn sample(&mut self, delta: usize)
        ensures
            exists|now: std::time::Instant|
                final(self).estimate() == #[trigger] next_estimate_spec(
                    old(self).estimate(),
                    delta as nat,
                    capped_elapsed_nanos(now, old(self).last_update()),
                ) && final(self).last_update() == (if capped_elapsed_nanos(
                    now,
                    old(self).last_update(),
                ) == 0 {
                    old(self).last_update()
                } else {
                    now
                }),
    {
        let now = std::time::Instant::now();
        self.sample_at(delta, now);
    }

    /// Folds in `delta` bytes observed between the last update and `now`.
    /// The elapsed time is counted in whole nanoseconds, as zero where `now`
    /// is not later. Where it is zero, the estimator is left as it is, and the
    /// last update never moves back; else `now` becomes the last update.
    pub fn sample_at(&mut self, delta: usize, now: std::time::Instant)
        ensures
            final(self).estimate() == next_estimate_spec(
                old(self).estimate(),
                delta as nat,
                capped_elapsed_nanos(now, old(self).last_update()),
            ),
            capped_elapsed_nanos(now, old(self).last_update()) == 0 ==> *final(self) == *old(self),
            capped_elapsed_nanos(now, old(self).last_update()) > 0 ==> final(self).last_update() == now,
            now == old(self).last_update() ==> *final(self) == *old(self),
    {
        proof {
            use_type_invariant(&*self);
        }
        let e: u64 = nanos_between(&self.last_update, &now);
        if e == 0 {
            return;
        }
        self.accum = next_estimate(self.accum, delta as u64, e);
        self.last_update = now;
    }

    /// The current estimate, in whole bytes per second (rounded down).
    pub fn read(&self) -> (r: u64)
        ensures
            r == self.estimate() / (DECAY_ONE as nat),
    {
        proof {
            use_type_invariant(self);
        }
        (self.accum / (DECAY_ONE as u128)) as u64
    }
}

} // verus!
