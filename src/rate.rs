//! The instant rate of one sample and the smoothing step that folds it into
//! the estimate.
use crate::decay::{
    decay_weight, decay_weight_spec, lemma_decay_weight_bounds, lemma_decay_whole_seconds, DECAY_ONE,
    NANOS_PER_SEC,
};
use vstd::arithmetic::power2::{lemma2_to64, lemma_pow2_adds, lemma_pow2_pos, pow2};
use vstd::prelude::*;

verus! {

/// The largest scaled rate: `u64::MAX` bytes per second.
pub const MAX_SCALED: u128 = 79_228_162_514_264_337_589_248_983_040;

/// Bytes per second of `bytes` moved in `e` nanoseconds, scaled by
/// `DECAY_ONE` (so it keeps 32 bits of fraction), rounded down and capped at
/// `MAX_SCALED`.
pub open spec fn instant_rate_spec(bytes: nat, e: nat) -> nat
    recommends
        e > 0,
{
    let r = bytes * (NANOS_PER_SEC as nat) * (DECAY_ONE as nat) / e;
    if r > MAX_SCALED {
        MAX_SCALED as nat
    } else {
        r
    }
}

/// The convex combination `prior * w + inst * (1 - w)` for the weight
/// `w / DECAY_ONE`, rounded down.
pub open spec fn blend(prior: nat, inst: nat, w: nat) -> nat
    recommends
        w <= DECAY_ONE,
{
    ((prior * w + inst * (DECAY_ONE - w)) / (DECAY_ONE as int)) as nat
}

/// The estimate after a sample of `bytes` taken `e` nanoseconds after the
/// previous one. With no time elapsed the estimate is kept as it is.
pub open spec fn next_estimate_spec(prior: nat, bytes: nat, e: nat) -> nat {
    if e == 0 {
        prior
    } else {
        blend(prior, instant_rate_spec(bytes, e), decay_weight_spec(e))
    }
}

/// The distance between two rates.
pub open spec fn dist(a: nat, b: nat) -> nat {
    if a >= b {
        (a - b) as nat
    } else {
        (b - a) as nat
    }
}

/// The smaller of two rates.
pub open spec fn min_rate(a: nat, b: nat) -> nat {
    if a <= b {
        a
    } else {
        b
    }
}

/// The larger of two rates.
pub open spec fn max_rate(a: nat, b: nat) -> nat {
    if a >= b {
        a
    } else {
        b
    }
}

/// Bytes per second of `bytes` moved in `e` nanoseconds, scaled by
/// `DECAY_ONE`.
pub fn instant_rate(bytes: u64, e: u64) -> (r: u128)
    requires
        e > 0,
    ensures
        r == instant_rate_spec(bytes as nat, e as nat),
        r <= MAX_SCALED,
{
    assert(bytes * NANOS_PER_SEC * DECAY_ONE <= u64::MAX * NANOS_PER_SEC * DECAY_ONE) by (nonlinear_arith)
        requires
            bytes <= u64::MAX,
    ;
    let r: u128 = (bytes as u128) * (NANOS_PER_SEC as u128) * (DECAY_ONE as u128) / (e as u128);
    if r > MAX_SCALED {
        MAX_SCALED
    } else {
        r
    }
}

/// The scaled estimate after a sample of `bytes` taken `e` nanoseconds after
/// the previous one.
pub fn next_estimate(prior: u128, bytes: u64, e: u64) -> (r: u128)
    requires
        prior <= MAX_SCALED,
    ensures
        r == next_estimate_spec(prior as nat, bytes as nat, e as nat),
        r <= MAX_SCALED,
        e > 0 ==> min_rate(prior as nat, instant_rate_spec(bytes as nat, e as nat)) <= r
            <= max_rate(prior as nat, instant_rate_spec(bytes as nat, e as nat)),
        e == 0 ==> r == prior,
{
    if e == 0 {
        return prior;
    }
    let w: u64 = decay_weight(e);
    let inst: u128 = instant_rate(bytes, e);
    proof {
        lemma_estimate_between(prior as nat, bytes as nat, e as nat);
        let p: int = prior as int;
        let i: int = inst as int;
        let wi: int = w as int;
        assert(p * wi + i * (DECAY_ONE - wi) <= MAX_SCALED * DECAY_ONE) by (nonlinear_arith)
            requires
                0 <= p <= MAX_SCALED,
                0 <= i <= MAX_SCALED,
                0 <= wi <= DECAY_ONE,
        ;
        assert(p * wi <= MAX_SCALED * DECAY_ONE) by (nonlinear_arith)
            requires
                0 <= p <= MAX_SCALED,
                0 <= wi <= DECAY_ONE,
        ;
        assert(i * (DECAY_ONE - wi) >= 0) by (nonlinear_arith)
            requires
                0 <= i,
                wi <= DECAY_ONE,
        ;
    }
    let sum: u128 = prior * (w as u128) + inst * ((DECAY_ONE - w) as u128);
    sum / (DECAY_ONE as u128)
}

/// A sample taken after some time has elapsed leaves the estimate between
/// the prior estimate and the sample's instant rate.
pub proof fn lemma_estimate_between(prior: nat, bytes: nat, e: nat)
    requires
        e > 0,
    ensures
        min_rate(prior, instant_rate_spec(bytes, e)) <= next_estimate_spec(prior, bytes, e)
            <= max_rate(prior, instant_rate_spec(bytes, e)),
{
    let inst = instant_rate_spec(bytes, e);
    let w = decay_weight_spec(e);
    lemma_decay_weight_bounds(e);
    lemma_blend_between(prior, inst, w);
}

proof fn lemma_blend_between(prior: nat, inst: nat, w: nat)
    requires
        w <= DECAY_ONE,
    ensures
        min_rate(prior, inst) <= blend(prior, inst, w) <= max_rate(prior, inst),
{
    let lo: int = min_rate(prior, inst) as int;
    let hi: int = max_rate(prior, inst) as int;
    let one: int = DECAY_ONE as int;
    let p: int = prior as int;
    let i: int = inst as int;
    let wi: int = w as int;
    let sum: int = p * wi + i * (one - wi);
    assert(lo * one <= sum <= hi * one) by (nonlinear_arith)
        requires
            lo <= p <= hi,
            lo <= i <= hi,
            0 <= lo,
            0 <= wi <= one,
            sum == p * wi + i * (one - wi),
    ;
    assert(lo <= sum / one <= hi) by (nonlinear_arith)
        requires
            lo * one <= sum <= hi * one,
            one > 0,
    ;
}

/// The estimate after `k` samples of `bytes` each, taken `e` nanoseconds apart.
pub open spec fn repeated_estimate(prior: nat, bytes: nat, e: nat, k: nat) -> nat
    decreases k,
{
    if k == 0 {
        prior
    } else {
        next_estimate_spec(repeated_estimate(prior, bytes, e, (k - 1) as nat), bytes, e)
    }
}

/// A sample whose instant rate is `r` takes the estimate toward `r`: its
/// distance from `r` shrinks by the decay factor, up to less than one unit
/// of rounding, and never grows.
pub proof fn lemma_contraction(prior: nat, bytes: nat, e: nat)
    requires
        e > 0,
    ensures
        dist(next_estimate_spec(prior, bytes, e), instant_rate_spec(bytes, e)) * DECAY_ONE < dist(
            prior,
            instant_rate_spec(bytes, e),
        ) * decay_weight_spec(e) + DECAY_ONE,
        dist(next_estimate_spec(prior, bytes, e), instant_rate_spec(bytes, e)) <= dist(
            prior,
            instant_rate_spec(bytes, e),
        ),
{
    let r: int = instant_rate_spec(bytes, e) as int;
    let w: int = decay_weight_spec(e) as int;
    let one: int = DECAY_ONE as int;
    let p: int = prior as int;
    lemma_decay_weight_bounds(e);
    lemma_estimate_between(prior, bytes, e);
    let sum: int = p * w + r * (one - w);
    let n: int = next_estimate_spec(prior, bytes, e) as int;
    assert(n == sum / one);
    assert(n * one <= sum < n * one + one) by (nonlinear_arith)
        requires
            n == sum / one,
            one > 0,
    ;
    assert(sum == r * one + (p - r) * w) by (nonlinear_arith)
        requires
            sum == p * w + r * (one - w),
    ;
    let d0: int = dist(prior, r as nat) as int;
    let d1: int = dist(n as nat, r as nat) as int;
    if p >= r {
        assert(d1 * one <= d0 * w) by (nonlinear_arith)
            requires
                n * one <= sum,
                sum == r * one + (p - r) * w,
                d0 == p - r,
                d1 == n - r,
        ;
    } else {
        assert(d1 * one < d0 * w + one) by (nonlinear_arith)
            requires
                sum < n * one + one,
                sum == r * one + (p - r) * w,
                d0 == r - p,
                d1 == r - n,
        ;
    }
    assert(d1 < d0 + 1) by (nonlinear_arith)
        requires
            d1 * one < d0 * w + one,
            0 <= d0,
            0 < w <= one,
    ;
}

/// Samples of `r` bytes taken one second apart take any scaled estimate
/// toward the rate `r`: after `k` of them the distance is at most `2^-k` of
/// what it was, plus less than one unit of rounding (`1 / DECAY_ONE` byte
/// per second).
pub proof fn lemma_converges_each_second(prior: nat, r: nat, k: nat)
    requires
        r <= u64::MAX,
    ensures
        pow2(k) * dist(repeated_estimate(prior, r, NANOS_PER_SEC as nat, k), r * (DECAY_ONE as nat)) <= dist(
            prior,
            r * (DECAY_ONE as nat),
        ) + pow2(k) - 1,
    decreases k,
{
    let ns: nat = NANOS_PER_SEC as nat;
    lemma_pow2_pos(k);
    if k > 0 {
        let km: nat = (k - 1) as nat;
        lemma_converges_each_second(prior, r, km);
        let a: nat = repeated_estimate(prior, r, ns, km);
        lemma_contraction(a, r, ns);
        let rs: nat = r * (DECAY_ONE as nat);
        assert(instant_rate_spec(r, ns) == rs) by {
            vstd::arithmetic::div_mod::lemma_div_multiples_vanish(rs as int, ns as int);
            assert(r * ns * DECAY_ONE == ns * rs) by (nonlinear_arith)
                requires
                    rs == r * (DECAY_ONE as nat),
            ;
            assert(rs <= MAX_SCALED) by (nonlinear_arith)
                requires
                    rs == r * (DECAY_ONE as nat),
                    r <= u64::MAX,
                    DECAY_ONE == 4_294_967_296u64,
                    MAX_SCALED == 79_228_162_514_264_337_589_248_983_040u128,
            ;
        }
        lemma_decay_whole_seconds(1);
        lemma2_to64();
        assert(1 * ns == ns);
        let d0: int = dist(a, rs) as int;
        let d1: int = dist(repeated_estimate(prior, r, ns, k), rs) as int;
        assert(d1 * DECAY_ONE < d0 * 0x8000_0000 + DECAY_ONE);
        assert(2 * d1 <= d0 + 1) by (nonlinear_arith)
            requires
                d1 * 0x1_0000_0000 < d0 * 0x8000_0000 + 0x1_0000_0000,
        ;
        lemma_pow2_adds(km, 1);
        let pk: int = pow2(km) as int;
        let dz: int = dist(prior, rs) as int;
        assert(pk * d0 <= dz + pk - 1);
        assert(pk * 2 * d1 <= dz + pk * 2 - 1) by (nonlinear_arith)
            requires
                2 * d1 <= d0 + 1,
                pk * d0 <= dz + pk - 1,
                pk > 0,
        ;
    } else {
        lemma2_to64();
    }
}

} // verus!
