use bw_estimate::decay::{decay_weight, DECAY_ONE, NANOS_PER_SEC};
use bw_estimate::rate::{instant_rate, next_estimate, MAX_SCALED};
use bw_estimate::BwEstimate;
use std::time::{Duration, Instant};

#[test]
fn read_after_new_returns_initial() {
    for x in [0u64, 1, 1_000_000, 123_456_789, u64::MAX] {
        assert_eq!(BwEstimate::new(x).read(), x);
        assert_eq!(BwEstimate::new_at(x, Instant::now()).read(), x);
    }
}

#[test]
fn one_second_at_the_same_rate_keeps_the_estimate() {
    let t0 = Instant::now();
    let mut est = BwEstimate::new_at(1_000_000, t0);
    est.sample_at(1_000_000, t0 + Duration::from_secs(1));
    assert_eq!(est.read(), 1_000_000);
}

#[test]
fn two_seconds_from_zero_gives_three_quarters() {
    let t0 = Instant::now();
    let mut est = BwEstimate::new_at(0, t0);
    est.sample_at(2_000_000, t0 + Duration::from_secs(2));
    assert_eq!(est.read(), 750_000);
}

#[test]
fn zero_elapsed_keeps_the_estimate() {
    let t0 = Instant::now();
    let mut est = BwEstimate::new_at(500, t0);
    est.sample_at(1_000, t0);
    est.sample_at(0, t0);
    assert_eq!(est.read(), 500);
    let t1 = t0 + Duration::from_secs(1);
    est.sample_at(2_000, t1);
    est.sample_at(9_999, t1);
    assert_eq!(est.read(), 1_250);
}

#[test]
fn clock_running_backward_counts_as_zero_elapsed() {
    let t0 = Instant::now();
    let t1 = t0 + Duration::from_secs(1);
    let mut est = BwEstimate::new_at(7, t1);
    est.sample_at(100, t0);
    assert_eq!(est.read(), 7);
    est.sample_at(100, t1);
    assert_eq!(est.read(), 7);
    est.sample_at(100, t1 + Duration::from_secs(1));
    assert_eq!(est.read(), 53);
}

#[test]
fn half_second_sample_uses_the_exponential_factor() {
    let t0 = Instant::now();
    let mut est = BwEstimate::new_at(0, t0);
    est.sample_at(1_000_000, t0 + Duration::from_millis(500));
    assert_eq!(est.read(), 585_786);
    est.sample_at(1_000_000, t0 + Duration::from_secs(1));
    assert_eq!(est.read(), 1_000_000);
}

#[test]
fn slow_rates_at_short_intervals_still_move_the_estimate() {
    assert_eq!(next_estimate(0, 1, 1_000), 2_975_000_000);
    let t0 = Instant::now();
    let mut est = BwEstimate::new_at(0, t0);
    for k in 1..=200_000u32 {
        est.sample_at(1, t0 + Duration::from_micros(k as u64));
    }
    assert!(est.read() > 100_000 && est.read() < 200_000);
}

#[test]
fn sample_with_the_real_clock() {
    let mut est = BwEstimate::new(1_000);
    est.sample(10);
    est.sample(10);
    let r = est.read();
    assert_eq!(est.read(), r);
}

#[test]
fn decay_weight_halves_each_second() {
    assert_eq!(DECAY_ONE, 1u64 << 32);
    assert_eq!(decay_weight(0), 1u64 << 32);
    assert_eq!(decay_weight(NANOS_PER_SEC), 1u64 << 31);
    assert_eq!(decay_weight(2 * NANOS_PER_SEC), 1u64 << 30);
    assert_eq!(decay_weight(10 * NANOS_PER_SEC), 1u64 << 22);
    assert_eq!(decay_weight(32 * NANOS_PER_SEC), 1);
}

#[test]
fn decay_weight_between_whole_seconds() {
    assert_eq!(decay_weight(NANOS_PER_SEC / 2), 3_037_000_499);
    assert_eq!(decay_weight(NANOS_PER_SEC + NANOS_PER_SEC / 2), 1_518_500_249);
    assert_eq!(decay_weight(1), 4_294_967_293);
    assert_eq!(decay_weight(NANOS_PER_SEC - 1), 2_147_483_650);
    assert_eq!(decay_weight(NANOS_PER_SEC + 1), 2_147_483_646);
}

#[test]
fn decay_weight_stays_positive_and_never_grows() {
    let points = [
        0u64,
        1,
        2,
        20_000,
        999_999_999,
        1_000_000_000,
        1_000_000_001,
        1_700_000_000,
        31 * NANOS_PER_SEC,
        32 * NANOS_PER_SEC,
        33 * NANOS_PER_SEC,
        1_000 * NANOS_PER_SEC,
        u64::MAX,
    ];
    let mut prev = DECAY_ONE;
    for e in points {
        let w = decay_weight(e);
        assert!(w > 0 && w <= DECAY_ONE);
        assert!(w <= prev);
        prev = w;
    }
    let mut prev = DECAY_ONE;
    let mut e: u64 = 0;
    while e < 3 * NANOS_PER_SEC {
        let w = decay_weight(e);
        assert!(w <= prev);
        prev = w;
        e += 9_973;
    }
    assert_eq!(decay_weight(u64::MAX), 1);
}

#[test]
fn instant_rate_is_scaled_bytes_per_second() {
    let one = DECAY_ONE as u128;
    assert_eq!(instant_rate(2_000_000, 2 * NANOS_PER_SEC), 1_000_000 * one);
    assert_eq!(instant_rate(1, 1), 1_000_000_000 * one);
    assert_eq!(instant_rate(0, 5), 0);
    assert_eq!(instant_rate(10, 3 * NANOS_PER_SEC), 14_316_557_653);
    assert_eq!(instant_rate(u64::MAX, 1), MAX_SCALED);
}

#[test]
fn next_estimate_exact_values() {
    let one = DECAY_ONE as u128;
    assert_eq!(next_estimate(0, 1_000_000, NANOS_PER_SEC / 2), 2_515_933_594_000_000);
    assert_eq!(next_estimate(1_000_000 * one, 1_000_000, NANOS_PER_SEC), 1_000_000 * one);
    assert_eq!(next_estimate(0, 2_000_000, 2 * NANOS_PER_SEC), 750_000 * one);
    assert_eq!(next_estimate(42 * one, 1_000, 0), 42 * one);
    assert_eq!(next_estimate(42 * one, 0, 1000 * NANOS_PER_SEC), 42);
}

#[test]
fn next_estimate_lies_between_prior_and_instant_rate() {
    let cases = [
        (0u128, 0u64, 1u64),
        (1_000, 5_000, 250_000_000),
        (9_000_000, 1, 3_000_000_000),
        (MAX_SCALED, u64::MAX, 1),
        (MAX_SCALED, 0, NANOS_PER_SEC),
        (17, 123_456, 777),
    ];
    for (prior, bytes, e) in cases {
        let inst = instant_rate(bytes, e);
        let next = next_estimate(prior, bytes, e);
        assert!(prior.min(inst) <= next && next <= prior.max(inst));
    }
}

#[test]
fn steady_rate_each_second_converges() {
    let r: u64 = 4_000_000;
    let t0 = Instant::now();
    let mut est = BwEstimate::new_at(0, t0);
    let mut bound: u64 = r;
    for k in 1..=40u64 {
        est.sample_at(r as usize, t0 + Duration::from_secs(k));
        bound /= 2;
        let d = r.abs_diff(est.read());
        assert!(d <= bound + 1);
    }
    assert!(r - est.read() <= 1);
}

#[test]
fn steady_rate_at_short_intervals_converges() {
    let r: u64 = 800_000;
    let step = Duration::from_millis(250);
    let t0 = Instant::now();
    let mut est = BwEstimate::new_at(50_000_000, t0);
    let mut prev_d = est.read().abs_diff(r);
    for k in 1..=200u32 {
        est.sample_at(200_000, t0 + step * k);
        let d = est.read().abs_diff(r);
        assert!(d <= prev_d);
        prev_d = d;
    }
    assert!(prev_d <= 2);
}
