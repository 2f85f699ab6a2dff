//! The decay factor: how much of the old estimate a sample keeps.
//!
//! After `t` seconds an old estimate keeps `2^-t` of its weight. For
//! `t = s + f`, with `s` whole seconds and `0 <= f < 1` counted in steps of
//! `2^-30` s (about a nanosecond), `2^-f` is the product, over the binary
//! digits of `f`, of the constants `2^-(2^-j)`. The product is taken with 64
//! bits of fraction, rounded down after each step and never below one half;
//! it is then cut to 32 bits of fraction (a multiple of `1 / DECAY_ONE`) and
//! halved `s` times. The weight is exact at whole seconds, never grows from
//! one second to the next, and is never below one unit.
use vstd::arithmetic::div_mod::{lemma_div_multiples_vanish, lemma_fundamental_div_mod_converse};
use vstd::arithmetic::power2::{lemma2_to64, lemma2_to64_rest, lemma_pow2_adds, lemma_pow2_pos, lemma_pow2_strictly_increases, pow2};
use vstd::prelude::*;

verus! {

/// Nanoseconds in one second.
pub const NANOS_PER_SEC: u64 = 1_000_000_000;

/// The fixed-point unit of the decay weight: a weight `w` stands for the
/// factor `w / DECAY_ONE`.
pub const DECAY_ONE: u64 = 4_294_967_296;

/// The unit of the product of `2^-f`: `2^64`.
pub const FRAC_ONE: u128 = 18_446_744_073_709_551_616;

/// Steps of the fraction of a second: `2^30`.
pub const FRAC_STEPS: u64 = 1_073_741_824;

/// Whole seconds in `e` nanoseconds.
pub open spec fn whole_secs(e: nat) -> nat {
    e / (NANOS_PER_SEC as nat)
}

/// The fraction of a second past the whole seconds of `e` nanoseconds, in
/// steps of `1 / FRAC_STEPS` s, rounded down.
pub open spec fn frac_steps(e: nat) -> nat {
    (e % (NANOS_PER_SEC as nat)) * (FRAC_STEPS as nat) / (NANOS_PER_SEC as nat)
}

/// `2^-(2^-j)` in units of `1 / FRAC_ONE`, rounded down, for `1 <= j <= 30`.
pub open spec fn root_weight(j: nat) -> nat {
    if j == 1 {
        13_043_817_825_332_782_212
    } else if j == 2 {
        15_511_800_964_685_064_948
    } else if j == 3 {
        16_915_738_899_553_466_670
    } else if j == 4 {
        17_664_662_643_191_237_676
    } else if j == 5 {
        18_051_468_387_014_017_850
    } else if j == 6 {
        18_248_035_989_933_441_396
    } else if j == 7 {
        18_347_121_020_861_646_923
    } else if j == 8 {
        18_396_865_112_328_554_661
    } else if j == 9 {
        18_421_787_711_448_657_617
    } else if j == 10 {
        18_434_261_669_329_232_139
    } else if j == 11 {
        18_440_501_815_349_552_981
    } else if j == 12 {
        18_443_622_680_442_407_997
    } else if j == 13 {
        18_445_183_311_048_607_332
    } else if j == 14 {
        18_445_963_675_871_538_003
    } else if j == 15 {
        18_446_353_870_663_572_145
    } else if j == 16 {
        18_446_548_971_154_807_802
    } else if j == 17 {
        18_446_646_522_174_239_825
    } else if j == 18 {
        18_446_695_297_877_410_579
    } else if j == 19 {
        18_446_719_685_777_359_790
    } else if j == 20 {
        18_446_731_879_739_425_374
    } else if j == 21 {
        18_446_737_976_723_480_912
    } else if j == 22 {
        18_446_741_025_216_264_368
    } else if j == 23 {
        18_446_742_549_462_845_018
    } else if j == 24 {
        18_446_743_311_586_182_573
    } else if j == 25 {
        18_446_743_692_647_863_158
    } else if j == 26 {
        18_446_743_883_178_706_403
    } else if j == 27 {
        18_446_743_978_444_128_763
    } else if j == 28 {
        18_446_744_026_076_840_128
    } else if j == 29 {
        18_446_744_049_893_195_856
    } else {
        18_446_744_061_801_373_732
    }
}

/// Whether `x` holds the binary digit worth `2^-j` of a second.
pub open spec fn has_digit(x: nat, j: nat) -> bool {
    (x / pow2((30 - j) as nat)) % 2 == 1
}

/// `2^-f` for the first `j` binary digits of `f = x / FRAC_STEPS`, in units
/// of `1 / FRAC_ONE`.
pub open spec fn frac_weight(x: nat, j: nat) -> nat
    decreases j,
{
    if j == 0 {
        FRAC_ONE as nat
    } else {
        let a = frac_weight(x, (j - 1) as nat);
        if has_digit(x, j) {
            a * root_weight(j) / (FRAC_ONE as nat)
        } else {
            a
        }
    }
}

/// `2^-f` for the fraction of a second in `e` nanoseconds, in units of
/// `1 / DECAY_ONE`: between one half and one.
pub open spec fn frac_decay(e: nat) -> nat {
    let a = frac_weight(frac_steps(e), 30);
    let h = if a < FRAC_ONE / 2 {
        (FRAC_ONE / 2) as nat
    } else {
        a
    };
    h / (DECAY_ONE as nat)
}

/// The decay factor after `e` nanoseconds, in units of `1 / DECAY_ONE`: at
/// least one.
pub open spec fn decay_weight_spec(e: nat) -> nat {
    let w = frac_decay(e) / pow2(whole_secs(e));
    if w == 0 {
        1
    } else {
        w
    }
}

fn root_weight_of(j: u64) -> (r: u128)
    requires
        1 <= j <= 30,
    ensures
        r == root_weight(j as nat),
        0 < r < FRAC_ONE,
{
    if j == 1 {
        13_043_817_825_332_782_212
    } else if j == 2 {
        15_511_800_964_685_064_948
    } else if j == 3 {
        16_915_738_899_553_466_670
    } else if j == 4 {
        17_664_662_643_191_237_676
    } else if j == 5 {
        18_051_468_387_014_017_850
    } else if j == 6 {
        18_248_035_989_933_441_396
    } else if j == 7 {
        18_347_121_020_861_646_923
    } else if j == 8 {
        18_396_865_112_328_554_661
    } else if j == 9 {
        18_421_787_711_448_657_617
    } else if j == 10 {
        18_434_261_669_329_232_139
    } else if j == 11 {
        18_440_501_815_349_552_981
    } else if j == 12 {
        18_443_622_680_442_407_997
    } else if j == 13 {
        18_445_183_311_048_607_332
    } else if j == 14 {
        18_445_963_675_871_538_003
    } else if j == 15 {
        18_446_353_870_663_572_145
    } else if j == 16 {
        18_446_548_971_154_807_802
    } else if j == 17 {
        18_446_646_522_174_239_825
    } else if j == 18 {
        18_446_695_297_877_410_579
    } else if j == 19 {
        18_446_719_685_777_359_790
    } else if j == 20 {
        18_446_731_879_739_425_374
    } else if j == 21 {
        18_446_737_976_723_480_912
    } else if j == 22 {
        18_446_741_025_216_264_368
    } else if j == 23 {
        18_446_742_549_462_845_018
    } else if j == 24 {
        18_446_743_311_586_182_573
    } else if j == 25 {
        18_446_743_692_647_863_158
    } else if j == 26 {
        18_446_743_883_178_706_403
    } else if j == 27 {
        18_446_743_978_444_128_763
    } else if j == 28 {
        18_446_744_026_076_840_128
    } else if j == 29 {
        18_446_744_049_893_195_856
    } else {
        18_446_744_061_801_373_732
    }
}

fn pow2_u64(k: u64) -> (r: u64)
    requires
        k < 64,
    ensures
        r == pow2(k as nat),
{
    proof {
        lemma2_to64();
    }
    let mut p: u64 = 1;
    let mut i: u64 = 0;
    while i < k
        invariant
            i <= k < 64,
            p == pow2(i as nat),
        decreases k - i,
    {
        proof {
            lemma2_to64();
            lemma_pow2_adds(i as nat, 1);
            lemma_pow2_strictly_increases(i as nat, 63);
            lemma2_to64_rest();
        }
        p = p * 2;
        i = i + 1;
    }
    p
}

proof fn lemma_frac_weight_bounded(x: nat, j: nat)
    requires
        j <= 30,
    ensures
        frac_weight(x, j) <= FRAC_ONE,
    decreases j,
{
    if j > 0 {
        lemma_frac_weight_bounded(x, (j - 1) as nat);
        let a = frac_weight(x, (j - 1) as nat);
        let c = root_weight(j);
        assert(c < FRAC_ONE);
        assert(a * c <= a * FRAC_ONE) by (nonlinear_arith)
            requires
                c < FRAC_ONE,
        ;
        assert(a * c / (FRAC_ONE as nat) <= a) by (nonlinear_arith)
            requires
                a * c <= a * FRAC_ONE,
        ;
    }
}

proof fn lemma_frac_weight_of_zero(j: nat)
    requires
        j <= 30,
    ensures
        frac_weight(0, j) == FRAC_ONE,
    decreases j,
{
    if j > 0 {
        lemma_frac_weight_of_zero((j - 1) as nat);
        lemma_pow2_pos((30 - j) as nat);
        assert(0nat / pow2((30 - j) as nat) == 0) by (nonlinear_arith)
            requires
                pow2((30 - j) as nat) > 0,
        ;
    }
}

/// `2^-f` for a fraction of a second lies between one half and one.
pub proof fn lemma_frac_decay_bounds(e: nat)
    ensures
        DECAY_ONE / 2 <= frac_decay(e) <= DECAY_ONE,
{
    let a = frac_weight(frac_steps(e), 30);
    lemma_frac_weight_bounded(frac_steps(e), 30);
    let h: int = if a < FRAC_ONE / 2 {
        (FRAC_ONE / 2) as int
    } else {
        a as int
    };
    assert(h / 4_294_967_296 <= 4_294_967_296 && h / 4_294_967_296 >= 2_147_483_648) by (nonlinear_arith)
        requires
            9_223_372_036_854_775_808 <= h <= 18_446_744_073_709_551_616,
    ;
}

/// The decay weight after `e` nanoseconds, in units of `1 / DECAY_ONE`.
pub fn decay_weight(e: u64) -> (r: u64)
    ensures
        r == decay_weight_spec(e as nat),
        0 < r <= DECAY_ONE,
{
    proof {
        lemma_decay_weight_bounds(e as nat);
        lemma_frac_decay_bounds(e as nat);
    }
    let s: u64 = e / NANOS_PER_SEC;
    let x: u64 = (e % NANOS_PER_SEC) * FRAC_STEPS / NANOS_PER_SEC;
    proof {
        let m: int = (e % NANOS_PER_SEC) as int;
        assert(m * 1_073_741_824 / 1_000_000_000 < 1_073_741_824) by (nonlinear_arith)
            requires
                0 <= m < 1_000_000_000,
        ;
    }
    assert(s == whole_secs(e as nat) && x == frac_steps(e as nat));
    let mut a: u128 = FRAC_ONE;
    let mut j: u64 = 1;
    while j <= 30
        invariant
            1 <= j <= 31,
            a == frac_weight(x as nat, (j - 1) as nat),
            a <= FRAC_ONE,
        decreases 31 - j,
    {
        proof {
            lemma_frac_weight_bounded(x as nat, j as nat);
        }
        let p: u64 = pow2_u64(30 - j);
        let c: u128 = root_weight_of(j);
        proof {
            lemma_pow2_pos((30 - j) as nat);
        }
        if x / p % 2 == 1 {
            assert(a * c <= u128::MAX) by (nonlinear_arith)
                requires
                    a <= 18_446_744_073_709_551_616u128,
                    c < 18_446_744_073_709_551_616u128,
            ;
            a = a * c / FRAC_ONE;
        }
        j = j + 1;
    }
    let h: u128 = if a < FRAC_ONE / 2 {
        FRAC_ONE / 2
    } else {
        a
    };
    let g: u64 = (h / (DECAY_ONE as u128)) as u64;
    assert(g == frac_decay(e as nat));
    let w: u64 = if s > 32 {
        proof {
            lemma2_to64();
            lemma_pow2_strictly_increases(32, s as nat);
            let gi: int = g as int;
            let ps: int = pow2(s as nat) as int;
            assert(gi / ps == 0) by (nonlinear_arith)
                requires
                    0 <= gi <= DECAY_ONE,
                    DECAY_ONE < ps,
            ;
        }
        0
    } else {
        proof {
            lemma2_to64();
            lemma_pow2_pos(s as nat);
        }
        g / pow2_u64(s)
    };
    if w == 0 {
        1
    } else {
        w
    }
}

/// The decay weight is always a positive fraction of at most one.
pub proof fn lemma_decay_weight_bounds(e: nat)
    ensures
        0 < decay_weight_spec(e) <= DECAY_ONE,
{
    let g = frac_decay(e);
    let p = pow2(whole_secs(e));
    lemma_frac_decay_bounds(e);
    lemma_pow2_pos(whole_secs(e));
    assert(g / p <= g) by (nonlinear_arith)
        requires
            p > 0,
    ;
}

/// At a whole number `k` of seconds, up to 32, the weight is exactly
/// `2^-k`: it halves with each second.
pub proof fn lemma_decay_whole_seconds(k: nat)
    requires
        k <= 32,
    ensures
        decay_weight_spec(k * NANOS_PER_SEC as nat) == pow2((32 - k) as nat),
{
    let e: nat = k * NANOS_PER_SEC as nat;
    let ns: int = NANOS_PER_SEC as int;
    lemma_fundamental_div_mod_converse(e as int, ns, k as int, 0);
    assert(whole_secs(e) == k && frac_steps(e) == 0);
    lemma_frac_weight_of_zero(30);
    assert(frac_decay(e) == DECAY_ONE);
    let q: int = pow2((32 - k) as nat) as int;
    let pk: int = pow2(k) as int;
    lemma2_to64();
    lemma_pow2_adds((32 - k) as nat, k);
    lemma_pow2_pos(k);
    lemma_pow2_pos((32 - k) as nat);
    assert(DECAY_ONE == pk * q) by (nonlinear_arith)
        requires
            DECAY_ONE == q * pk,
    ;
    lemma_div_multiples_vanish(q, pk);
}

/// The weight never grows from one whole second to a later one: whatever
/// the fractions, a later second keeps no more than an earlier one.
pub proof fn lemma_decay_later_second(e1: nat, e2: nat)
    requires
        whole_secs(e1) < whole_secs(e2),
    ensures
        decay_weight_spec(e2) <= decay_weight_spec(e1),
{
    let s1 = whole_secs(e1);
    let s2 = whole_secs(e2);
    lemma_frac_decay_bounds(e1);
    lemma_frac_decay_bounds(e2);
    lemma_pow2_pos(s1);
    lemma_pow2_adds(s1, (s2 - s1) as nat);
    lemma2_to64();
    lemma_pow2_strictly_increases(0, (s2 - s1) as nat);
    let p1: int = pow2(s1) as int;
    let p2: int = pow2(s2) as int;
    let g1: int = frac_decay(e1) as int;
    let g2: int = frac_decay(e2) as int;
    assert(p2 >= 2 * p1) by (nonlinear_arith)
        requires
            p2 == p1 * pow2((s2 - s1) as nat),
            pow2((s2 - s1) as nat) >= 2,
            p1 > 0,
    ;
    assert(g2 / p2 <= g1 / p1) by (nonlinear_arith)
        requires
            g2 <= 4_294_967_296,
            g1 >= 2_147_483_648,
            p2 >= 2 * p1,
            p1 > 0,
    ;
}

} // verus!
