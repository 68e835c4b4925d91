//! Fixed-point arithmetic for the trainer.
//!
//! Scores, weights, edges and the target edge gamma are real numbers in the
//! mathematical description of boosting. This crate carries them as integers
//! scaled by [`SCALE`]: the integer `v` stands for the real number
//! `v / SCALE`. Every arithmetic step is then exact integer arithmetic.
//!
//! The exponential weight of an example and the logarithmic leaf prediction
//! are computed by bounded integer approximations of `exp` and `ln`. Their
//! contracts state the ranges and the exact special values that the rest of
//! the crate relies on.

use vstd::prelude::*;
use vstd::arithmetic::div_mod::lemma_div_is_ordered;
use vstd::arithmetic::div_mod::lemma_div_is_ordered_by_denominator;
use vstd::arithmetic::div_mod::lemma_div_multiples_vanish;
use vstd::arithmetic::power2::pow2;
use vstd::arithmetic::power2::lemma_pow2_adds;
use vstd::arithmetic::power2::lemma2_to64;

verus! {

/// The fixed-point unit: the integer `SCALE` stands for the real number `1.0`.
pub const SCALE: u64 = 1_000_000;

/// `floor(log2(e) * SCALE)`: converts a natural exponent to a base-2 exponent.
pub const LOG2_E_SCALED: u64 = 1_442_695;

/// `floor(ln(2) * SCALE)`: converts a base-2 logarithm to a natural logarithm.
pub const LN_2_SCALED: u64 = 693_147;

/// Margins at or below this value (`-6.9`) saturate the example weight.
pub const MARGIN_SATURATE: i64 = -6_900_000;

/// Margins at or above this value (`20.0`) round the example weight to zero.
pub const MARGIN_ZERO: i64 = 20_000_000;

/// The greatest value `weight_of_margin` can return (about `1050.0`).
pub const MAX_WEIGHT: u64 = 1_050_000_000;

/// The greatest magnitude `half_ln_ratio` can return (`40.0`).
pub const MAX_HALF_LN: i64 = 40_000_000;

/// Truncated series for `SCALE * exp(-f * ln 2 / SCALE)` with `f` in `[0, SCALE)`,
/// that is `SCALE * 2^-(f/SCALE)`.
fn exp2_frac_neg(f: u64) -> (r: u64)
    requires
        f < SCALE,
    ensures
        r == spec_exp2_frac_neg(f as int),
        306_853 <= r <= 1_300_000,
        f == 0 ==> r == SCALE,
{
    assert(f * LN_2_SCALED <= 999_999u64 * LN_2_SCALED) by (nonlinear_arith)
        requires f <= 999_999u64;
    let x: u64 = f * LN_2_SCALED / SCALE;
    assert(x <= 693_147) by {
        lemma_div_is_ordered((f * LN_2_SCALED) as int, (999_999u64 * LN_2_SCALED) as int, SCALE as int);
    };
    assert(x * x <= 693_147u64 * 693_147u64) by (nonlinear_arith)
        requires x <= 693_147u64;
    let p2: u64 = x * x / SCALE;
    assert(p2 <= 480_452) by {
        lemma_div_is_ordered((x * x) as int, (693_147u64 * 693_147u64) as int, SCALE as int);
    };
    assert(p2 * x <= 480_452u64 * 693_147u64) by (nonlinear_arith)
        requires p2 <= 480_452u64, x <= 693_147u64;
    let p3: u64 = p2 * x / SCALE;
    assert(p3 <= 333_024) by {
        lemma_div_is_ordered((p2 * x) as int, (480_452u64 * 693_147u64) as int, SCALE as int);
    };
    assert(p3 * x <= 333_024u64 * 693_147u64) by (nonlinear_arith)
        requires p3 <= 333_024u64, x <= 693_147u64;
    let p4: u64 = p3 * x / SCALE;
    assert(p4 <= 230_834) by {
        lemma_div_is_ordered((p3 * x) as int, (333_024u64 * 693_147u64) as int, SCALE as int);
    };
    assert(p3 <= p2) by {
        assert(p2 * x <= p2 * SCALE) by (nonlinear_arith)
            requires x <= SCALE;
        lemma_div_is_ordered((p2 * x) as int, (p2 * SCALE) as int, SCALE as int);
        lemma_div_multiples_vanish(p2 as int, SCALE as int);
    };
    assert(p3 / 6 <= p2 / 2) by {
        lemma_div_is_ordered(p3 as int, p2 as int, 6);
        lemma_div_is_ordered_by_denominator(p2 as int, 2, 6);
    };
    assert(p2 / 2 <= 240_226 && p3 / 6 <= 55_504 && p4 / 24 <= 9_618) by {
        lemma_div_is_ordered(p2 as int, 480_452, 2);
        lemma_div_is_ordered(p3 as int, 333_024, 6);
        lemma_div_is_ordered(p4 as int, 230_834, 24);
    };
    if f == 0 {
        assert(x == 0) by {
            lemma_div_multiples_vanish(0, SCALE as int);
        };
        assert(x * x == 0) by (nonlinear_arith)
            requires x == 0u64;
        assert(p2 == 0) by {
            lemma_div_multiples_vanish(0, SCALE as int);
        };
        assert(p2 * x == 0) by (nonlinear_arith)
            requires x == 0u64;
        assert(p3 == 0) by {
            lemma_div_multiples_vanish(0, SCALE as int);
        };
        assert(p3 * x == 0) by (nonlinear_arith)
            requires x == 0u64;
        assert(p4 == 0) by {
            lemma_div_multiples_vanish(0, SCALE as int);
        };
    }
    SCALE - x + p2 / 2 - p3 / 6 + p4 / 24
}

/// Truncated series for `SCALE * exp(f * ln 2 / SCALE)` with `f` in `[0, SCALE)`,
/// that is `SCALE * 2^(f/SCALE)`.
fn exp2_frac_pos(f: u64) -> (r: u64)
    requires
        f < SCALE,
    ensures
        r == spec_exp2_frac_pos(f as int),
        SCALE <= r <= 2_040_000,
        f == 0 ==> r == SCALE,
{
    assert(f * LN_2_SCALED <= 999_999u64 * LN_2_SCALED) by (nonlinear_arith)
        requires f <= 999_999u64;
    let x: u64 = f * LN_2_SCALED / SCALE;
    assert(x <= 693_147) by {
        lemma_div_is_ordered((f * LN_2_SCALED) as int, (999_999u64 * LN_2_SCALED) as int, SCALE as int);
    };
    assert(x * x <= 693_147u64 * 693_147u64) by (nonlinear_arith)
        requires x <= 693_147u64;
    let p2: u64 = x * x / SCALE;
    assert(p2 <= 480_452) by {
        lemma_div_is_ordered((x * x) as int, (693_147u64 * 693_147u64) as int, SCALE as int);
    };
    assert(p2 * x <= 480_452u64 * 693_147u64) by (nonlinear_arith)
        requires p2 <= 480_452u64, x <= 693_147u64;
    let p3: u64 = p2 * x / SCALE;
    assert(p3 <= 333_024) by {
        lemma_div_is_ordered((p2 * x) as int, (480_452u64 * 693_147u64) as int, SCALE as int);
    };
    assert(p3 * x <= 333_024u64 * 693_147u64) by (nonlinear_arith)
        requires p3 <= 333_024u64, x <= 693_147u64;
    let p4: u64 = p3 * x / SCALE;
    assert(p4 <= 230_834) by {
        lemma_div_is_ordered((p3 * x) as int, (333_024u64 * 693_147u64) as int, SCALE as int);
    };
    assert(p2 / 2 <= 240_226 && p3 / 6 <= 55_504 && p4 / 24 <= 9_618) by {
        lemma_div_is_ordered(p2 as int, 480_452, 2);
        lemma_div_is_ordered(p3 as int, 333_024, 6);
        lemma_div_is_ordered(p4 as int, 230_834, 24);
    };
    if f == 0 {
        assert(x == 0) by {
            lemma_div_multiples_vanish(0, SCALE as int);
        };
        assert(x * x == 0) by (nonlinear_arith)
            requires x == 0u64;
        assert(p2 == 0) by {
            lemma_div_multiples_vanish(0, SCALE as int);
        };
        assert(p2 * x == 0) by (nonlinear_arith)
            requires x == 0u64;
        assert(p3 == 0) by {
            lemma_div_multiples_vanish(0, SCALE as int);
        };
        assert(p3 * x == 0) by (nonlinear_arith)
            requires x == 0u64;
        assert(p4 == 0) by {
            lemma_div_multiples_vanish(0, SCALE as int);
        };
    }
    SCALE + x + p2 / 2 + p3 / 6 + p4 / 24
}

/// The series of `exp2_frac_neg`, as a function of the fractional base-2
/// exponent.
pub open spec fn spec_exp2_frac_neg(f: int) -> int {
    let x = f * (LN_2_SCALED as int) / (SCALE as int);
    let p2 = x * x / (SCALE as int);
    let p3 = p2 * x / (SCALE as int);
    let p4 = p3 * x / (SCALE as int);
    (SCALE as int) - x + p2 / 2 - p3 / 6 + p4 / 24
}

/// The series of `exp2_frac_pos`, as a function of the fractional base-2
/// exponent.
pub open spec fn spec_exp2_frac_pos(f: int) -> int {
    let x = f * (LN_2_SCALED as int) / (SCALE as int);
    let p2 = x * x / (SCALE as int);
    let p3 = p2 * x / (SCALE as int);
    let p4 = p3 * x / (SCALE as int);
    (SCALE as int) + x + p2 / 2 + p3 / 6 + p4 / 24
}

/// `2^q` for the small integer exponents the weight computation meets.
pub open spec fn spec_pow2_small(q: int) -> int {
    if q <= 0 { 1 }
    else if q == 1 { 2 }
    else if q == 2 { 4 }
    else if q == 3 { 8 }
    else if q == 4 { 16 }
    else if q == 5 { 32 }
    else if q == 6 { 64 }
    else if q == 7 { 128 }
    else if q == 8 { 256 }
    else if q == 9 { 512 }
    else if q == 10 { 1_024 }
    else if q == 11 { 2_048 }
    else if q == 12 { 4_096 }
    else if q == 13 { 8_192 }
    else if q == 14 { 16_384 }
    else if q == 15 { 32_768 }
    else if q == 16 { 65_536 }
    else if q == 17 { 131_072 }
    else if q == 18 { 262_144 }
    else if q == 19 { 524_288 }
    else { 1_048_576 }
}

/// The defining computation of `weight_of_margin`: the margin clamped to
/// the saturation window, converted to a base-2 exponent, and the series
/// value scaled by the integer power of two.
pub open spec fn spec_weight_of_margin(m: int) -> int {
    if m >= MARGIN_ZERO {
        0int
    } else {
        let mag = if m <= MARGIN_SATURATE {
            6_900_000int
        } else if m < 0 {
            -m
        } else {
            m
        };
        let y = mag * (LOG2_E_SCALED as int) / (SCALE as int);
        let q = y / (SCALE as int);
        let f = y % (SCALE as int);
        if m < 0 {
            spec_exp2_frac_pos(f) * spec_pow2_small(q)
        } else if q >= 21 {
            0
        } else {
            spec_exp2_frac_neg(f) / spec_pow2_small(q)
        }
    }
}

/// The importance weight of an example whose margin (`label * (curr_score -
/// base_score)`, fixed point) is `m`: an integer approximation of
/// `SCALE * exp(-m / SCALE)`, saturated below `MARGIN_SATURATE` and rounded
/// to zero at and above `MARGIN_ZERO`. Returns exactly the value of the
/// defining computation `spec_weight_of_margin`.
pub fn weight_of_margin(m: i64) -> (w: u64)
    ensures
        w == spec_weight_of_margin(m as int),
        w <= MAX_WEIGHT,
        m >= MARGIN_ZERO ==> w == 0,
        m == 0 ==> w == SCALE,
        m <= 0 ==> w >= SCALE,
{
    if m >= MARGIN_ZERO {
        return 0;
    }
    let neg = m < 0;
    let mag: u64 = if m <= MARGIN_SATURATE {
        6_900_000
    } else if m < 0 {
        (-m) as u64
    } else {
        m as u64
    };
    assert(mag * LOG2_E_SCALED <= 19_999_999u64 * LOG2_E_SCALED) by (nonlinear_arith)
        requires mag <= 19_999_999u64;
    let y: u64 = mag * LOG2_E_SCALED / SCALE;
    assert(neg ==> y <= 9_954_595) by {
        if neg {
            assert(mag * LOG2_E_SCALED <= 6_900_000u64 * LOG2_E_SCALED) by (nonlinear_arith)
                requires mag <= 6_900_000u64;
            lemma_div_is_ordered(
                (mag * LOG2_E_SCALED) as int,
                (6_900_000u64 * LOG2_E_SCALED) as int,
                SCALE as int,
            );
        }
    };
    let q: u64 = y / SCALE;
    let f: u64 = y % SCALE;
    if neg {
        let base = exp2_frac_pos(f);
        assert(q <= 9) by {
            lemma_div_is_ordered(y as int, 9_954_595int, SCALE as int);
        };
        let p: u64 = match q {
            0 => 1,
            1 => 2,
            2 => 4,
            3 => 8,
            4 => 16,
            5 => 32,
            6 => 64,
            7 => 128,
            8 => 256,
            _ => 512,
        };
        assert(p == spec_pow2_small(q as int));
        assert(base * p <= 2_040_000u64 * 512u64) by (nonlinear_arith)
            requires base <= 2_040_000u64, p <= 512u64;
        assert(base * p >= SCALE) by (nonlinear_arith)
            requires base >= SCALE, p >= 1u64;
        base * p
    } else {
        let base = exp2_frac_neg(f);
        if q >= 21 {
            // base < 2^21, so the true quotient is zero
            return 0;
        }
        let p: u64 = match q {
            0 => 1,
            1 => 2,
            2 => 4,
            3 => 8,
            4 => 16,
            5 => 32,
            6 => 64,
            7 => 128,
            8 => 256,
            9 => 512,
            10 => 1_024,
            11 => 2_048,
            12 => 4_096,
            13 => 8_192,
            14 => 16_384,
            15 => 32_768,
            16 => 65_536,
            17 => 131_072,
            18 => 262_144,
            19 => 524_288,
            _ => 1_048_576,
        };
        assert(p == spec_pow2_small(q as int));
        let w = base / p;
        assert(w <= base) by {
            lemma_div_is_ordered_by_denominator(base as int, 1, p as int);
        };
        assert(m == 0 ==> w == SCALE);
        w
    }
}

/// The scaled ratio the logarithm is taken of, floored at one.
pub open spec fn spec_ratio_scaled(num: int, den: int) -> int {
    let x0 = num * (SCALE as int) / den;
    if x0 < 1 {
        1
    } else {
        x0
    }
}

/// Halve `x` into `[.., 2 * SCALE)`, at most 110 times, counting up.
pub open spec fn spec_norm_down(x: int, k: int) -> (int, int)
    decreases 110 - k,
{
    if x >= 2 * (SCALE as int) && k < 110 {
        spec_norm_down(x / 2, k + 1)
    } else {
        (x, k)
    }
}

/// Double `x` into `[SCALE, ..)`, at most 30 times, counting down.
pub open spec fn spec_norm_up(x: int, k: int) -> (int, int)
    decreases k + 30,
{
    if x < SCALE as int && k > -30 {
        spec_norm_up(2 * x, k - 1)
    } else {
        (x, k)
    }
}

/// The binary-digit extraction: square the mantissa `rounds` times, and
/// shift a fraction bit out whenever the square crosses two.
pub open spec fn spec_frac_rounds(m: int, frac: int, rounds: int) -> (int, int)
    decreases rounds,
{
    if rounds <= 0 {
        (m, frac)
    } else {
        let m2 = m * m / (SCALE as int);
        if m2 >= 2 * (SCALE as int) {
            spec_frac_rounds(m2 / 2, 2 * frac + 1, rounds - 1)
        } else {
            spec_frac_rounds(m2, 2 * frac, rounds - 1)
        }
    }
}

/// The defining computation of `half_ln_ratio`: normalise the scaled ratio
/// into `[SCALE, 2 * SCALE)` counting the base-2 exponent, extract twenty
/// fraction bits by repeated squaring, and convert half the base-2
/// logarithm to the natural one.
pub open spec fn spec_half_ln_ratio(num: int, den: int) -> int {
    let x1 = spec_ratio_scaled(num, den);
    let down = spec_norm_down(x1, 0);
    let xd = if down.0 >= 2 * (SCALE as int) {
        2 * (SCALE as int) - 1
    } else {
        down.0
    };
    let up = spec_norm_up(xd, down.1);
    let xu = if up.0 < SCALE as int {
        SCALE as int
    } else {
        up.0
    };
    let digits = spec_frac_rounds(xu, 0, 20);
    let frac_scaled = digits.1 * (SCALE as int) / 1_048_576;
    let log2_scaled = up.1 * (SCALE as int) + frac_scaled;
    let log2_mag = if log2_scaled >= 0 {
        log2_scaled
    } else {
        -log2_scaled
    };
    let ln_mag = log2_mag * (LN_2_SCALED as int) / (SCALE as int);
    if log2_scaled >= 0 {
        ln_mag / 2
    } else {
        -(ln_mag / 2)
    }
}

/// `floor` of half the natural logarithm of `num / den`, fixed point: the
/// constant prediction `0.5 * ln(n_pos / n_neg)` of a leaf holding `num`
/// positive and `den` negative weight. Returns exactly the value of the
/// defining computation `spec_half_ln_ratio`; exact at `num == den`,
/// signed like the true logarithm, and at least `0.34` once the ratio
/// reaches two.
pub fn half_ln_ratio(num: u64, den: u64) -> (r: i64)
    requires
        1 <= num,
        1 <= den,
    ensures
        r == spec_half_ln_ratio(num as int, den as int),
        -MAX_HALF_LN <= r <= MAX_HALF_LN,
        num == den ==> r == 0,
        num <= den ==> r <= 0,
        num >= den ==> r >= 0,
        num >= 2 * den ==> r >= 340_000,
{
    let scale128: u128 = SCALE as u128;
    let x0: u128 = (num as u128) * scale128 / (den as u128);
    let mut x: u128 = if x0 < 1 { 1 } else { x0 };
    let ghost x1: u128 = x;
    proof {
        assert(x1 as int == spec_ratio_scaled(num as int, den as int));
        if num <= den {
            assert((num as u128) * scale128 <= (den as u128) * scale128) by (nonlinear_arith)
                requires num <= den;
            lemma_div_is_ordered(
                ((num as u128) * scale128) as int,
                ((den as u128) * scale128) as int,
                den as int,
            );
            assert(((den as u128) * scale128) as int == (SCALE as int) * (den as int))
                by (nonlinear_arith)
                requires scale128 == SCALE as u128;
            lemma_div_multiples_vanish(SCALE as int, den as int);
            assert(x1 <= scale128);
        }
        if num >= den {
            assert((num as u128) * scale128 >= (den as u128) * scale128) by (nonlinear_arith)
                requires num >= den;
            lemma_div_is_ordered(
                ((den as u128) * scale128) as int,
                ((num as u128) * scale128) as int,
                den as int,
            );
            assert(((den as u128) * scale128) as int == (SCALE as int) * (den as int))
                by (nonlinear_arith)
                requires scale128 == SCALE as u128;
            lemma_div_multiples_vanish(SCALE as int, den as int);
            assert(x1 >= scale128);
        }
        if num >= 2 * den {
            assert((num as u128) * scale128 >= ((2 * den) as u128) * scale128) by (nonlinear_arith)
                requires num >= 2 * den;
            lemma_div_is_ordered(
                (((2 * den) as u128) * scale128) as int,
                ((num as u128) * scale128) as int,
                den as int,
            );
            assert((((2 * den) as u128) * scale128) as int == (2 * SCALE as int) * (den as int))
                by (nonlinear_arith)
                requires scale128 == SCALE as u128, num >= 2 * den;
            lemma_div_multiples_vanish(2 * SCALE as int, den as int);
            assert(x1 >= 2 * scale128);
        }
    }
    let mut k: i64 = 0;
    while x >= 2 * scale128 && k < 110
        invariant
            scale128 == SCALE as u128,
            1 <= x,
            0 <= k <= 110,
            k == 0 ==> x == x1,
            k >= 1 ==> x >= scale128,
            x1 < 2 * scale128 ==> k == 0,
            spec_norm_down(x1 as int, 0) == spec_norm_down(x as int, k as int),
        decreases 110 - k,
    {
        x = x / 2;
        k = k + 1;
    }
    proof {
        if x1 >= 2 * scale128 && k == 0 {
            // the loop exited, so x < 2 * scale128, yet x == x1
            assert(false);
        }
        assert(spec_norm_down(x1 as int, 0) == (x as int, k as int));
    }
    let ghost kd: i64 = k;
    if x >= 2 * scale128 {
        x = 2 * scale128 - 1;
    }
    let ghost xd: u128 = x;
    while x < scale128 && k > -30
        invariant
            scale128 == SCALE as u128,
            1 <= x < 2 * scale128,
            -30 <= k <= 110,
            k == 0 ==> x == x1,
            x1 >= scale128 ==> x >= scale128,
            x1 >= scale128 ==> k >= 0,
            x1 >= 2 * scale128 ==> k >= 1,
            x1 < scale128 ==> k <= 0,
            x1 == scale128 ==> (k == 0 && x == scale128),
            spec_norm_up(xd as int, kd as int) == spec_norm_up(x as int, k as int),
        decreases k + 30,
    {
        x = 2 * x;
        k = k - 1;
    }
    proof {
        if x1 < scale128 && k == 0 {
            // the loop exited with k == 0, so x >= scale128, yet x == x1
            assert(false);
        }
        assert(spec_norm_up(xd as int, kd as int) == (x as int, k as int));
    }
    if x < scale128 {
        x = scale128;
    }
    let mut m: u64 = x as u64;
    let ghost m0: u64 = m;
    let mut frac_num: u64 = 0;
    let mut round: u64 = 0;
    proof {
        lemma2_to64();
    }
    while round < 20
        invariant
            SCALE <= m < 2 * SCALE,
            round <= 20,
            frac_num + 1 <= pow2(round as nat),
            x1 == SCALE as u128 ==> (m == SCALE && frac_num == 0),
            spec_frac_rounds(m0 as int, 0, 20)
                == spec_frac_rounds(m as int, frac_num as int, 20 - round),
        decreases 20 - round,
    {
        assert(m * m < 2_000_000u64 * 2_000_000u64) by (nonlinear_arith)
            requires m < 2_000_000u64;
        let m2: u64 = m * m / SCALE;
        assert(SCALE <= m2 < 4 * SCALE) by {
            assert(m * m >= SCALE * SCALE) by (nonlinear_arith)
                requires m >= SCALE;
            lemma_div_is_ordered((SCALE * SCALE) as int, (m * m) as int, SCALE as int);
            lemma_div_multiples_vanish(SCALE as int, SCALE as int);
            assert(m * m < (4 * SCALE) * SCALE) by (nonlinear_arith)
                requires m < 2 * SCALE;
            lemma_div_is_ordered((m * m) as int, ((4 * SCALE) * SCALE) as int, SCALE as int);
            lemma_div_multiples_vanish((4 * SCALE) as int, SCALE as int);
        };
        assert(x1 == SCALE as u128 ==> m2 == SCALE) by {
            if x1 == SCALE as u128 {
                lemma_div_multiples_vanish(SCALE as int, SCALE as int);
            }
        };
        proof {
            lemma_pow2_adds(round as nat, 1);
            lemma2_to64();
            assert(pow2((round + 1) as nat) == 2 * pow2(round as nat));
            assert(pow2(round as nat) <= pow2(20)) by {
                if round < 20 {
                    vstd::arithmetic::power2::lemma_pow2_strictly_increases(round as nat, 20);
                }
            };
        }
        if m2 >= 2 * SCALE {
            m = m2 / 2;
            frac_num = 2 * frac_num + 1;
        } else {
            m = m2;
            frac_num = 2 * frac_num;
        }
        round = round + 1;
    }
    proof {
        assert(spec_frac_rounds(m0 as int, 0, 20) == (m as int, frac_num as int));
    }
    assert(frac_num <= 1_048_575) by {
        lemma2_to64();
    };
    assert(frac_num * SCALE <= 1_048_575u64 * SCALE) by (nonlinear_arith)
        requires frac_num <= 1_048_575u64;
    let frac_scaled: u64 = frac_num * SCALE / 1_048_576;
    assert(frac_scaled <= 999_999) by {
        lemma_div_is_ordered((frac_num * SCALE) as int, 1_048_575_000_000int, 1_048_576int);
        assert(1_048_575_000_000int / 1_048_576int == 999_999);
    };
    let log2_scaled: i64 = k * (SCALE as i64) + (frac_scaled as i64);
    assert(-30_000_000 <= log2_scaled <= 111_000_000) by (nonlinear_arith)
        requires -30 <= k <= 110, 0 <= frac_scaled <= 1_000_000, log2_scaled == k * 1_000_000i64 + frac_scaled;
    proof {
        if x1 >= scale128 {
            assert(log2_scaled >= 0) by (nonlinear_arith)
                requires k >= 0, frac_scaled >= 0, log2_scaled == k * 1_000_000i64 + frac_scaled;
        }
        if x1 >= 2 * scale128 {
            assert(log2_scaled >= 1_000_000) by (nonlinear_arith)
                requires k >= 1, frac_scaled >= 0, log2_scaled == k * 1_000_000i64 + frac_scaled;
        }
        if x1 < scale128 {
            assert(log2_scaled <= -1) by (nonlinear_arith)
                requires k <= -1, frac_scaled <= 999_999, log2_scaled == k * 1_000_000i64 + frac_scaled;
        }
    }
    let log2_mag: i64 = if log2_scaled >= 0 {
        log2_scaled
    } else {
        -log2_scaled
    };
    assert(0 <= log2_mag <= 111_000_000);
    assert(log2_mag * (LN_2_SCALED as i64) <= 111_000_000i64 * 693_147i64) by (nonlinear_arith)
        requires 0 <= log2_mag <= 111_000_000, LN_2_SCALED == 693_147u64;
    assert(log2_mag * (LN_2_SCALED as i64) >= 0) by (nonlinear_arith)
        requires log2_mag >= 0, LN_2_SCALED == 693_147u64;
    let ln_mag: i64 = log2_mag * (LN_2_SCALED as i64) / (SCALE as i64);
    assert(0 <= ln_mag <= 80_000_000) by {
        lemma_div_is_ordered(
            (log2_mag * (LN_2_SCALED as i64)) as int,
            111_000_000i64 * 693_147i64,
            SCALE as int,
        );
    };
    proof {
        if x1 >= 2 * scale128 {
            assert(log2_mag * (LN_2_SCALED as i64) >= 693_147_000_000i64) by (nonlinear_arith)
                requires log2_mag >= 1_000_000, LN_2_SCALED == 693_147u64;
            lemma_div_is_ordered(
                693_147_000_000int,
                (log2_mag * (LN_2_SCALED as i64)) as int,
                SCALE as int,
            );
            assert(ln_mag >= 693_147);
        }
        if x1 == scale128 {
            assert(log2_scaled == 0);
            assert(log2_mag == 0);
            assert(ln_mag == 0) by {
                lemma_div_multiples_vanish(0, SCALE as int);
                assert(log2_mag * (LN_2_SCALED as i64) == 0) by (nonlinear_arith)
                    requires log2_mag == 0i64;
            };
        }
    }
    let half_mag: i64 = ln_mag / 2;
    if log2_scaled >= 0 {
        half_mag
    } else {
        -half_mag
    }
}

/// The total weight of a sequence of example weights.
pub open spec fn sum_weights(ws: Seq<u64>) -> int
    decreases ws.len(),
{
    if ws.len() == 0 {
        0
    } else {
        sum_weights(ws.drop_last()) + ws.last()
    }
}

/// The total squared weight of a sequence of example weights.
pub open spec fn sum_weight_squares(ws: Seq<u64>) -> int
    decreases ws.len(),
{
    if ws.len() == 0 {
        0
    } else {
        sum_weight_squares(ws.drop_last()) + ws.last() * ws.last()
    }
}

/// The effective sample size of a weighted sample, fixed point:
/// `(sum w)^2 / (n * sum w^2)`, or `0` when the sample carries no weight.
pub open spec fn ess_spec(ws: Seq<u64>) -> int {
    if ws.len() == 0 || sum_weights(ws) <= 0 {
        0
    } else {
        sum_weights(ws) * sum_weights(ws) * SCALE / (ws.len() * sum_weight_squares(ws))
    }
}

pub proof fn lemma_sum_weights_nonneg(ws: Seq<u64>)
    ensures
        sum_weights(ws) >= 0,
        sum_weight_squares(ws) >= 0,
    decreases ws.len(),
{
    if ws.len() > 0 {
        lemma_sum_weights_nonneg(ws.drop_last());
        let w = ws.last() as int;
        assert(w * w >= 0) by (nonlinear_arith);
    }
}

/// `sum (2 * w_i * c) <= sum (w_i^2) + n * c^2`: elementwise AM-GM, summed.
proof fn lemma_cross_term(ws: Seq<u64>, c: int)
    requires
        c >= 0,
    ensures
        2 * sum_weights(ws) * c <= sum_weight_squares(ws) + ws.len() * c * c,
    decreases ws.len(),
{
    if ws.len() == 0 {
        assert(2 * 0 * c == 0 && 0int * c * c == 0) by (nonlinear_arith);
    } else {
        let prefix = ws.drop_last();
        let w = ws.last() as int;
        let s = sum_weights(prefix);
        let q = sum_weight_squares(prefix);
        let n = prefix.len() as int;
        lemma_cross_term(prefix, c);
        assert(2 * w * c <= w * w + c * c) by (nonlinear_arith);
        assert(2 * (s + w) * c <= (q + w * w) + (n + 1) * c * c) by (nonlinear_arith)
            requires
                2 * s * c <= q + n * c * c,
                2 * w * c <= w * w + c * c;
    }
}

/// Cauchy-Schwarz for a weight sequence: `(sum w)^2 <= n * sum w^2`.
pub proof fn lemma_cauchy_schwarz(ws: Seq<u64>)
    ensures
        sum_weights(ws) * sum_weights(ws) <= ws.len() * sum_weight_squares(ws),
    decreases ws.len(),
{
    if ws.len() == 0 {
        assert(0int * 0 <= 0int * sum_weight_squares(ws)) by (nonlinear_arith);
    } else {
        let prefix = ws.drop_last();
        let w = ws.last() as int;
        let s = sum_weights(prefix);
        let q = sum_weight_squares(prefix);
        let n = prefix.len() as int;
        lemma_cauchy_schwarz(prefix);
        lemma_cross_term(prefix, w);
        assert((s + w) * (s + w) <= (n + 1) * (q + w * w)) by (nonlinear_arith)
            requires
                s * s <= n * q,
                2 * s * w <= q + n * w * w;
    }
}

/// `sum w^2 <= (sum w)^2` for non-negative weights.
proof fn lemma_squares_le_square_of_sum(ws: Seq<u64>)
    ensures
        sum_weight_squares(ws) <= sum_weights(ws) * sum_weights(ws),
    decreases ws.len(),
{
    if ws.len() > 0 {
        let prefix = ws.drop_last();
        let w = ws.last() as int;
        let s = sum_weights(prefix);
        let q = sum_weight_squares(prefix);
        lemma_squares_le_square_of_sum(prefix);
        lemma_sum_weights_nonneg(prefix);
        assert(q + w * w <= (s + w) * (s + w)) by (nonlinear_arith)
            requires
                q <= s * s,
                s >= 0,
                w >= 0;
    }
}

/// Bounds of the effective sample size: a sample of at most `SCALE` examples
/// that carries any weight at all has an ESS strictly between zero and one.
pub proof fn lemma_ess_bounds(ws: Seq<u64>)
    requires
        1 <= ws.len() <= SCALE,
        sum_weights(ws) > 0,
    ensures
        0 < ess_spec(ws) <= SCALE,
{
    let s = sum_weights(ws);
    let q = sum_weight_squares(ws);
    let n = ws.len() as int;
    lemma_sum_weights_nonneg(ws);
    lemma_cauchy_schwarz(ws);
    lemma_squares_le_square_of_sum(ws);
    assert(q > 0) by (nonlinear_arith)
        requires
            s * s <= n * q,
            s > 0,
            q >= 0,
            n >= 1;
    assert(n * q > 0) by (nonlinear_arith)
        requires n >= 1, q > 0;
    // lower bound: n * q <= q * SCALE <= s * s * SCALE
    assert(n * q <= s * s * (SCALE as int)) by (nonlinear_arith)
        requires
            n <= SCALE,
            q <= s * s,
            q >= 0,
            s * s >= 0;
    assert(s * s * (SCALE as int) / (n * q) >= 1) by {
        lemma_div_is_ordered(n * q, s * s * (SCALE as int), n * q);
        lemma_div_multiples_vanish(1, n * q);
    };
    // upper bound: s * s * SCALE <= (n * q) * SCALE
    assert(s * s * (SCALE as int) <= (n * q) * (SCALE as int)) by (nonlinear_arith)
        requires s * s <= n * q;
    assert(s * s * (SCALE as int) / (n * q) <= SCALE) by {
        lemma_div_is_ordered(s * s * (SCALE as int), (n * q) * (SCALE as int), n * q);
        lemma_div_multiples_vanish(SCALE as int, n * q);
    };
}

} // verus!
