//! Fixed-point parameter mapping: the base-two exponential behind the
//! decibel and cutoff maps, the tangent-based bilinear coefficient
//! identity `g = tan(theta) / (1 + tan(theta))`, and the exponential
//! map from a normalized control to a cutoff in angular form.

use vstd::prelude::*;
use vstd::arithmetic::div_mod::{
    lemma_div_is_ordered, lemma_div_is_ordered_by_denominator, lemma_div_multiples_vanish,
    lemma_div_nonincreasing, lemma_div_pos_is_pos, lemma_fundamental_div_mod,
    lemma_fundamental_div_mod_converse, lemma_mod_bound,
};
use vstd::arithmetic::mul::{lemma_mul_nonnegative, lemma_mul_upper_bound};
use crate::fixed::{fmul, fx_mul, lemma_fmul_nonneg_bound, mul_div, SCALE};

verus! {

/// Half pi in Q24.
pub const PI2_Q24: i64 = 26353589;

/// Quarter pi in Q24.
pub const PI4_Q24: i64 = 13176794;

/// Pi in Q24.
pub const PI_Q24: i64 = 52707178;

/// Natural logarithm of two in Q24.
pub const LN2_Q24: i64 = 11629079;

/// `log2(10) / 20` in Q24: scales decibels to a base-two exponent.
pub const DB_TO_LOG2_Q24: i64 = 2786635;

/// `log2(21000 / 13)` in Q24: the exponent span of the cutoff map.
pub const CUTOFF_SPAN_Q24: i64 = 178805897;

/// The lower end of the cutoff map, 13 Hz, in Q24.
pub const MIN_FREQ_Q24: i64 = 218103808;

/// Upper bound of the exponential polynomial on one octave.
pub const EXP2_POLY_MAX: i64 = 52000000;

/// Upper bound of `exp2_fx` for exponents up to eleven octaves.
pub const EXP2_11_MAX: i64 = 106496000000;

/// Upper bound of the tangent polynomial on `[0, pi/4]`.
pub const TAN_POLY_MAX: i64 = 16800000;

/// Upper bound of the angular cutoff that `map_cutoff` can produce.
pub const THETA_MAX: i64 = 1073741824;

/// Largest decibel magnitude the gain maps accept.
pub const DB_MAX: i64 = 503316480;

/// Largest log-domain gain magnitude the gain maps can produce.
pub const LOG_GAIN_MAX: i64 = 100663296;

/// Two to the power `k`.
pub open spec fn pow2i(k: nat) -> int
    decreases k,
{
    if k == 0 {
        1
    } else {
        2 * pow2i((k - 1) as nat)
    }
}

pub proof fn lemma_pow2i_pos(k: nat)
    ensures
        pow2i(k) >= 1,
    decreases k,
{
    if k > 0 {
        lemma_pow2i_pos((k - 1) as nat);
    }
}

pub proof fn lemma_pow2i_increases(a: nat, b: nat)
    requires
        a <= b,
    ensures
        pow2i(a) <= pow2i(b),
    decreases b,
{
    if a < b {
        lemma_pow2i_increases(a, (b - 1) as nat);
        lemma_pow2i_pos((b - 1) as nat);
    }
}

pub proof fn lemma_pow2i_value_40()
    ensures
        pow2i(40) == 0x100_0000_0000,
{
    reveal_with_fuel(pow2i, 41);
}

/// Two to the power `k`, executable.
pub fn pow2_i64(k: u32) -> (r: i64)
    requires
        k <= 40,
    ensures
        r == pow2i(k as nat),
        1 <= r,
{
    let mut acc: i64 = 1;
    let mut i: u32 = 0;
    while i < k
        invariant
            i <= k <= 40,
            acc == pow2i(i as nat),
            1 <= acc <= 0x100_0000_0000,
        decreases k - i,
    {
        proof {
            lemma_pow2i_value_40();
            lemma_pow2i_increases((i + 1) as nat, 40);
        }
        acc = acc * 2;
        i = i + 1;
    }
    acc
}

/// One Horner stage of the exponential series: `1 + u * prev / k`.
pub open spec fn exp2_stage(u: int, prev: int, k: int) -> int {
    SCALE as int + fmul(u, prev) / k
}

/// The exponential polynomial: `2^(f / SCALE)` for `f` in `[0, SCALE)`,
/// computed as the series for `e^(f * ln 2)` in Horner form.
pub open spec fn spec_exp2_poly(f: int) -> int {
    let u = fmul(f, LN2_Q24 as int);
    let a7 = exp2_stage(u, SCALE as int, 7);
    let a6 = exp2_stage(u, a7, 6);
    let a5 = exp2_stage(u, a6, 5);
    let a4 = exp2_stage(u, a5, 4);
    let a3 = exp2_stage(u, a4, 3);
    let a2 = exp2_stage(u, a3, 2);
    SCALE as int + fmul(u, a2)
}

/// One Horner stage, executable.
fn exp2_stage_exec(u: i64, prev: i64, k: i64) -> (r: i64)
    requires
        0 <= u <= 11629080,
        0 <= prev <= 3 * SCALE,
        2 <= k <= 7,
    ensures
        r == exp2_stage(u as int, prev as int, k as int),
        SCALE <= r <= 2 * SCALE + SCALE / 2,
{
    proof {
        lemma_fmul_nonneg_bound(u as int, prev as int, 11629080, 3 * SCALE as int);
        lemma_div_pos_is_pos(fmul(u as int, prev as int), k as int);
        lemma_div_nonincreasing(fmul(u as int, prev as int), k as int);
        lemma_div_is_ordered_by_denominator(fmul(u as int, prev as int), 2, k as int);
    }
    let p = fx_mul(u, prev);
    let q = crate::fixed::div_tz(p, k);
    proof {
        assert(q == fmul(u as int, prev as int) / (k as int));
    }
    SCALE + q
}

/// The exponential polynomial, executable: exactly `spec_exp2_poly`.
pub fn exp2_poly(f: i64) -> (r: i64)
    requires
        0 <= f < SCALE,
    ensures
        r == spec_exp2_poly(f as int),
        SCALE <= r <= EXP2_POLY_MAX,
        f == 0 ==> r == SCALE,
{
    proof {
        lemma_fmul_nonneg_bound(f as int, LN2_Q24 as int, SCALE as int - 1, LN2_Q24 as int);
    }
    let u = fx_mul(f, LN2_Q24);
    let a7 = exp2_stage_exec(u, SCALE, 7);
    let a6 = exp2_stage_exec(u, a7, 6);
    let a5 = exp2_stage_exec(u, a6, 5);
    let a4 = exp2_stage_exec(u, a5, 4);
    let a3 = exp2_stage_exec(u, a4, 3);
    let a2 = exp2_stage_exec(u, a3, 2);
    proof {
        lemma_fmul_nonneg_bound(u as int, a2 as int, 11629080, 2 * SCALE as int + SCALE as int / 2);
    }
    let r = SCALE + fx_mul(u, a2);
    r
}

/// `2^(x / SCALE)` in fixed point: split into octave and fraction, apply
/// the polynomial to the fraction, and shift by the octave count.
pub open spec fn spec_exp2(x: int) -> int {
    let n = x / (SCALE as int);
    let f = x % (SCALE as int);
    let p = spec_exp2_poly(f);
    if n >= 0 {
        p * pow2i(n as nat)
    } else {
        p / pow2i((-n) as nat)
    }
}

/// Base-two exponential in fixed point.
pub fn exp2_fx(x: i64) -> (r: i64)
    requires
        -32 * SCALE <= x <= 32 * SCALE,
    ensures
        r == spec_exp2(x as int),
        0 <= r,
        x == 0 ==> r == SCALE,
        x >= 0 ==> r >= SCALE,
        x <= 0 ==> r <= EXP2_POLY_MAX,
        x <= 11 * SCALE ==> r <= EXP2_11_MAX,
        x >= -6 * SCALE ==> r >= 262144,
{
    if x >= 0 {
        let xu = x as u64;
        let q = xu / 16777216u64;
        let rem = xu % 16777216u64;
        let f = rem as i64;
        let p = exp2_poly(f);
        let n = q as u32;
        let sh = pow2_i64(n);
        proof {
            assert(n <= 32);
            lemma_pow2i_increases(n as nat, 32);
            reveal_with_fuel(pow2i, 34);
            assert(pow2i(32) == 0x1_0000_0000);
            lemma_mul_upper_bound(p as int, EXP2_POLY_MAX as int, sh as int, 0x1_0000_0000);
            lemma_mul_nonnegative(p as int, sh as int);
            assert(p as int * 1 <= p as int * sh as int) by (nonlinear_arith)
                requires 1 <= sh && 0 <= p,
            ;
            if x <= 11 * SCALE {
                assert(n <= 11);
                lemma_pow2i_increases(n as nat, 11);
                reveal_with_fuel(pow2i, 13);
                assert(pow2i(11) == 2048);
                lemma_mul_upper_bound(p as int, EXP2_POLY_MAX as int, sh as int, 2048);
            }
            if x == 0 {
                assert(q == 0 && rem == 0);
            }
        }
        p * sh
    } else {
        let m = (-x) as u64;
        let q = m / 16777216u64;
        let rem = m % 16777216u64;
        proof {
            lemma_fundamental_div_mod(m as int, SCALE as int);
            if rem == 0 {
                assert(x as int == (-(q as int)) * (SCALE as int) + 0) by (nonlinear_arith)
                    requires m == q * 16777216 + rem && rem == 0 && x == -(m as int),
                ;
                lemma_fundamental_div_mod_converse(x as int, SCALE as int, -(q as int), 0);
            } else {
                assert(x as int == (-(q as int) - 1) * (SCALE as int) + (SCALE as int - rem))
                    by (nonlinear_arith)
                    requires m == q * 16777216 + rem && SCALE == 16777216 && x == -(m as int),
                ;
                lemma_fundamental_div_mod_converse(
                    x as int,
                    SCALE as int,
                    -(q as int) - 1,
                    SCALE as int - rem,
                );
            }
        }
        let nn: u32 = if rem == 0 {
            q as u32
        } else {
            (q as u32) + 1
        };
        let f: i64 = if rem == 0 {
            0
        } else {
            SCALE - (rem as i64)
        };
        let p = exp2_poly(f);
        let sh = pow2_i64(nn);
        proof {
            lemma_div_nonincreasing(p as int, sh as int);
            lemma_div_pos_is_pos(p as int, sh as int);
            if x >= -6 * SCALE {
                assert(nn <= 6);
                lemma_pow2i_increases(nn as nat, 6);
                reveal_with_fuel(pow2i, 8);
                assert(pow2i(6) == 64);
                lemma_div_is_ordered(SCALE as int, p as int, sh as int);
                lemma_div_is_ordered_by_denominator(SCALE as int, sh as int, 64);
            }
        }
        let ru = (p as u64) / (sh as u64);
        ru as i64
    }
}

/// One Horner stage grows with the exponent fraction and with the
/// previous stage, and never drops below one.
proof fn lemma_stage_monotone(u1: int, p1: int, u2: int, p2: int, k: int)
    requires
        0 <= u1 <= u2,
        0 <= p1 <= p2,
        1 <= k,
    ensures
        exp2_stage(u1, p1, k) <= exp2_stage(u2, p2, k),
        SCALE as int <= exp2_stage(u1, p1, k),
{
    crate::fixed::lemma_fmul_monotone(u1, p1, u2, p2);
    crate::fixed::lemma_fmul_monotone(0, 0, u1, p1);
    lemma_div_is_ordered(fmul(u1, p1), fmul(u2, p2), k);
    lemma_div_pos_is_pos(fmul(u1, p1), k);
}

/// The exponential polynomial is monotone on one octave and stays
/// within `[1, 2)` in fixed point.
proof fn lemma_exp2_poly_monotone(f1: int, f2: int)
    requires
        0 <= f1 <= f2 < SCALE as int,
    ensures
        spec_exp2_poly(f1) <= spec_exp2_poly(f2),
        SCALE as int <= spec_exp2_poly(f1),
        spec_exp2_poly(f2) < 2 * SCALE as int,
{
    crate::fixed::lemma_fmul_monotone(f1, LN2_Q24 as int, f2, LN2_Q24 as int);
    crate::fixed::lemma_fmul_monotone(f2, LN2_Q24 as int, SCALE as int - 1, LN2_Q24 as int);
    crate::fixed::lemma_fmul_monotone(0, 0, f1, LN2_Q24 as int);
    let u1 = fmul(f1, LN2_Q24 as int);
    let u2 = fmul(f2, LN2_Q24 as int);
    assert(fmul(SCALE as int - 1, LN2_Q24 as int) == 11629078);
    // Chain both arguments and the worst-case bound through the stages.
    let cap = 11629078;
    lemma_stage_monotone(u1, SCALE as int, u2, SCALE as int, 7);
    lemma_stage_monotone(u2, SCALE as int, cap, SCALE as int, 7);
    let b7 = exp2_stage(cap, SCALE as int, 7);
    assert(b7 == 18438512);
    let a7_1 = exp2_stage(u1, SCALE as int, 7);
    let a7_2 = exp2_stage(u2, SCALE as int, 7);
    lemma_stage_monotone(u1, a7_1, u2, a7_2, 6);
    lemma_stage_monotone(u2, a7_2, cap, b7, 6);
    let b6 = exp2_stage(cap, b7, 6);
    assert(b6 == 18907316);
    let a6_1 = exp2_stage(u1, a7_1, 6);
    let a6_2 = exp2_stage(u2, a7_2, 6);
    lemma_stage_monotone(u1, a6_1, u2, a6_2, 5);
    lemma_stage_monotone(u2, a6_2, cap, b6, 5);
    let b5 = exp2_stage(cap, b6, 5);
    assert(b5 == 19398326);
    let a5_1 = exp2_stage(u1, a6_1, 5);
    let a5_2 = exp2_stage(u2, a6_2, 5);
    lemma_stage_monotone(u1, a5_1, u2, a5_2, 4);
    lemma_stage_monotone(u2, a5_2, cap, b5, 4);
    let b4 = exp2_stage(cap, b5, 4);
    assert(b4 == 20138689);
    let a4_1 = exp2_stage(u1, a5_1, 4);
    let a4_2 = exp2_stage(u2, a5_2, 4);
    lemma_stage_monotone(u1, a4_1, u2, a4_2, 3);
    lemma_stage_monotone(u2, a4_2, cap, b4, 3);
    let b3 = exp2_stage(cap, b4, 3);
    assert(b3 == 21430240);
    let a3_1 = exp2_stage(u1, a4_1, 3);
    let a3_2 = exp2_stage(u2, a4_2, 3);
    lemma_stage_monotone(u1, a3_1, u2, a3_2, 2);
    lemma_stage_monotone(u2, a3_2, cap, b3, 2);
    let b2 = exp2_stage(cap, b3, 2);
    assert(b2 == 24204369);
    let a2_1 = exp2_stage(u1, a3_1, 2);
    let a2_2 = exp2_stage(u2, a3_2, 2);
    crate::fixed::lemma_fmul_monotone(u1, a2_1, u2, a2_2);
    crate::fixed::lemma_fmul_monotone(u2, a2_2, cap, b2);
    crate::fixed::lemma_fmul_monotone(0, 0, u1, a2_1);
    assert(fmul(cap, b2) == 16777187);
}

/// The base-two exponential is monotone in its fixed-point exponent.
pub proof fn lemma_exp2_monotone(x1: int, x2: int)
    requires
        x1 <= x2,
    ensures
        spec_exp2(x1) <= spec_exp2(x2),
{
    let s = SCALE as int;
    let n1 = x1 / s;
    let n2 = x2 / s;
    let f1 = x1 % s;
    let f2 = x2 % s;
    lemma_mod_bound(x1, s);
    lemma_mod_bound(x2, s);
    lemma_div_is_ordered(x1, x2, s);
    lemma_exp2_poly_monotone(f1, f1);
    lemma_exp2_poly_monotone(f2, f2);
    let p1 = spec_exp2_poly(f1);
    let p2 = spec_exp2_poly(f2);
    if n1 == n2 {
        lemma_fundamental_div_mod(x1, s);
        lemma_fundamental_div_mod(x2, s);
        lemma_exp2_poly_monotone(f1, f2);
        if n1 >= 0 {
            let sh = pow2i(n1 as nat);
            lemma_pow2i_pos(n1 as nat);
            vstd::arithmetic::mul::lemma_mul_inequality(p1, p2, sh);
        } else {
            let sh = pow2i((-n1) as nat);
            lemma_pow2i_pos((-n1) as nat);
            lemma_div_is_ordered(p1, p2, sh);
        }
    } else {
        if n1 >= 0 {
            let sh1 = pow2i(n1 as nat);
            let sh2 = pow2i(n2 as nat);
            lemma_pow2i_pos(n1 as nat);
            lemma_pow2i_increases((n1 + 1) as nat, n2 as nat);
            assert(pow2i((n1 + 1) as nat) == 2 * pow2i(n1 as nat));
            assert(p1 * sh1 <= p2 * sh2) by (nonlinear_arith)
                requires 0 <= p1 < 2 * 16777216 && 16777216 <= p2 && 0 < sh1 && 2 * sh1 <= sh2,
            ;
        } else if n2 >= 0 {
            let m1 = (-n1) as nat;
            let sh1 = pow2i(m1);
            let sh2 = pow2i(n2 as nat);
            lemma_pow2i_pos(m1);
            lemma_pow2i_pos(n2 as nat);
            lemma_pow2i_increases(1, m1);
            assert(pow2i(1) == 2) by {
                reveal_with_fuel(pow2i, 3);
            }
            lemma_div_is_ordered_by_denominator(p1, 2, sh1);
            lemma_div_is_ordered(p1, 2 * s - 1, 2);
            assert(p2 * 1 <= p2 * sh2) by (nonlinear_arith)
                requires 0 <= p2 && 1 <= sh2,
            ;
        } else {
            let m1 = (-n1) as nat;
            let m2 = (-n2) as nat;
            let sh1 = pow2i(m1);
            let sh2 = pow2i(m2);
            lemma_pow2i_pos(m1);
            lemma_pow2i_pos(m2);
            lemma_pow2i_increases((m2 + 1) as nat, m1);
            assert(pow2i((m2 + 1) as nat) == 2 * pow2i(m2));
            lemma_div_is_ordered_by_denominator(p1, 2 * sh2, sh1);
            lemma_div_is_ordered(p1, 2 * s - 1, 2 * sh2);
            vstd::arithmetic::div_mod::lemma_div_multiples_vanish_quotient(2, s, sh2);
            lemma_div_is_ordered(2 * s - 1, 2 * s, 2 * sh2);
            lemma_div_is_ordered(s, p2, sh2);
        }
    }
}

/// The odd tangent series on `[0, pi/4]` in Horner form.
pub open spec fn spec_tan_poly(x: int) -> int {
    let x2 = fmul(x, x);
    let h1 = 905437 + fmul(x2, 366909);
    let h2 = 2236962 + fmul(x2, h1);
    let h3 = 5592405 + fmul(x2, h2);
    fmul(x, SCALE as int + fmul(x2, h3))
}

/// The tangent series, executable: exactly `spec_tan_poly`.
pub fn tan_poly(x: i64) -> (r: i64)
    requires
        0 <= x <= PI4_Q24,
    ensures
        r == spec_tan_poly(x as int),
        0 <= r <= TAN_POLY_MAX,
        x == 0 ==> r == 0,
{
    proof {
        lemma_fmul_nonneg_bound(x as int, x as int, PI4_Q24 as int, PI4_Q24 as int);
    }
    let x2 = fx_mul(x, x);
    proof {
        lemma_fmul_nonneg_bound(x2 as int, 366909, 10349100, 366909);
    }
    let h1 = 905437 + fx_mul(x2, 366909);
    proof {
        lemma_fmul_nonneg_bound(x2 as int, h1 as int, 10349100, 1131800);
    }
    let h2 = 2236962 + fx_mul(x2, h1);
    proof {
        lemma_fmul_nonneg_bound(x2 as int, h2 as int, 10349100, 2935200);
    }
    let h3 = 5592405 + fx_mul(x2, h2);
    proof {
        lemma_fmul_nonneg_bound(x2 as int, h3 as int, 10349100, 7403100);
    }
    let inner = SCALE + fx_mul(x2, h3);
    proof {
        lemma_fmul_nonneg_bound(x as int, inner as int, PI4_Q24 as int, 21344000);
    }
    fx_mul(x, inner)
}

/// The bilinear-transform coefficient identity: `tan(th) / (1 + tan(th))`
/// on the folded angle, using `g(th) = 1 - g(pi/2 - th)` above `pi/4`.
/// Angles at or past `pi/2` saturate just below it, and the result is
/// capped just below one, so the coefficient is always in `[0, 1)`.
pub open spec fn spec_g_from_theta(theta: int) -> int {
    let th = if theta >= PI2_Q24 as int {
        PI2_Q24 as int - 1
    } else {
        theta
    };
    if th <= PI4_Q24 as int {
        let t = spec_tan_poly(th);
        (t * SCALE as int) / (SCALE as int + t)
    } else {
        let t = spec_tan_poly(PI2_Q24 as int - th);
        let gp = (t * SCALE as int) / (SCALE as int + t);
        if gp == 0 {
            SCALE as int - 1
        } else {
            SCALE as int - gp
        }
    }
}

/// Quotient `t * SCALE / (SCALE + t)`, shown to be in `[0, SCALE)`.
fn g_ratio(t: i64) -> (r: i64)
    requires
        0 <= t <= TAN_POLY_MAX,
    ensures
        r == (t as int * SCALE as int) / (SCALE as int + t as int),
        0 <= r < SCALE,
{
    proof {
        let ti = t as int;
        let s = SCALE as int;
        lemma_g_ratio_range(ti);
        assert(ti * s <= (s + ti) * 0x7fff_ffff_ffff_ffff) by (nonlinear_arith)
            requires 0 <= ti <= 16800000 && s == 16777216,
        ;
    }
    mul_div(t, SCALE, SCALE + t)
}

/// The filter coefficient for a half-angular cutoff `theta` (Q24
/// radians): exactly `spec_g_from_theta`, always inside `[0, 1)`.
pub fn g_from_theta(theta: i64) -> (r: i64)
    requires
        0 <= theta <= THETA_MAX,
    ensures
        r == spec_g_from_theta(theta as int),
        0 <= r < SCALE,
{
    let th = if theta >= PI2_Q24 {
        PI2_Q24 - 1
    } else {
        theta
    };
    if th <= PI4_Q24 {
        let t = tan_poly(th);
        g_ratio(t)
    } else {
        let t = tan_poly(PI2_Q24 - th);
        let gp = g_ratio(t);
        if gp == 0 {
            SCALE - 1
        } else {
            SCALE - gp
        }
    }
}

/// Coefficient range law: for every nonnegative angular cutoff — in
/// particular across the whole mapped range — the derived coefficient
/// stays within `[0, 1)` in fixed point.
pub proof fn lemma_coeff_range(theta: int)
    requires
        0 <= theta,
    ensures
        0 <= spec_g_from_theta(theta) < SCALE as int,
{
    let th = if theta >= PI2_Q24 as int {
        PI2_Q24 as int - 1
    } else {
        theta
    };
    if th <= PI4_Q24 as int {
        let t = spec_tan_poly(th);
        lemma_tan_poly_range(th);
        lemma_g_ratio_range(t);
    } else {
        let t = spec_tan_poly(PI2_Q24 as int - th);
        lemma_tan_poly_range(PI2_Q24 as int - th);
        lemma_g_ratio_range(t);
    }
}

/// The tangent series maps `[0, pi/4]` into `[0, TAN_POLY_MAX]`.
proof fn lemma_tan_poly_range(x: int)
    requires
        0 <= x <= PI4_Q24 as int,
    ensures
        0 <= spec_tan_poly(x) <= TAN_POLY_MAX as int,
{
    lemma_fmul_nonneg_bound(x, x, PI4_Q24 as int, PI4_Q24 as int);
    let x2 = fmul(x, x);
    lemma_fmul_nonneg_bound(x2, 366909, 10349100, 366909);
    let h1 = 905437 + fmul(x2, 366909);
    lemma_fmul_nonneg_bound(x2, h1, 10349100, 1131800);
    let h2 = 2236962 + fmul(x2, h1);
    lemma_fmul_nonneg_bound(x2, h2, 10349100, 2935200);
    let h3 = 5592405 + fmul(x2, h2);
    lemma_fmul_nonneg_bound(x2, h3, 10349100, 7403100);
    let inner = SCALE as int + fmul(x2, h3);
    lemma_fmul_nonneg_bound(x, inner, PI4_Q24 as int, 21344000);
}

/// The ratio `t * SCALE / (SCALE + t)` is in `[0, SCALE)` for
/// `t` in the tangent range.
proof fn lemma_g_ratio_range(t: int)
    requires
        0 <= t <= TAN_POLY_MAX as int,
    ensures
        0 <= (t * SCALE as int) / (SCALE as int + t) < SCALE as int,
{
    let s = SCALE as int;
    lemma_mul_nonnegative(t, s);
    assert(t * s <= (s - 1) * (s + t)) by (nonlinear_arith)
        requires 0 <= t <= 16800000 && s == 16777216,
    ;
    lemma_div_is_ordered(t * s, (s - 1) * (s + t), s + t);
    assert((s - 1) * (s + t) == (s + t) * (s - 1)) by (nonlinear_arith);
    lemma_div_multiples_vanish(s - 1, s + t);
    lemma_div_pos_is_pos(t * s, s + t);
}

/// The exponential cutoff map: a normalized control in `[0, 1]` to
/// `13 * (21000 / 13)^v` hertz, then to the half-angular form
/// `pi * f / sample_rate`, all in Q24.
pub open spec fn spec_map_cutoff(v: int, sr: int) -> int {
    let e = spec_exp2(fmul(v, CUTOFF_SPAN_Q24 as int));
    let f = fmul(MIN_FREQ_Q24 as int, e);
    (PI_Q24 as int * f) / (sr * SCALE as int)
}

/// The cutoff map, executable: exactly `spec_map_cutoff`.
pub fn map_cutoff(v: i64, sr: u32) -> (r: i64)
    requires
        0 <= v <= SCALE,
        8000 <= sr <= 1000000,
    ensures
        r == spec_map_cutoff(v as int, sr as int),
        0 <= r <= THETA_MAX,
{
    proof {
        lemma_fmul_nonneg_bound(v as int, CUTOFF_SPAN_Q24 as int, SCALE as int, CUTOFF_SPAN_Q24 as int);
    }
    let lx = fx_mul(v, CUTOFF_SPAN_Q24);
    let e = exp2_fx(lx);
    proof {
        lemma_fmul_nonneg_bound(MIN_FREQ_Q24 as int, e as int, MIN_FREQ_Q24 as int, EXP2_11_MAX as int);
    }
    let f = fx_mul(MIN_FREQ_Q24, e);
    let d = (sr as i64) * SCALE;
    proof {
        let fi = f as int;
        let di = d as int;
        lemma_mul_upper_bound(PI_Q24 as int, PI_Q24 as int, fi, 1385000000000);
        assert(PI_Q24 as int * fi <= di * 0x7fff_ffff_ffff_ffff) by (nonlinear_arith)
            requires
                PI_Q24 as int * fi <= 52707178 * 1385000000000
                    && di >= 8000 * 16777216,
        ;
        lemma_mul_nonnegative(PI_Q24 as int, fi);
        lemma_div_is_ordered(PI_Q24 as int * fi, 52707178int * 1385000000000int, di);
        lemma_div_is_ordered_by_denominator(52707178int * 1385000000000int, 8000int * 16777216int, di);
        lemma_div_pos_is_pos(PI_Q24 as int * fi, di);
    }
    mul_div(PI_Q24, f, d)
}

/// A decibel value (Q24) scaled to a base-two exponent (Q24).
pub open spec fn spec_db_to_log2(db: int) -> int {
    fmul(db, DB_TO_LOG2_Q24 as int)
}

/// Decibels to the log-domain gain the smoother works in.
pub fn db_to_log2(db: i64) -> (r: i64)
    requires
        -DB_MAX <= db <= DB_MAX,
    ensures
        r == spec_db_to_log2(db as int),
        -LOG_GAIN_MAX <= r <= LOG_GAIN_MAX,
        db == 0 ==> r == 0,
{
    proof {
        crate::fixed::lemma_fmul_step(DB_TO_LOG2_Q24 as int, db as int);
        if db >= 0 {
            lemma_fmul_nonneg_bound(db as int, DB_TO_LOG2_Q24 as int, DB_MAX as int, DB_TO_LOG2_Q24 as int);
        } else {
            lemma_fmul_nonneg_bound(
                -db as int,
                DB_TO_LOG2_Q24 as int,
                DB_MAX as int,
                DB_TO_LOG2_Q24 as int,
            );
            lemma_fmul_neg(db as int, DB_TO_LOG2_Q24 as int);
        }
    }
    fx_mul(db, DB_TO_LOG2_Q24)
}

/// Negating one factor negates a fixed-point product.
pub proof fn lemma_fmul_neg(a: int, b: int)
    ensures
        fmul(-a, b) == -fmul(a, b),
{
    assert((-a) * b == -(a * b)) by (nonlinear_arith);
}

/// The decibel map: `10^(db / 20)` as a linear factor, via
/// `2^(db * log2(10) / 20)`.
pub open spec fn spec_db_to_linear(db: int) -> int {
    spec_exp2(spec_db_to_log2(db))
}

/// Decibels (Q24) to a linear gain factor (Q24). Zero decibels map to
/// exactly one.
pub fn db_to_linear(db: i64) -> (r: i64)
    requires
        -DB_MAX <= db <= DB_MAX,
    ensures
        r == spec_db_to_linear(db as int),
        262144 <= r <= EXP2_11_MAX,
        db == 0 ==> r == SCALE,
{
    let lg = db_to_log2(db);
    exp2_fx(lg)
}

} // verus!
