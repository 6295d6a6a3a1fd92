//! Q24 fixed-point arithmetic: the scaled multiplication and the
//! truncating division that the filter core is built on, with their
//! exact integer specifications.

use vstd::prelude::*;
use vstd::arithmetic::div_mod::{
    lemma_div_is_ordered, lemma_div_multiples_vanish, lemma_div_nonincreasing,
    lemma_div_pos_is_pos,
};
use vstd::arithmetic::mul::{lemma_mul_inequality, lemma_mul_nonnegative, lemma_mul_upper_bound};

verus! {

/// One in fixed point: all values are integers scaled by this factor.
pub const SCALE: i64 = 16777216;

/// Largest magnitude accepted by `fx_mul` operands; keeps the scaled
/// product well inside the machine word.
pub const FX_OPERAND_MAX: i64 = 274877906944;

/// Quotient rounded toward zero, as machine division of two integers
/// rounds; `/` on `int` rounds toward negative infinity instead.
pub open spec fn tz_div(a: int, d: int) -> int {
    if a >= 0 {
        a / d
    } else {
        -((-a) / d)
    }
}

/// The value of a fixed-point product: the mathematical product scaled
/// back down by `SCALE`, rounded toward zero.
pub open spec fn fmul(a: int, b: int) -> int {
    tz_div(a * b, SCALE as int)
}

/// Quotient of `a` by a positive divisor, rounded toward zero.
pub fn div_tz(a: i64, d: i64) -> (r: i64)
    requires
        1 <= d,
        -0x7fff_ffff_ffff_ffff <= a,
    ensures
        r == tz_div(a as int, d as int),
{
    if a >= 0 {
        let q: u64 = (a as u64) / (d as u64);
        proof {
            lemma_div_nonincreasing(a as int, d as int);
            lemma_div_pos_is_pos(a as int, d as int);
        }
        q as i64
    } else {
        let n: i64 = -a;
        let q: u64 = (n as u64) / (d as u64);
        proof {
            lemma_div_nonincreasing(n as int, d as int);
            lemma_div_pos_is_pos(n as int, d as int);
        }
        -(q as i64)
    }
}

/// Fixed-point multiplication: returns exactly `fmul(a, b)`.
pub fn fx_mul(a: i64, b: i64) -> (r: i64)
    requires
        -FX_OPERAND_MAX <= a <= FX_OPERAND_MAX,
        -FX_OPERAND_MAX <= b <= FX_OPERAND_MAX,
    ensures
        r == fmul(a as int, b as int),
{
    let neg: bool = (a < 0) != (b < 0);
    let ua: u64 = if a >= 0 {
        a as u64
    } else {
        (-a) as u64
    };
    let ub: u64 = if b >= 0 {
        b as u64
    } else {
        (-b) as u64
    };
    proof {
        lemma_mul_upper_bound(ua as int, FX_OPERAND_MAX as int, ub as int, FX_OPERAND_MAX as int);
        lemma_mul_nonnegative(ua as int, ub as int);
        lemma_div_is_ordered(
            ua as int * ub as int,
            FX_OPERAND_MAX as int * FX_OPERAND_MAX as int,
            SCALE as int,
        );
        lemma_div_pos_is_pos(ua as int * ub as int, SCALE as int);
    }
    let m: u128 = ((ua as u128) * (ub as u128)) / (SCALE as u128);
    let mi: i64 = m as i64;
    proof {
        let ai = a as int;
        let bi = b as int;
        if ai >= 0 && bi >= 0 {
            assert(ua as int * ub as int == ai * bi) by (nonlinear_arith)
                requires ua == ai && ub == bi,
            ;
            assert(ai * bi >= 0);
        } else if ai < 0 && bi < 0 {
            assert(ua as int * ub as int == ai * bi) by (nonlinear_arith)
                requires ua == -ai && ub == -bi,
            ;
            assert(ai * bi >= 0) by (nonlinear_arith)
                requires ai < 0 && bi < 0,
            ;
        } else if ai < 0 {
            assert(ua as int * ub as int == -(ai * bi)) by (nonlinear_arith)
                requires ua == -ai && ub == bi,
            ;
            assert(ai * bi <= 0) by (nonlinear_arith)
                requires ai < 0 && bi >= 0,
            ;
        } else {
            assert(ua as int * ub as int == -(ai * bi)) by (nonlinear_arith)
                requires ua == ai && ub == -bi,
            ;
            assert(ai * bi <= 0) by (nonlinear_arith)
                requires ai >= 0 && bi < 0,
            ;
        }
    }
    if neg {
        -mi
    } else {
        mi
    }
}

/// Exact floor of `a * b / d` for nonnegative operands.
pub fn mul_div(a: i64, b: i64, d: i64) -> (r: i64)
    requires
        0 <= a,
        0 <= b,
        1 <= d,
        a * b <= d * 0x7fff_ffff_ffff_ffff,
    ensures
        r == (a * b) / (d as int),
{
    proof {
        lemma_mul_nonnegative(a as int, b as int);
        lemma_div_pos_is_pos(a as int * b as int, d as int);
        lemma_div_is_ordered(a as int * b as int, d as int * 0x7fff_ffff_ffff_ffff, d as int);
        lemma_div_multiples_vanish(0x7fff_ffff_ffff_ffff, d as int);
    }
    let m: u128 = ((a as u128) * (b as u128)) / (d as u128);
    m as i64
}

/// Bounds on a fixed-point product of nonnegative factors.
pub proof fn lemma_fmul_nonneg_bound(a: int, b: int, ca: int, cb: int)
    requires
        0 <= a <= ca,
        0 <= b <= cb,
    ensures
        0 <= fmul(a, b) <= (ca * cb) / (SCALE as int),
{
    lemma_mul_nonnegative(a, b);
    lemma_mul_upper_bound(a, ca, b, cb);
    lemma_div_is_ordered(a * b, ca * cb, SCALE as int);
    lemma_div_pos_is_pos(a * b, SCALE as int);
}

/// A fixed-point product of nonnegative factors grows with each factor.
pub proof fn lemma_fmul_monotone(a1: int, b1: int, a2: int, b2: int)
    requires
        0 <= a1 <= a2,
        0 <= b1 <= b2,
    ensures
        fmul(a1, b1) <= fmul(a2, b2),
{
    lemma_mul_upper_bound(a1, a2, b1, b2);
    lemma_mul_nonnegative(a1, b1);
    lemma_mul_nonnegative(a2, b2);
    lemma_div_is_ordered(a1 * b1, a2 * b2, SCALE as int);
}

/// Magnitude bound on a fixed-point product from magnitude bounds on
/// its factors.
pub proof fn lemma_fmul_abs_bound(a: int, b: int, ca: int, cb: int)
    requires
        -ca <= a <= ca,
        -cb <= b <= cb,
        0 <= ca,
        0 <= cb,
    ensures
        -((ca * cb) / (SCALE as int)) <= fmul(a, b) <= (ca * cb) / (SCALE as int),
{
    let p = a * b;
    let aa = if a >= 0 { a } else { -a };
    let bb = if b >= 0 { b } else { -b };
    assert(p == aa * bb || p == -(aa * bb)) by (nonlinear_arith)
        requires (aa == a || aa == -a) && (bb == b || bb == -b) && p == a * b,
    ;
    lemma_mul_upper_bound(aa, ca, bb, cb);
    lemma_mul_nonnegative(aa, bb);
    lemma_mul_nonnegative(ca, cb);
    if p >= 0 {
        lemma_div_is_ordered(p, ca * cb, SCALE as int);
        lemma_div_pos_is_pos(p, SCALE as int);
    } else {
        lemma_div_is_ordered(-p, ca * cb, SCALE as int);
        lemma_div_pos_is_pos(-p, SCALE as int);
    }
}

/// Multiplying by the fixed-point one is exact.
pub proof fn lemma_fmul_one(x: int)
    ensures
        fmul(SCALE as int, x) == x,
{
    if x >= 0 {
        lemma_mul_nonnegative(SCALE as int, x);
        lemma_div_multiples_vanish(x, SCALE as int);
    } else {
        assert(SCALE as int * x == -(SCALE as int * (-x))) by (nonlinear_arith);
        lemma_mul_nonnegative(SCALE as int, -x);
        lemma_div_multiples_vanish(-x, SCALE as int);
    }
}

/// A coefficient at most one cannot push the state past the input: the
/// scaled step keeps the sign of `d` and at most its size.
pub proof fn lemma_fmul_step(g: int, d: int)
    requires
        0 <= g <= SCALE as int,
    ensures
        d >= 0 ==> 0 <= fmul(g, d) <= d,
        d <= 0 ==> d <= fmul(g, d) <= 0,
{
    if d >= 0 {
        lemma_mul_nonnegative(g, d);
        lemma_mul_inequality(g, SCALE as int, d);
        lemma_div_is_ordered(g * d, SCALE as int * d, SCALE as int);
        lemma_div_pos_is_pos(g * d, SCALE as int);
        assert(SCALE as int * d == d * SCALE as int) by (nonlinear_arith);
        lemma_div_multiples_vanish(d, SCALE as int);
    } else {
        lemma_mul_nonnegative(g, -d);
        lemma_mul_inequality(g, SCALE as int, -d);
        lemma_div_is_ordered(g * (-d), SCALE as int * (-d), SCALE as int);
        lemma_div_pos_is_pos(g * (-d), SCALE as int);
        assert(SCALE as int * (-d) == (-d) * SCALE as int) by (nonlinear_arith);
        lemma_div_multiples_vanish(-d, SCALE as int);
        assert(g * d == -(g * (-d))) by (nonlinear_arith);
    }
}

} // verus!
