//! Fixed-point arithmetic: multiply-then-divide with a double-width
//! intermediate product, floor and ceiling rounding, and explicit overflow
//! detection.  Every other module routes its raw arithmetic through here.

use vstd::prelude::*;
use vstd::arithmetic::div_mod::{
    lemma_fundamental_div_mod, lemma_fundamental_div_mod_converse, lemma_div_is_ordered,
    lemma_div_plus_one, lemma_basic_div,
};
use vstd::arithmetic::mul::{lemma_mul_inequality, lemma_mul_strictly_positive};
use crate::error::ErrorCode;

verus! {

/// One in Q64.64 fixed point: 2^64.
pub const Q64: u128 = 0x10000000000000000;

/// 2^128, the width boundary of the double-wide product, as a mathematical
/// integer.
pub open spec fn pow2_128() -> int {
    0x100000000000000000000000000000000int
}

/// 2^64 as a mathematical integer.
pub open spec fn pow2_64() -> int {
    0x10000000000000000
}

/// Floor of `(a * b) / d` over the mathematical integers.
pub open spec fn mul_div_floor_spec(a: int, b: int, d: int) -> int {
    (a * b) / d
}

/// Ceiling of `(a * b) / d` over the mathematical integers.
pub open spec fn mul_div_ceil_spec(a: int, b: int, d: int) -> int {
    (a * b + d - 1) / d
}

/// Subtraction modulo 2^128, the arithmetic of the growth accumulators:
/// differences of snapshots of a non-decreasing counter remain correct even
/// after the counter wraps.
pub open spec fn wrap_sub_spec(a: int, b: int) -> int {
    if a >= b {
        a - b
    } else {
        a - b + pow2_128()
    }
}

/// Computes `a - b` modulo 2^128.
pub fn wrapping_sub_u128(a: u128, b: u128) -> (r: u128)
    ensures
        r == wrap_sub_spec(a as int, b as int),
{
    if a >= b {
        a - b
    } else {
        (u128::MAX - b) + a + 1
    }
}

/// Adds two 128-bit words, returning the low word and the carry.
fn add_with_carry(x: u128, y: u128) -> (r: (u128, u128))
    ensures
        r.0 + r.1 * pow2_128() == x + y,
        r.1 <= 1,
{
    if x <= u128::MAX - y {
        (x + y, 0)
    } else {
        ((x - (u128::MAX - y)) - 1, 1)
    }
}

/// Exact 128x128 -> 256 bit multiplication: returns `(hi, lo)` with
/// `hi * 2^128 + lo == a * b`.
fn mul_wide(a: u128, b: u128) -> (r: (u128, u128))
    ensures
        r.0 * pow2_128() + r.1 == a * b,
{
    let k: u128 = Q64;
    let a1: u128 = a / k;
    let a0: u128 = a % k;
    let b1: u128 = b / k;
    let b0: u128 = b % k;
    proof {
        lemma_fundamental_div_mod(a as int, k as int);
        lemma_fundamental_div_mod(b as int, k as int);
        assert(a1 < 0x10000000000000000 && b1 < 0x10000000000000000) by {
            lemma_div_is_ordered(a as int, u128::MAX as int, k as int);
            lemma_div_is_ordered(b as int, u128::MAX as int, k as int);
        };
        assert(a0 * b0 < pow2_128() && a0 * b1 < pow2_128() && a1 * b0 < pow2_128()
            && a1 * b1 < pow2_128()) by (nonlinear_arith)
            requires
                a0 < 0x10000000000000000,
                a1 < 0x10000000000000000,
                b0 < 0x10000000000000000,
                b1 < 0x10000000000000000,
        ;
    }
    let p00: u128 = a0 * b0;
    let p01: u128 = a0 * b1;
    let p10: u128 = a1 * b0;
    let p11: u128 = a1 * b1;
    proof {
        lemma_fundamental_div_mod(p01 as int, k as int);
        lemma_fundamental_div_mod(p10 as int, k as int);
        assert((p01 % k) * k < pow2_128() && (p10 % k) * k < pow2_128()) by (nonlinear_arith)
            requires
                p01 % k < k,
                p10 % k < k,
                k == 0x10000000000000000,
        ;
        // The high limbs of the cross products are below 2^64 - 1 each, so the
        // high word below cannot wrap.
        assert(p01 / k < 0x10000000000000000 && p10 / k < 0x10000000000000000) by {
            lemma_div_is_ordered(p01 as int, u128::MAX as int, k as int);
            lemma_div_is_ordered(p10 as int, u128::MAX as int, k as int);
        };
        assert(p11 <= (0x10000000000000000 - 1) * (0x10000000000000000 - 1)
            && p01 <= (0x10000000000000000 - 1) * (0x10000000000000000 - 1)
            && p10 <= (0x10000000000000000 - 1) * (0x10000000000000000 - 1)) by (nonlinear_arith)
            requires
                p11 == a1 * b1,
                p01 == a0 * b1,
                p10 == a1 * b0,
                a0 < 0x10000000000000000,
                a1 < 0x10000000000000000,
                b0 < 0x10000000000000000,
                b1 < 0x10000000000000000,
        ;
        // Each cross product's high limb is at most 2^64 - 2, so the high
        // word below stays within 128 bits.
        assert(p01 / k <= k - 2 && p10 / k <= k - 2) by (nonlinear_arith)
            requires
                p01 <= (k - 1) * (k - 1),
                p10 <= (k - 1) * (k - 1),
                k == 0x10000000000000000u128,
                p01 == (p01 / k) * k + (p01 % k),
                p10 == (p10 / k) * k + (p10 % k),
                p01 % k < k,
                p10 % k < k,
        ;
    }
    let (lo1, c1): (u128, u128) = add_with_carry(p00, (p01 % k) * k);
    let (lo, c2): (u128, u128) = add_with_carry(lo1, (p10 % k) * k);
    let hi: u128 = p11 + (p01 / k) + (p10 / k) + c1 + c2;
    proof {
        assert((a as int) * (b as int) == (p11 as int) * 0x100000000000000000000000000000000
            + (p01 as int) * 0x10000000000000000 + (p10 as int) * 0x10000000000000000 + (p00
            as int)) by (nonlinear_arith)
            requires
                a == a1 * k + a0,
                b == b1 * k + b0,
                p00 == a0 * b0,
                p01 == a0 * b1,
                p10 == a1 * b0,
                p11 == a1 * b1,
                k == 0x10000000000000000u128,
        ;
        assert((p01 as int) * 0x10000000000000000 == (p01 / k)
            * 0x100000000000000000000000000000000 + ((p01 % k) * k)) by (nonlinear_arith)
            requires
                p01 == (p01 / k) * k + (p01 % k),
                k == 0x10000000000000000u128,
        ;
        assert((p10 as int) * 0x10000000000000000 == (p10 / k)
            * 0x100000000000000000000000000000000 + ((p10 % k) * k)) by (nonlinear_arith)
            requires
                p10 == (p10 / k) * k + (p10 % k),
                k == 0x10000000000000000u128,
        ;
    }
    (hi, lo)
}

/// Compares the 256-bit value `(ah, al)` with `(bh, bl)`, returning whether
/// the first is less than or equal to the second.
fn le_wide(ah: u128, al: u128, bh: u128, bl: u128) -> (r: bool)
    ensures
        r <==> ah * pow2_128() + al <= bh * pow2_128() + bl,
{
    proof {
        if ah < bh {
            lemma_mul_inequality(ah as int + 1, bh as int, pow2_128());
        }
        if bh < ah {
            lemma_mul_inequality(bh as int + 1, ah as int, pow2_128());
        }
    }
    ah < bh || (ah == bh && al <= bl)
}

/// Floor-divides the 256-bit value `hi * 2^128 + lo` by `d`, by binary search
/// for the greatest quotient `q` with `q * d <= hi * 2^128 + lo`.
pub fn div_wide(hi: u128, lo: u128, d: u128) -> (q: u128)
    requires
        d > 0,
        hi < d,
    ensures
        q == (hi * pow2_128() + lo) / (d as int),
{
    let ghost n: int = hi * pow2_128() + lo;
    proof {
        // hi < d bounds the quotient below 2^128.
        lemma_mul_inequality(hi as int + 1, d as int, pow2_128());
    }
    let mut lo_q: u128 = 0;
    let mut hi_q: u128 = u128::MAX;
    while lo_q < hi_q
        invariant
            d > 0,
            n == hi * pow2_128() + lo,
            lo_q <= hi_q,
            lo_q * d <= n,
            n < (hi_q + 1) * d,
        decreases hi_q - lo_q,
    {
        let mid: u128 = hi_q - (hi_q - lo_q) / 2;
        let (mh, ml): (u128, u128) = mul_wide(mid, d);
        if le_wide(mh, ml, hi, lo) {
            lo_q = mid;
        } else {
            proof {
                lemma_mul_inequality(lo_q as int, mid as int - 1, d as int);
            }
            hi_q = mid - 1;
        }
    }
    proof {
        assert((lo_q + 1) * (d as int) == lo_q * d + d) by (nonlinear_arith);
        lemma_fundamental_div_mod_converse(n, d as int, lo_q as int, n - lo_q * d);
    }
    lo_q
}

/// Multiplies `a` by `b` through a 256-bit intermediate and floor-divides by
/// `d`.  Fails with `DivideByZero` when `d == 0`, and with `MathOverflow`
/// exactly when the quotient does not fit in 128 bits.
pub fn mul_div_floor(a: u128, b: u128, d: u128) -> (r: Result<u128, ErrorCode>)
    ensures
        r matches Ok(q) <==> d != 0 && mul_div_floor_spec(a as int, b as int, d as int)
            <= u128::MAX,
        r matches Ok(q) ==> q == mul_div_floor_spec(a as int, b as int, d as int),
        r matches Err(e) ==> (e == ErrorCode::DivideByZero <==> d == 0) && (d != 0
            ==> e == ErrorCode::MathOverflow),
    {
    if d == 0 {
        return Err(ErrorCode::DivideByZero);
    }
    let (hi, lo): (u128, u128) = mul_wide(a, b);
    if hi >= d {
        proof {
            // The quotient is at least 2^128.
            lemma_mul_inequality(d as int, hi as int, pow2_128());
            lemma_div_is_ordered(d * pow2_128(), a * b, d as int);
            assert((d * pow2_128()) / (d as int) == pow2_128()) by (nonlinear_arith)
                requires
                    d > 0,
            ;
        }
        return Err(ErrorCode::MathOverflow);
    }
    let q: u128 = div_wide(hi, lo, d);
    Ok(q)
}

/// Multiplies `a` by `b` through a 256-bit intermediate and divides by `d`,
/// rounding up.  Fails with `DivideByZero` when `d == 0`, and with
/// `MathOverflow` exactly when the rounded-up quotient does not fit in 128
/// bits.
pub fn mul_div_ceil(a: u128, b: u128, d: u128) -> (r: Result<u128, ErrorCode>)
    ensures
        r matches Ok(q) <==> d != 0 && mul_div_ceil_spec(a as int, b as int, d as int)
            <= u128::MAX,
        r matches Ok(q) ==> q == mul_div_ceil_spec(a as int, b as int, d as int),
        r matches Err(e) ==> (e == ErrorCode::DivideByZero <==> d == 0) && (d != 0
            ==> e == ErrorCode::MathOverflow),
{
    if d == 0 {
        return Err(ErrorCode::DivideByZero);
    }
    if a == 0 || b == 0 {
        proof {
            assert((a as int) * (b as int) == 0) by (nonlinear_arith)
                requires
                    a == 0 || b == 0,
            ;
            lemma_basic_div(d as int - 1, d as int);
        }
        return Ok(0);
    }
    let (hi, lo): (u128, u128) = mul_wide(a, b);
    proof {
        lemma_mul_strictly_positive(a as int, b as int);
        if hi * pow2_128() + lo == 0 {
            assert(false);
        }
    }
    let (h1, l1): (u128, u128) = if lo > 0 {
        (hi, lo - 1)
    } else {
        (hi - 1, u128::MAX)
    };
    let ghost x: int = a * b;
    proof {
        lemma_div_plus_one(x - 1, d as int);
        assert(h1 * pow2_128() + l1 == x - 1);
    }
    if h1 >= d {
        proof {
            lemma_mul_inequality(d as int, h1 as int, pow2_128());
            lemma_div_is_ordered(d * pow2_128(), x - 1, d as int);
            assert((d * pow2_128()) / (d as int) == pow2_128()) by (nonlinear_arith)
                requires
                    d > 0,
            ;
        }
        return Err(ErrorCode::MathOverflow);
    }
    let q: u128 = div_wide(h1, l1, d);
    if q == u128::MAX {
        return Err(ErrorCode::MathOverflow);
    }
    Ok(q + 1)
}

} // verus!
