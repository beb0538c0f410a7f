//! Conversion between tick indices and square-root prices.
//!
//! The price of tick `t` is `1.0001^t`; the pool works with the square root
//! of the price in Q64.64 fixed point, so one tick step multiplies the
//! sqrt-price by `sqrt(1.0001)`.  `sqrt_price_from_tick` evaluates that
//! product with floor rounding at every step; `tick_from_sqrt_price` is its
//! exact left-inverse on tick-aligned inputs, returning for any in-range
//! price the greatest tick whose price does not exceed it.

use vstd::prelude::*;
use vstd::arithmetic::div_mod::{
    lemma_fundamental_div_mod, lemma_fundamental_div_mod_converse, lemma_div_is_ordered,
    lemma_div_is_ordered_by_denominator, lemma_div_pos_is_pos, lemma_div_multiples_vanish,
    lemma_mul_hoist_inequality,
};
use vstd::arithmetic::power2::{pow2, lemma2_to64, lemma2_to64_rest, lemma_pow2_unfold};
use crate::math::{pow2_64, pow2_128, Q64};

verus! {

/// Greatest supported tick index.
pub const MAX_TICK: i32 = 443636;

/// Least supported tick index.
pub const MIN_TICK: i32 = -443636;

/// `sqrt(1.0001)` in Q64.64 fixed point: the sqrt-price ratio of one tick.
pub const TICK_RATIO_X64: u128 = 18447666387855959850;

/// The fractional part of `TICK_RATIO_X64`: `TICK_RATIO_X64 - 2^64`.
pub const TICK_RATIO_FRAC: u128 = 922314146408234;

/// The Q64.64 sqrt-price of tick `t`: starting from `1.0` at tick zero, one
/// floor-rounded multiplication by `TICK_RATIO_X64` per upward tick; a
/// negative tick's price is the floor-rounded reciprocal `2^128 / price(-t)`.
pub open spec fn sqrt_price_spec(t: int) -> int
    decreases (if t >= 0 { t } else { 1 - t }),
{
    if t == 0 {
        Q64 as int
    } else if t > 0 {
        (sqrt_price_spec(t - 1) * TICK_RATIO_X64) / pow2_64()
    } else {
        pow2_128() / sqrt_price_spec(-t)
    }
}

/// A non-negative tick's sqrt-price never falls below `1.0` (2^64).
pub proof fn lemma_sqrt_price_at_least_one(t: int)
    requires
        t >= 0,
    ensures
        sqrt_price_spec(t) >= Q64,
    decreases t,
{
    if t > 0 {
        lemma_sqrt_price_at_least_one(t - 1);
        let p = sqrt_price_spec(t - 1);
        assert(p * pow2_64() <= p * TICK_RATIO_X64);
        lemma_div_is_ordered(p * pow2_64(), p * TICK_RATIO_X64, pow2_64());
        lemma_div_multiples_vanish(p, pow2_64());
    }
}

/// Every tick's sqrt-price is non-negative.
pub proof fn lemma_sqrt_price_nonneg(t: int)
    ensures
        sqrt_price_spec(t) >= 0,
{
    if t >= 0 {
        lemma_sqrt_price_at_least_one(t);
    } else {
        lemma_sqrt_price_at_least_one(-t);
        lemma_div_pos_is_pos(pow2_128(), sqrt_price_spec(-t));
    }
}

/// One tick up never lowers the sqrt-price.
pub proof fn lemma_sqrt_price_step(t: int)
    ensures
        sqrt_price_spec(t) <= sqrt_price_spec(t + 1),
    decreases (if t >= 0 { 0int } else { 1int }),
{
    if t >= 0 {
        lemma_sqrt_price_nonneg(t);
        let p = sqrt_price_spec(t);
        assert(p * pow2_64() <= p * TICK_RATIO_X64);
        lemma_div_is_ordered(p * pow2_64(), p * TICK_RATIO_X64, pow2_64());
        lemma_div_multiples_vanish(p, pow2_64());
    } else {
        // Reciprocals of a monotone positive sequence are antitone.
        lemma_sqrt_price_at_least_one(-t);
        lemma_sqrt_price_at_least_one(if t + 1 == 0 { 0 } else { -(t + 1) });
        if t + 1 == 0 {
            lemma_div_is_ordered_by_denominator(pow2_128(), pow2_64(), sqrt_price_spec(-t));
        } else {
            lemma_sqrt_price_step(-(t + 1));
            lemma_div_is_ordered_by_denominator(pow2_128(), sqrt_price_spec(-(t + 1)),
                sqrt_price_spec(-t));
        }
    }
}

/// The tick-to-price map is monotone: a higher tick never has a lower price.
pub proof fn lemma_sqrt_price_mono(t1: int, t2: int)
    requires
        t1 <= t2,
    ensures
        sqrt_price_spec(t1) <= sqrt_price_spec(t2),
    decreases t2 - t1,
{
    if t1 < t2 {
        lemma_sqrt_price_step(t1);
        lemma_sqrt_price_mono(t1 + 1, t2);
    }
}

/// Every supported tick's sqrt-price is strictly positive.
pub proof fn lemma_sqrt_price_positive(t: int)
    requires
        MIN_TICK <= t <= MAX_TICK,
    ensures
        sqrt_price_spec(t) >= 512,
{
    if t >= 0 {
        lemma_sqrt_price_at_least_one(t);
    } else {
        lemma_sqrt_price_upper(-t);
        lemma_sqrt_price_at_least_one(-t);
        lemma_div_is_ordered_by_denominator(pow2_128(), sqrt_price_spec(-t),
            0x2000000000000000000000000000);
    }
}

/// Each upward tick strictly raises the price.  At or above tick zero the
/// price is at least `1.0`, so the floor-scaled fractional increment is at
/// least `TICK_RATIO_FRAC`; below zero the reciprocal quotients against
/// 2^128 are far enough apart, since the positive-side prices stay within
/// 2^109, that flooring cannot collapse two adjacent values.
pub proof fn lemma_sqrt_price_strict_step(t: int)
    requires
        MIN_TICK <= t,
    ensures
        sqrt_price_spec(t) < sqrt_price_spec(t + 1),
{
    if t >= 0 {
        lemma_sqrt_price_step_decompose(t);
        lemma_sqrt_price_at_least_one(t);
        let p = sqrt_price_spec(t);
        assert(p * TICK_RATIO_FRAC >= Q64 * TICK_RATIO_FRAC);
        lemma_div_is_ordered(Q64 * TICK_RATIO_FRAC, p * TICK_RATIO_FRAC, pow2_64());
        lemma_div_multiples_vanish(TICK_RATIO_FRAC as int, pow2_64());
    } else {
        let m1 = -(t + 1);
        let q1 = sqrt_price_spec(m1);
        let q2 = sqrt_price_spec(m1 + 1);
        lemma_sqrt_price_step_decompose(m1);
        lemma_sqrt_price_at_least_one(m1);
        lemma_sqrt_price_upper(m1);
        let d = (q1 * TICK_RATIO_FRAC) / pow2_64();
        let a = pow2_128() / q1;
        assert(sqrt_price_spec(t + 1) == a) by {
            if t + 1 == 0 {
                assert(pow2_128() / (Q64 as int) == Q64 as int);
            }
        };
        lemma_div_is_ordered_by_denominator(pow2_128(), q1,
            0x2000000000000000000000000000);
        assert(pow2_128() / 0x2000000000000000000000000000 == 524288);
        lemma_div_is_ordered_by_denominator(pow2_128(), 0x10000000000000000, q1);
        assert(pow2_128() / 0x10000000000000000 == 0x10000000000000000);
        lemma_fundamental_div_mod(pow2_128(), q1);
        lemma_fundamental_div_mod(q1 * TICK_RATIO_FRAC, pow2_64());
        // The quotient is large and the per-tick price gap wide enough that
        // the next quotient must drop: a * (q2 - q1) >= q1.
        assert(a * d >= q1 && pow2_128() < a * (q1 + d)) by (nonlinear_arith)
            requires
                pow2_128() == q1 * a + pow2_128() % q1,
                0 <= pow2_128() % q1 < q1,
                q1 * TICK_RATIO_FRAC == pow2_64() * d + (q1 * TICK_RATIO_FRAC) % pow2_64(),
                0 <= (q1 * TICK_RATIO_FRAC) % pow2_64() < pow2_64(),
                524288 <= a,
                a <= 0x10000000000000000,
                0x10000000000000000 <= q1,
                q1 <= 0x2000000000000000000000000000,
                TICK_RATIO_FRAC == 922314146408234u128,
                pow2_64() == 0x10000000000000000,
                pow2_128() == 0x100000000000000000000000000000000,
        ;
        assert(q2 == q1 + d);
        lemma_fundamental_div_mod(pow2_128(), q2);
        assert(pow2_128() / q2 < a) by (nonlinear_arith)
            requires
                pow2_128() < a * q2,
                pow2_128() == q2 * (pow2_128() / q2) + pow2_128() % q2,
                0 <= pow2_128() % q2 < q2,
                q2 > 0,
        ;
    }
}

/// The price map is strictly monotone over the whole supported tick range.
pub proof fn lemma_sqrt_price_strict_mono(t1: int, t2: int)
    requires
        MIN_TICK <= t1 < t2,
    ensures
        sqrt_price_spec(t1) < sqrt_price_spec(t2),
    decreases t2 - t1,
{
    lemma_sqrt_price_strict_step(t1);
    if t1 + 1 < t2 {
        lemma_sqrt_price_strict_mono(t1 + 1, t2);
    }
}

/// An upward step adds exactly the floor-scaled fractional part:
/// `price(t+1) == price(t) + (price(t) * TICK_RATIO_FRAC) / 2^64`.
pub proof fn lemma_sqrt_price_step_decompose(t: int)
    requires
        t >= 0,
    ensures
        sqrt_price_spec(t + 1) == sqrt_price_spec(t) + (sqrt_price_spec(t) * TICK_RATIO_FRAC)
            / pow2_64(),
{
    let p = sqrt_price_spec(t);
    lemma_sqrt_price_nonneg(t);
    lemma_fundamental_div_mod(p * TICK_RATIO_FRAC, pow2_64());
    lemma_div_pos_is_pos(p * TICK_RATIO_FRAC, pow2_64());
    let q = (p * TICK_RATIO_FRAC) / pow2_64();
    let r = (p * TICK_RATIO_FRAC) % pow2_64();
    assert(p * TICK_RATIO_X64 == p * pow2_64() + p * TICK_RATIO_FRAC);
    assert(p * TICK_RATIO_X64 == (p + q) * pow2_64() + r) by (nonlinear_arith)
        requires
            p * TICK_RATIO_X64 == p * pow2_64() + p * TICK_RATIO_FRAC,
            p * TICK_RATIO_FRAC == q * pow2_64() + r,
    ;
    lemma_fundamental_div_mod_converse(p * TICK_RATIO_X64, pow2_64(), p + q, r);
}

/// Within one 9999-tick region the price at most doubles: starting from a
/// price at most `m`, each step adds at most `(2*m*TICK_RATIO_FRAC)/2^64`,
/// and 9999 such increments sum to at most `m`.
pub proof fn lemma_sqrt_price_region(a: int, i: int, m: int)
    requires
        a >= 0,
        0 <= i <= 9999,
        m >= 0,
        sqrt_price_spec(a) <= m,
    ensures
        sqrt_price_spec(a + i) <= m + i * ((2 * m * TICK_RATIO_FRAC) / pow2_64()),
        sqrt_price_spec(a + i) <= 2 * m,
    decreases i,
{
    let d = (2 * m * TICK_RATIO_FRAC) / pow2_64();
    lemma_div_pos_is_pos(2 * m * TICK_RATIO_FRAC, pow2_64());
    // 9999 increments of size d stay below m.
    assert(9999 * d <= m) by {
        lemma_mul_hoist_inequality(9999, 2 * m * TICK_RATIO_FRAC, pow2_64());
        assert(9999 * (2 * m * TICK_RATIO_FRAC) == m * 18444438299871863532) by (nonlinear_arith);
        lemma_div_is_ordered(m * 18444438299871863532, m * pow2_64(), pow2_64());
        lemma_div_multiples_vanish(m, pow2_64());
    };
    if i == 0 {
    } else {
        lemma_sqrt_price_region(a, i - 1, m);
        let p = sqrt_price_spec(a + i - 1);
        assert(p <= m + (i - 1) * d);
        assert((i - 1) * d <= 9999 * d) by (nonlinear_arith)
            requires
                0 <= i - 1 <= 9999,
                d >= 0,
        ;
        lemma_sqrt_price_step_decompose(a + i - 1);
        assert(p * TICK_RATIO_FRAC <= 2 * m * TICK_RATIO_FRAC);
        lemma_div_is_ordered(p * TICK_RATIO_FRAC, 2 * m * TICK_RATIO_FRAC, pow2_64());
        assert(sqrt_price_spec(a + i) <= m + (i - 1) * d + d);
        assert(m + (i - 1) * d + d == m + i * d) by (nonlinear_arith);
    }
}

/// After `k` regions of 9999 ticks the price is at most `2^64 * 2^k`.
pub proof fn lemma_sqrt_price_doubling(k: nat)
    ensures
        sqrt_price_spec(9999 * (k as int)) <= pow2_64() * pow2(k),
    decreases k,
{
    if k == 0 {
        assert(pow2(0) == 1) by {
            lemma2_to64();
        };
    } else {
        lemma_sqrt_price_doubling((k - 1) as nat);
        lemma_pow2_unfold(k);
        let m = pow2_64() * pow2((k - 1) as nat);
        vstd::arithmetic::mul::lemma_mul_nonnegative(pow2_64(), pow2((k - 1) as nat) as int);
        lemma_sqrt_price_region(9999 * (k as int - 1), 9999, m);
        assert(9999 * (k as int) == 9999 * (k as int - 1) + 9999) by (nonlinear_arith);
        assert(pow2_64() * pow2(k) == 2 * m) by (nonlinear_arith)
            requires
                pow2(k) == 2 * pow2((k - 1) as nat),
                m == pow2_64() * pow2((k - 1) as nat),
        ;
    }
}

/// Every supported non-negative tick's sqrt-price fits well inside 128 bits.
pub proof fn lemma_sqrt_price_upper(t: int)
    requires
        0 <= t <= 449955,
    ensures
        sqrt_price_spec(t) <= 0x2000000000000000000000000000,
{
    lemma_sqrt_price_doubling(45);
    lemma_sqrt_price_mono(t, 449955);
    assert(pow2(45) == 0x200000000000) by {
        lemma2_to64_rest();
    };
}

/// Computes the Q64.64 sqrt-price of a tick, walking the floor-rounded
/// ratio product one tick at a time from tick zero.
pub fn sqrt_price_from_tick(tick: i32) -> (r: u128)
    requires
        MIN_TICK <= tick <= MAX_TICK,
    ensures
        r == sqrt_price_spec(tick as int),
{
    let magnitude: i32 = if tick >= 0 {
        tick
    } else {
        -tick
    };
    let p_abs: u128 = {
        let mut p: u128 = Q64;
        let mut i: i32 = 0;
        while i < magnitude
            invariant
                0 <= i <= magnitude,
                magnitude <= MAX_TICK,
                p == sqrt_price_spec(i as int),
            decreases magnitude - i,
        {
            proof {
                lemma_sqrt_price_upper(i as int);
                lemma_sqrt_price_step_decompose(i as int);
                lemma_fundamental_div_mod(p as int, pow2_64());
                lemma_div_is_ordered(p as int, 0x2000000000000000000000000000,
                    pow2_64());
            }
            let ph: u128 = p / Q64;
            let pl: u128 = p % Q64;
            let add: u128 = ph * TICK_RATIO_FRAC + (pl * TICK_RATIO_FRAC) / Q64;
            proof {
                // (p * FRAC) / 2^64 splits exactly over the two limbs of p.
                lemma_fundamental_div_mod((pl * TICK_RATIO_FRAC) as int, pow2_64());
                lemma_div_pos_is_pos((pl * TICK_RATIO_FRAC) as int, pow2_64());
                let q2 = ((pl * TICK_RATIO_FRAC) as int) / pow2_64();
                let r2 = ((pl * TICK_RATIO_FRAC) as int) % pow2_64();
                assert((p * TICK_RATIO_FRAC) as int == ((ph * TICK_RATIO_FRAC) as int + q2)
                    * pow2_64() + r2) by (nonlinear_arith)
                    requires
                        p == ph * 0x10000000000000000 + pl,
                        (pl * TICK_RATIO_FRAC) as int == q2 * pow2_64() + r2,
                        TICK_RATIO_FRAC == 922314146408234u128,
                ;
                lemma_fundamental_div_mod_converse((p * TICK_RATIO_FRAC) as int, pow2_64(),
                    (ph * TICK_RATIO_FRAC) as int + q2, r2);
            }
            p = p + add;
            i = i + 1;
        }
        p
    };
    if tick >= 0 {
        p_abs
    } else {
        proof {
            lemma_sqrt_price_at_least_one(magnitude as int);
        }
        crate::math::div_wide(1, 0, p_abs)
    }
}

/// Finds, by binary search over the monotone tick-to-price map, the greatest
/// tick whose sqrt-price is at or below the given sqrt-price.
pub fn tick_from_sqrt_price(sqrt_price_x64: u128) -> (r: i32)
    requires
        sqrt_price_spec(MIN_TICK as int) <= sqrt_price_x64,
        sqrt_price_x64 <= sqrt_price_spec(MAX_TICK as int),
    ensures
        MIN_TICK <= r <= MAX_TICK,
        sqrt_price_spec(r as int) <= sqrt_price_x64,
        r < MAX_TICK ==> sqrt_price_x64 < sqrt_price_spec(r as int + 1),
{
    let mut lo: i32 = MIN_TICK;
    let mut hi: i32 = MAX_TICK;
    while lo < hi
        invariant
            MIN_TICK <= lo <= hi <= MAX_TICK,
            sqrt_price_spec(lo as int) <= sqrt_price_x64,
            hi < MAX_TICK ==> sqrt_price_x64 < sqrt_price_spec(hi as int + 1),
        decreases hi - lo,
    {
        let mid: i32 = hi - (hi - lo) / 2;
        let price_mid: u128 = sqrt_price_from_tick(mid);
        if price_mid <= sqrt_price_x64 {
            lo = mid;
        } else {
            hi = mid - 1;
        }
    }
    lo
}

/// Round-trip stability of the tick/price conversion on tick-aligned inputs:
/// if `r` is the tick that `tick_from_sqrt_price` returns for the exact
/// price of tick `t` (the greatest tick priced at or below it), then `r` is
/// tick `t` itself — the price map is strictly monotone — so converting the
/// result back to a price reproduces the input price.
pub proof fn lemma_tick_price_round_trip(t: int, r: int)
    requires
        MIN_TICK <= t <= MAX_TICK,
        MIN_TICK <= r <= MAX_TICK,
        sqrt_price_spec(r) <= sqrt_price_spec(t),
        r < MAX_TICK ==> sqrt_price_spec(t) < sqrt_price_spec(r + 1),
    ensures
        r == t,
        sqrt_price_spec(r) == sqrt_price_spec(t),
{
    if r > t {
        lemma_sqrt_price_strict_mono(t, r);
    } else if r < t {
        lemma_sqrt_price_mono(r + 1, t);
    }
}

} // verus!
