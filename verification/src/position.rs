//! Position accounting and the liquidity engine: converting a (tick-range,
//! liquidity-delta) into token amounts at the current price, crediting fees
//! and rewards owed since the last touch, and updating pool, boundary ticks
//! and position together.

use vstd::prelude::*;
use crate::error::ErrorCode;
use vstd::arithmetic::div_mod::{lemma_fundamental_div_mod, lemma_mod_multiples_basic};
use crate::math::{
    mul_div_floor, mul_div_ceil, mul_div_floor_spec, mul_div_ceil_spec, wrap_sub_spec,
    wrapping_sub_u128, Q64,
};
use crate::pool::{PoolState, RewardInfo, reward_slot_update, reward_update_fits, REWARD_NUM};
use crate::tick::{
    Tick, tick_after_update, tick_update_fits,
};
use crate::tick_math::{
    sqrt_price_spec, sqrt_price_from_tick, lemma_sqrt_price_positive, lemma_sqrt_price_mono,
    MAX_TICK, MIN_TICK,
};

verus! {

/// A liquidity provider's record for one pool and one tick range.
#[derive(Clone, Copy, Debug, PartialEq, Eq, Structural)]
pub struct Position {
    pub tick_lower: i32,
    pub tick_upper: i32,
    pub liquidity: u128,
    pub fee_growth_inside_0_last_x64: u128,
    pub fee_growth_inside_1_last_x64: u128,
    pub reward_growth_inside_0_last_x64: u128,
    pub reward_growth_inside_1_last_x64: u128,
    pub reward_growth_inside_2_last_x64: u128,
    pub tokens_owed_0: u64,
    pub tokens_owed_1: u64,
    pub reward_amount_owed_0: u64,
    pub reward_amount_owed_1: u64,
    pub reward_amount_owed_2: u64,
}

/// Growth accumulated below a boundary tick, reconstructed from its
/// "outside" snapshot and the side of it the current tick is on.
pub open spec fn growth_below(global: u128, outside: u128, boundary: i32, tick_current: i32)
    -> int {
    if tick_current >= boundary {
        outside as int
    } else {
        wrap_sub_spec(global as int, outside as int)
    }
}

/// Growth accumulated above a boundary tick.
pub open spec fn growth_above(global: u128, outside: u128, boundary: i32, tick_current: i32)
    -> int {
    if tick_current < boundary {
        outside as int
    } else {
        wrap_sub_spec(global as int, outside as int)
    }
}

/// Growth accumulated strictly inside a tick range: the global accumulator
/// minus what accrued below the lower bound and above the upper bound, all
/// modulo 2^128.
pub open spec fn growth_inside_spec(global: u128, outside_lower: u128, outside_upper: u128,
    tick_lower: i32, tick_upper: i32, tick_current: i32) -> int {
    wrap_sub_spec(wrap_sub_spec(global as int, growth_below(global, outside_lower, tick_lower,
        tick_current)), growth_above(global, outside_upper, tick_upper, tick_current))
}

/// Computes one accumulator's growth inside a range from the two boundary
/// snapshots in O(1).
fn growth_inside(global: u128, outside_lower: u128, outside_upper: u128, tick_lower: i32,
    tick_upper: i32, tick_current: i32) -> (r: u128)
    ensures
        r == growth_inside_spec(global, outside_lower, outside_upper, tick_lower, tick_upper,
            tick_current),
{
    let below: u128 = if tick_current >= tick_lower {
        outside_lower
    } else {
        wrapping_sub_u128(global, outside_lower)
    };
    let above: u128 = if tick_current < tick_upper {
        outside_upper
    } else {
        wrapping_sub_u128(global, outside_upper)
    };
    wrapping_sub_u128(wrapping_sub_u128(global, below), above)
}

/// Token-0 amount for `liquidity` over the sqrt-price range `[pa, pb]`:
/// `liquidity * 2^64 * (pb - pa) / (pa * pb)`, evaluated as two
/// multiply-divides, rounding both up (amounts owed to the pool) or both
/// down (amounts owed to the caller).
pub open spec fn amount_0_spec(liquidity: int, pa: int, pb: int, round_up: bool) -> int {
    if round_up {
        mul_div_ceil_spec(mul_div_ceil_spec(liquidity, Q64 as int, pa), pb - pa, pb)
    } else {
        mul_div_floor_spec(mul_div_floor_spec(liquidity, Q64 as int, pa), pb - pa, pb)
    }
}

/// Whether the token-0 amount computation stays within its result types.
pub open spec fn amount_0_fits(liquidity: int, pa: int, pb: int, round_up: bool) -> bool {
    (if round_up {
        mul_div_ceil_spec(liquidity, Q64 as int, pa) <= u128::MAX
    } else {
        mul_div_floor_spec(liquidity, Q64 as int, pa) <= u128::MAX
    }) && amount_0_spec(liquidity, pa, pb, round_up) <= u64::MAX
}

/// Token-1 amount for `liquidity` over `[pa, pb]`:
/// `liquidity * (pb - pa) / 2^64`.
pub open spec fn amount_1_spec(liquidity: int, pa: int, pb: int, round_up: bool) -> int {
    if round_up {
        mul_div_ceil_spec(liquidity, pb - pa, Q64 as int)
    } else {
        mul_div_floor_spec(liquidity, pb - pa, Q64 as int)
    }
}

/// Whether the token-1 amount fits a `u64`.
pub open spec fn amount_1_fits(liquidity: int, pa: int, pb: int, round_up: bool) -> bool {
    amount_1_spec(liquidity, pa, pb, round_up) <= u64::MAX
}

/// Computes the token-0 amount for a liquidity delta over a sqrt-price
/// range.  Fails with `MathOverflow` exactly when an intermediate or the
/// result overflows.
pub fn get_amount_0_delta(liquidity: u128, sqrt_price_a_x64: u128, sqrt_price_b_x64: u128,
    round_up: bool) -> (r: Result<u64, ErrorCode>)
    requires
        0 < sqrt_price_a_x64 <= sqrt_price_b_x64,
    ensures
        r matches Ok(a) <==> amount_0_fits(liquidity as int, sqrt_price_a_x64 as int,
            sqrt_price_b_x64 as int, round_up),
        r matches Ok(a) ==> a == amount_0_spec(liquidity as int, sqrt_price_a_x64 as int,
            sqrt_price_b_x64 as int, round_up),
        r matches Err(e) ==> e == ErrorCode::MathOverflow,
{
    if round_up {
        let s1: u128 = match mul_div_ceil(liquidity, Q64, sqrt_price_a_x64) {
            Ok(v) => v,
            Err(_) => {
                return Err(ErrorCode::MathOverflow);
            },
        };
        let a: u128 = match mul_div_ceil(s1, sqrt_price_b_x64 - sqrt_price_a_x64,
            sqrt_price_b_x64) {
            Ok(v) => v,
            Err(_) => {
                return Err(ErrorCode::MathOverflow);
            },
        };
        if a > u64::MAX as u128 {
            return Err(ErrorCode::MathOverflow);
        }
        Ok(a as u64)
    } else {
        let s1: u128 = match mul_div_floor(liquidity, Q64, sqrt_price_a_x64) {
            Ok(v) => v,
            Err(_) => {
                return Err(ErrorCode::MathOverflow);
            },
        };
        let a: u128 = match mul_div_floor(s1, sqrt_price_b_x64 - sqrt_price_a_x64,
            sqrt_price_b_x64) {
            Ok(v) => v,
            Err(_) => {
                return Err(ErrorCode::MathOverflow);
            },
        };
        if a > u64::MAX as u128 {
            return Err(ErrorCode::MathOverflow);
        }
        Ok(a as u64)
    }
}

/// Computes the token-1 amount for a liquidity delta over a sqrt-price
/// range.  Fails with `MathOverflow` exactly when the result overflows.
pub fn get_amount_1_delta(liquidity: u128, sqrt_price_a_x64: u128, sqrt_price_b_x64: u128,
    round_up: bool) -> (r: Result<u64, ErrorCode>)
    requires
        sqrt_price_a_x64 <= sqrt_price_b_x64,
    ensures
        r matches Ok(a) <==> amount_1_fits(liquidity as int, sqrt_price_a_x64 as int,
            sqrt_price_b_x64 as int, round_up),
        r matches Ok(a) ==> a == amount_1_spec(liquidity as int, sqrt_price_a_x64 as int,
            sqrt_price_b_x64 as int, round_up),
        r matches Err(e) ==> e == ErrorCode::MathOverflow,
{
    let diff: u128 = sqrt_price_b_x64 - sqrt_price_a_x64;
    let a: u128 = if round_up {
        match mul_div_ceil(liquidity, diff, Q64) {
            Ok(v) => v,
            Err(_) => {
                return Err(ErrorCode::MathOverflow);
            },
        }
    } else {
        match mul_div_floor(liquidity, diff, Q64) {
            Ok(v) => v,
            Err(_) => {
                return Err(ErrorCode::MathOverflow);
            },
        }
    };
    if a > u64::MAX as u128 {
        return Err(ErrorCode::MathOverflow);
    }
    Ok(a as u64)
}

/// Tokens (or reward units) newly owed to a position for the growth since
/// its last snapshot: `liquidity * (inside_now - inside_last) / 2^64`,
/// floor-rounded in the pool's favor.
pub open spec fn credit_spec(liquidity: u128, inside_now: int, inside_last: u128) -> int {
    mul_div_floor_spec(liquidity as int, wrap_sub_spec(inside_now, inside_last as int),
        Q64 as int)
}

/// A position's tick range is non-empty, inside the supported tick bounds,
/// and aligned to the pool's tick spacing.
pub open spec fn range_valid(tick_lower: i32, tick_upper: i32, tick_spacing: u32) -> bool {
    tick_lower < tick_upper && MIN_TICK <= tick_lower && tick_upper <= MAX_TICK && (tick_lower
        as int) % (tick_spacing as int) == 0 && (tick_upper as int) % (tick_spacing as int)
        == 0
}

/// The current tick lies inside the half-open range.
pub open spec fn in_range(tick_lower: i32, tick_upper: i32, tick_current: i32) -> bool {
    tick_lower <= tick_current < tick_upper
}

/// The pool's stored price and stored current tick agree: the price sits at
/// or above the current tick's price and below the next tick's.
pub open spec fn pool_price_consistent(pool: PoolState) -> bool {
    MIN_TICK <= pool.tick_current <= MAX_TICK && sqrt_price_spec(pool.tick_current as int)
        <= pool.sqrt_price_x64 && (pool.tick_current < MAX_TICK ==> pool.sqrt_price_x64
        < sqrt_price_spec(pool.tick_current as int + 1)) && pool.sqrt_price_x64
        <= sqrt_price_spec(MAX_TICK as int)
}

/// The growth accumulator of reward stream `i` after advancing it to `now`.
pub open spec fn new_reward_global(pool: PoolState, now: u64, i: int) -> u128 {
    reward_slot_update(pool.reward_infos@[i], now, pool.liquidity).growth_global_x64
}

/// The token amounts a liquidity delta requires, by the position of the
/// current tick relative to the range: fully below needs only token 0,
/// fully above only token 1, and in-range splits at the current price.
pub open spec fn modify_amounts_spec(mag: int, round_up: bool, pa: int, pb: int, p_cur: int,
    tick_lower: i32, tick_upper: i32, tick_current: i32) -> (int, int) {
    if tick_current < tick_lower {
        (amount_0_spec(mag, pa, pb, round_up), 0int)
    } else if tick_current < tick_upper {
        (amount_0_spec(mag, p_cur, pb, round_up), amount_1_spec(mag, pa, p_cur, round_up))
    } else {
        (0int, amount_1_spec(mag, pa, pb, round_up))
    }
}

/// Whether both token amounts of the applicable case fit their types.
pub open spec fn modify_amounts_fit(mag: int, round_up: bool, pa: int, pb: int, p_cur: int,
    tick_lower: i32, tick_upper: i32, tick_current: i32) -> bool {
    if tick_current < tick_lower {
        amount_0_fits(mag, pa, pb, round_up)
    } else if tick_current < tick_upper {
        amount_0_fits(mag, p_cur, pb, round_up) && amount_1_fits(mag, pa, p_cur, round_up)
    } else {
        amount_1_fits(mag, pa, pb, round_up)
    }
}

/// Whether all five owed-amount credits of a position fit a `u64`.
pub open spec fn position_credits_fit(pos: Position, in0: int, in1: int, rin0: int, rin1: int,
    rin2: int) -> bool {
    pos.tokens_owed_0 + credit_spec(pos.liquidity, in0, pos.fee_growth_inside_0_last_x64)
        <= u64::MAX && pos.tokens_owed_1 + credit_spec(pos.liquidity, in1,
        pos.fee_growth_inside_1_last_x64) <= u64::MAX && pos.reward_amount_owed_0
        + credit_spec(pos.liquidity, rin0, pos.reward_growth_inside_0_last_x64) <= u64::MAX
        && pos.reward_amount_owed_1 + credit_spec(pos.liquidity, rin1,
        pos.reward_growth_inside_1_last_x64) <= u64::MAX && pos.reward_amount_owed_2
        + credit_spec(pos.liquidity, rin2, pos.reward_growth_inside_2_last_x64) <= u64::MAX
}

/// The position record after a liquidity change: owed amounts credited for
/// the growth since the last touch (computed *before* the liquidity
/// change), snapshots moved to the new inside values, liquidity adjusted.
pub open spec fn position_after_modify(pos: Position, delta: int, in0: int, in1: int,
    rin0: int, rin1: int, rin2: int) -> Position {
    Position {
        liquidity: (pos.liquidity + delta) as u128,
        fee_growth_inside_0_last_x64: in0 as u128,
        fee_growth_inside_1_last_x64: in1 as u128,
        reward_growth_inside_0_last_x64: rin0 as u128,
        reward_growth_inside_1_last_x64: rin1 as u128,
        reward_growth_inside_2_last_x64: rin2 as u128,
        tokens_owed_0: (pos.tokens_owed_0 + credit_spec(pos.liquidity, in0,
            pos.fee_growth_inside_0_last_x64)) as u64,
        tokens_owed_1: (pos.tokens_owed_1 + credit_spec(pos.liquidity, in1,
            pos.fee_growth_inside_1_last_x64)) as u64,
        reward_amount_owed_0: (pos.reward_amount_owed_0 + credit_spec(pos.liquidity, rin0,
            pos.reward_growth_inside_0_last_x64)) as u64,
        reward_amount_owed_1: (pos.reward_amount_owed_1 + credit_spec(pos.liquidity, rin1,
            pos.reward_growth_inside_1_last_x64)) as u64,
        reward_amount_owed_2: (pos.reward_amount_owed_2 + credit_spec(pos.liquidity, rin2,
            pos.reward_growth_inside_2_last_x64)) as u64,
        ..pos
    }
}

/// Fee growth inside the position's range for token `which` (0 or 1).
pub open spec fn fee_inside(pool: PoolState, tl: Tick, tu: Tick, pos: Position, which: int)
    -> int {
    if which == 0 {
        growth_inside_spec(pool.fee_growth_global_0_x64, tl.fee_growth_outside_0_x64,
            tu.fee_growth_outside_0_x64, pos.tick_lower, pos.tick_upper, pool.tick_current)
    } else {
        growth_inside_spec(pool.fee_growth_global_1_x64, tl.fee_growth_outside_1_x64,
            tu.fee_growth_outside_1_x64, pos.tick_lower, pos.tick_upper, pool.tick_current)
    }
}

/// Reward growth inside the position's range for stream `i`, with the
/// stream advanced to `now` first.
pub open spec fn reward_inside(pool: PoolState, tl: Tick, tu: Tick, pos: Position, now: u64,
    i: int) -> int {
    growth_inside_spec(new_reward_global(pool, now, i), (if i == 0 {
        tl.reward_growth_outside_0_x64
    } else if i == 1 {
        tl.reward_growth_outside_1_x64
    } else {
        tl.reward_growth_outside_2_x64
    }), (if i == 0 {
        tu.reward_growth_outside_0_x64
    } else if i == 1 {
        tu.reward_growth_outside_1_x64
    } else {
        tu.reward_growth_outside_2_x64
    }), pos.tick_lower, pos.tick_upper, pool.tick_current)
}

/// Everything `modify_liquidity` checks before touching any record.
pub open spec fn modify_liquidity_ok(pool: PoolState, tl: Tick, tu: Tick, pos: Position,
    delta: int, now: u64) -> bool {
    let pa = sqrt_price_spec(pos.tick_lower as int);
    let pb = sqrt_price_spec(pos.tick_upper as int);
    let p_cur = pool.sqrt_price_x64 as int;
    let mag = if delta >= 0 {
        delta
    } else {
        -delta
    };
    range_valid(pos.tick_lower, pos.tick_upper, pool.tick_spacing) && (forall|i: int|
        0 <= i < REWARD_NUM ==> reward_update_fits(pool.reward_infos@[i], now, pool.liquidity))
        && modify_amounts_fit(mag, delta > 0, pa, pb, p_cur, pos.tick_lower, pos.tick_upper,
        pool.tick_current) && position_credits_fit(pos, fee_inside(pool, tl, tu, pos, 0),
        fee_inside(pool, tl, tu, pos, 1), reward_inside(pool, tl, tu, pos, now, 0),
        reward_inside(pool, tl, tu, pos, now, 1), reward_inside(pool, tl, tu, pos, now, 2))
        && 0 <= pos.liquidity + delta <= u128::MAX && tick_update_fits(tl, delta, false)
        && tick_update_fits(tu, delta, true) && (in_range(pos.tick_lower, pos.tick_upper,
        pool.tick_current) ==> 0 <= pool.liquidity + delta <= u128::MAX)
}

/// Divisibility is unchanged by negation.
proof fn lemma_neg_mod_zero(x: int, d: int)
    requires
        d > 0,
    ensures
        (x % d == 0) <==> ((-x) % d == 0),
{
    lemma_fundamental_div_mod(x, d);
    lemma_fundamental_div_mod(-x, d);
    if x % d == 0 {
        assert(-x == (-(x / d)) * d) by (nonlinear_arith)
            requires
                x == d * (x / d) + x % d,
                x % d == 0,
        ;
        lemma_mod_multiples_basic(-(x / d), d);
    }
    if (-x) % d == 0 {
        assert(x == (-((-x) / d)) * d) by (nonlinear_arith)
            requires
                -x == d * ((-x) / d) + (-x) % d,
                (-x) % d == 0,
        ;
        lemma_mod_multiples_basic(-((-x) / d), d);
    }
}

/// Whether a tick index sits on the spacing grid.
fn tick_aligned(t: i32, tick_spacing: u32) -> (r: bool)
    requires
        1 <= tick_spacing <= 0x7fffffff,
        MIN_TICK <= t <= MAX_TICK,
    ensures
        r <==> (t as int) % (tick_spacing as int) == 0,
{
    let mag: u32 = if t >= 0 {
        t as u32
    } else {
        (-t) as u32
    };
    proof {
        if t < 0 {
            lemma_neg_mod_zero(t as int, tick_spacing as int);
        }
    }
    mag % tick_spacing == 0
}

/// Applies a liquidity delta to a position: computes the token amounts the
/// delta requires (positive delta: owed to the pool, rounded up; negative:
/// owed to the caller, rounded down), credits fees and rewards accrued
/// since the position's last touch, advances reward streams to `now`, and
/// updates the two boundary ticks, the pool and the position together.  On
/// any failure every record is left untouched.
#[verifier::rlimit(60)]
pub fn modify_liquidity(pool: &mut PoolState, tick_lower: &mut Tick, tick_upper: &mut Tick,
    position: &mut Position, liquidity_delta: i128, now: u64) -> (r: Result<(u64, u64),
    ErrorCode>)
    requires
        old(pool).wf(),
        pool_price_consistent(*old(pool)),
        old(tick_lower).index == old(position).tick_lower,
        old(tick_upper).index == old(position).tick_upper,
    ensures
        final(pool).wf(),
        r matches Ok(amounts) <==> modify_liquidity_ok(*old(pool), *old(tick_lower),
            *old(tick_upper), *old(position), liquidity_delta as int, now),
        r matches Ok(amounts) ==> ({
            let pa = sqrt_price_spec(old(position).tick_lower as int);
            let pb = sqrt_price_spec(old(position).tick_upper as int);
            let mag: int = if liquidity_delta >= 0 {
                liquidity_delta as int
            } else {
                -(liquidity_delta as int)
            };
            let expect = modify_amounts_spec(mag, liquidity_delta > 0, pa, pb,
                old(pool).sqrt_price_x64 as int, old(position).tick_lower,
                old(position).tick_upper, old(pool).tick_current);
            amounts.0 == expect.0 && amounts.1 == expect.1
        }),
        r matches Ok(amounts) ==> final(pool).liquidity == (if in_range(
            old(position).tick_lower, old(position).tick_upper, old(pool).tick_current) {
            (old(pool).liquidity + liquidity_delta) as u128
        } else {
            old(pool).liquidity
        }),
        r matches Ok(amounts) ==> final(pool).sqrt_price_x64 == old(pool).sqrt_price_x64
            && final(pool).tick_current == old(pool).tick_current && final(pool).tick_spacing
            == old(pool).tick_spacing && final(pool).fee_growth_global_0_x64
            == old(pool).fee_growth_global_0_x64 && final(pool).fee_growth_global_1_x64
            == old(pool).fee_growth_global_1_x64 && final(pool).protocol_fees_0
            == old(pool).protocol_fees_0 && final(pool).protocol_fees_1
            == old(pool).protocol_fees_1,
        r matches Ok(amounts) ==> final(pool).reward_infos@.len() == REWARD_NUM && (forall|
            i: int| 0 <= i < REWARD_NUM ==> final(pool).reward_infos@[i] == reward_slot_update(
            old(pool).reward_infos@[i], now, old(pool).liquidity)),
        r matches Ok(amounts) ==> *final(tick_lower) == tick_after_update(*old(tick_lower),
            liquidity_delta as int, false, old(pool).tick_current,
            old(pool).fee_growth_global_0_x64, old(pool).fee_growth_global_1_x64,
            new_reward_global(*old(pool), now, 0), new_reward_global(*old(pool), now, 1),
            new_reward_global(*old(pool), now, 2)) && *final(tick_upper) == tick_after_update(
            *old(tick_upper), liquidity_delta as int, true, old(pool).tick_current,
            old(pool).fee_growth_global_0_x64, old(pool).fee_growth_global_1_x64,
            new_reward_global(*old(pool), now, 0), new_reward_global(*old(pool), now, 1),
            new_reward_global(*old(pool), now, 2)),
        r matches Ok(amounts) ==> *final(position) == position_after_modify(*old(position),
            liquidity_delta as int, fee_inside(*old(pool), *old(tick_lower), *old(tick_upper),
            *old(position), 0), fee_inside(*old(pool), *old(tick_lower), *old(tick_upper),
            *old(position), 1), reward_inside(*old(pool), *old(tick_lower), *old(tick_upper),
            *old(position), now, 0), reward_inside(*old(pool), *old(tick_lower),
            *old(tick_upper), *old(position), now, 1), reward_inside(*old(pool),
            *old(tick_lower), *old(tick_upper), *old(position), now, 2)),
        r matches Err(e) ==> *final(pool) == *old(pool) && *final(tick_lower)
            == *old(tick_lower) && *final(tick_upper) == *old(tick_upper) && *final(position)
            == *old(position) && (e == ErrorCode::InvalidRange <==> !range_valid(
            old(position).tick_lower, old(position).tick_upper, old(pool).tick_spacing)),
        range_valid(old(position).tick_lower, old(position).tick_upper,
            old(pool).tick_spacing) && (forall|i: int| 0 <= i < REWARD_NUM
            ==> reward_update_fits(old(pool).reward_infos@[i], now, old(pool).liquidity))
            && ({
            let pa = sqrt_price_spec(old(position).tick_lower as int);
            let pb = sqrt_price_spec(old(position).tick_upper as int);
            let mag: int = if liquidity_delta >= 0 {
                liquidity_delta as int
            } else {
                -(liquidity_delta as int)
            };
            modify_amounts_fit(mag, liquidity_delta > 0, pa, pb, old(pool).sqrt_price_x64
                as int, old(position).tick_lower, old(position).tick_upper,
                old(pool).tick_current)
        }) && position_credits_fit(*old(position), fee_inside(*old(pool), *old(tick_lower),
            *old(tick_upper), *old(position), 0), fee_inside(*old(pool), *old(tick_lower),
            *old(tick_upper), *old(position), 1), reward_inside(*old(pool), *old(tick_lower),
            *old(tick_upper), *old(position), now, 0), reward_inside(*old(pool),
            *old(tick_lower), *old(tick_upper), *old(position), now, 1), reward_inside(
            *old(pool), *old(tick_lower), *old(tick_upper), *old(position), now, 2))
            && old(position).liquidity + liquidity_delta < 0 ==> (r matches Err(e)
            && e == ErrorCode::LiquidityUnderflow),
{
    // Range validation.
    if !(position.tick_lower < position.tick_upper) || position.tick_lower < MIN_TICK
        || position.tick_upper > MAX_TICK {
        return Err(ErrorCode::InvalidRange);
    }
    let aligned_lower: bool = tick_aligned(position.tick_lower, pool.tick_spacing);
    let aligned_upper: bool = tick_aligned(position.tick_upper, pool.tick_spacing);
    if !aligned_lower || !aligned_upper {
        return Err(ErrorCode::InvalidRange);
    }
    // Advance reward streams to `now` (into a staging copy).
    let new_rewards: Vec<RewardInfo> = match pool.updated_reward_infos(now) {
        Ok(v) => v,
        Err(e) => {
            return Err(e);
        },
    };
    // Boundary prices, and the amounts the delta requires.
    let pa: u128 = sqrt_price_from_tick(position.tick_lower);
    let pb: u128 = sqrt_price_from_tick(position.tick_upper);
    proof {
        lemma_sqrt_price_positive(position.tick_lower as int);
        lemma_sqrt_price_mono(position.tick_lower as int, position.tick_upper as int);
        if position.tick_lower <= pool.tick_current && pool.tick_current
            < position.tick_upper {
            lemma_sqrt_price_positive(pool.tick_current as int);
            lemma_sqrt_price_mono(position.tick_lower as int, pool.tick_current as int);
            lemma_sqrt_price_mono(pool.tick_current as int + 1, position.tick_upper as int);
        }
    }
    let mag: u128 = if liquidity_delta >= 0 {
        liquidity_delta as u128
    } else {
        ((-(liquidity_delta + 1)) as u128) + 1
    };
    let round_up: bool = liquidity_delta > 0;
    let (amount_0, amount_1): (u64, u64) = if pool.tick_current < position.tick_lower {
        let a0: u64 = match get_amount_0_delta(mag, pa, pb, round_up) {
            Ok(v) => v,
            Err(e) => {
                return Err(e);
            },
        };
        (a0, 0)
    } else if pool.tick_current < position.tick_upper {
        let a0: u64 = match get_amount_0_delta(mag, pool.sqrt_price_x64, pb, round_up) {
            Ok(v) => v,
            Err(e) => {
                return Err(e);
            },
        };
        let a1: u64 = match get_amount_1_delta(mag, pa, pool.sqrt_price_x64, round_up) {
            Ok(v) => v,
            Err(e) => {
                return Err(e);
            },
        };
        (a0, a1)
    } else {
        let a1: u64 = match get_amount_1_delta(mag, pa, pb, round_up) {
            Ok(v) => v,
            Err(e) => {
                return Err(e);
            },
        };
        (0, a1)
    };
    // Credit fees and rewards accrued since the last touch, before the
    // liquidity changes.
    let in0: u128 = growth_inside(pool.fee_growth_global_0_x64,
        tick_lower.fee_growth_outside_0_x64, tick_upper.fee_growth_outside_0_x64,
        position.tick_lower, position.tick_upper, pool.tick_current);
    let in1: u128 = growth_inside(pool.fee_growth_global_1_x64,
        tick_lower.fee_growth_outside_1_x64, tick_upper.fee_growth_outside_1_x64,
        position.tick_lower, position.tick_upper, pool.tick_current);
    let rg0: u128 = new_rewards[0].growth_global_x64;
    let rg1: u128 = new_rewards[1].growth_global_x64;
    let rg2: u128 = new_rewards[2].growth_global_x64;
    let rin0: u128 = growth_inside(rg0, tick_lower.reward_growth_outside_0_x64,
        tick_upper.reward_growth_outside_0_x64, position.tick_lower, position.tick_upper,
        pool.tick_current);
    let rin1: u128 = growth_inside(rg1, tick_lower.reward_growth_outside_1_x64,
        tick_upper.reward_growth_outside_1_x64, position.tick_lower, position.tick_upper,
        pool.tick_current);
    let rin2: u128 = growth_inside(rg2, tick_lower.reward_growth_outside_2_x64,
        tick_upper.reward_growth_outside_2_x64, position.tick_lower, position.tick_upper,
        pool.tick_current);
    let owed_0: u64 = match credit_owed(position.tokens_owed_0, position.liquidity, in0,
        position.fee_growth_inside_0_last_x64) {
        Ok(v) => v,
        Err(e) => {
            return Err(e);
        },
    };
    let owed_1: u64 = match credit_owed(position.tokens_owed_1, position.liquidity, in1,
        position.fee_growth_inside_1_last_x64) {
        Ok(v) => v,
        Err(e) => {
            return Err(e);
        },
    };
    let rowed_0: u64 = match credit_owed(position.reward_amount_owed_0, position.liquidity,
        rin0, position.reward_growth_inside_0_last_x64) {
        Ok(v) => v,
        Err(e) => {
            return Err(e);
        },
    };
    let rowed_1: u64 = match credit_owed(position.reward_amount_owed_1, position.liquidity,
        rin1, position.reward_growth_inside_1_last_x64) {
        Ok(v) => v,
        Err(e) => {
            return Err(e);
        },
    };
    let rowed_2: u64 = match credit_owed(position.reward_amount_owed_2, position.liquidity,
        rin2, position.reward_growth_inside_2_last_x64) {
        Ok(v) => v,
        Err(e) => {
            return Err(e);
        },
    };
    // Position and pool liquidity.
    let new_position_liquidity: u128 = if liquidity_delta >= 0 {
        if position.liquidity > u128::MAX - mag {
            return Err(ErrorCode::LiquidityOverflow);
        }
        position.liquidity + mag
    } else {
        if position.liquidity < mag {
            return Err(ErrorCode::LiquidityUnderflow);
        }
        position.liquidity - mag
    };
    let range_active: bool = position.tick_lower <= pool.tick_current && pool.tick_current
        < position.tick_upper;
    let new_pool_liquidity: u128 = if range_active {
        if liquidity_delta >= 0 {
            if pool.liquidity > u128::MAX - mag {
                return Err(ErrorCode::LiquidityOverflow);
            }
            pool.liquidity + mag
        } else {
            if pool.liquidity < mag {
                return Err(ErrorCode::LiquidityUnderflow);
            }
            pool.liquidity - mag
        }
    } else {
        pool.liquidity
    };
    // Boundary ticks (on staging copies).
    let mut tl2: Tick = *tick_lower;
    match crate::tick::update_tick(&mut tl2, liquidity_delta, false, pool.tick_current,
        pool.fee_growth_global_0_x64, pool.fee_growth_global_1_x64, rg0, rg1, rg2) {
        Ok(_) => (),
        Err(e) => {
            return Err(e);
        },
    }
    let mut tu2: Tick = *tick_upper;
    match crate::tick::update_tick(&mut tu2, liquidity_delta, true, pool.tick_current,
        pool.fee_growth_global_0_x64, pool.fee_growth_global_1_x64, rg0, rg1, rg2) {
        Ok(_) => (),
        Err(e) => {
            return Err(e);
        },
    }
    // Commit.
    pool.reward_infos = new_rewards;
    pool.liquidity = new_pool_liquidity;
    *tick_lower = tl2;
    *tick_upper = tu2;
    position.liquidity = new_position_liquidity;
    position.fee_growth_inside_0_last_x64 = in0;
    position.fee_growth_inside_1_last_x64 = in1;
    position.reward_growth_inside_0_last_x64 = rin0;
    position.reward_growth_inside_1_last_x64 = rin1;
    position.reward_growth_inside_2_last_x64 = rin2;
    position.tokens_owed_0 = owed_0;
    position.tokens_owed_1 = owed_1;
    position.reward_amount_owed_0 = rowed_0;
    position.reward_amount_owed_1 = rowed_1;
    position.reward_amount_owed_2 = rowed_2;
    Ok((amount_0, amount_1))
}

/// Adds to an owed balance the credit for growth since the last snapshot.
/// Fails with `MathOverflow` exactly when the new balance would not fit.
fn credit_owed(owed: u64, liquidity: u128, inside_now: u128, inside_last: u128) -> (r: Result<
    u64, ErrorCode>)
    ensures
        r matches Ok(v) <==> owed + credit_spec(liquidity, inside_now as int, inside_last)
            <= u64::MAX,
        r matches Ok(v) ==> v == owed + credit_spec(liquidity, inside_now as int, inside_last),
        r matches Err(e) ==> e == ErrorCode::MathOverflow,
{
    let diff: u128 = wrapping_sub_u128(inside_now, inside_last);
    let credit: u128 = match mul_div_floor(liquidity, diff, Q64) {
        Ok(v) => v,
        Err(_) => {
            return Err(ErrorCode::MathOverflow);
        },
    };
    if credit > (u64::MAX - owed) as u128 {
        return Err(ErrorCode::MathOverflow);
    }
    Ok(owed + (credit as u64))
}

/// The current tick lies inside a position's range.
pub open spec fn position_in_range(p: Position, tick: i32) -> bool {
    p.tick_lower <= tick < p.tick_upper
}

/// Total liquidity of the positions whose range contains `tick`.
pub open spec fn total_in_range_liquidity(ps: Seq<Position>, tick: i32) -> int
    decreases ps.len(),
{
    if ps.len() == 0 {
        0
    } else {
        total_in_range_liquidity(ps.drop_last(), tick) + (if position_in_range(ps.last(),
            tick) {
            ps.last().liquidity as int
        } else {
            0int
        })
    }
}

proof fn lemma_total_update(ps: Seq<Position>, i: int, q: Position, tick: i32)
    requires
        0 <= i < ps.len(),
    ensures
        total_in_range_liquidity(ps.update(i, q), tick) == total_in_range_liquidity(ps, tick)
            - (if position_in_range(ps[i], tick) {
            ps[i].liquidity as int
        } else {
            0int
        }) + (if position_in_range(q, tick) {
            q.liquidity as int
        } else {
            0int
        }),
    decreases ps.len(),
{
    let ps2 = ps.update(i, q);
    if i == ps.len() - 1 {
        assert(ps2.drop_last() =~= ps.drop_last());
        assert(ps2.last() == q);
    } else {
        assert(ps2.drop_last() =~= ps.drop_last().update(i, q));
        assert(ps2.last() == ps.last());
        lemma_total_update(ps.drop_last(), i, q, tick);
    }
}

/// Liquidity conservation under deposits and withdrawals: if the pool's
/// in-range liquidity equals the total liquidity of the positions whose
/// range contains the current tick, then after one position takes a
/// liquidity delta — with the pool's liquidity moving by the same delta
/// exactly when that position's range contains the current tick, as
/// `modify_liquidity` ensures — the equality holds again.  Applied
/// inductively, any sequence of liquidity changes with no swaps keeps
/// `pool.liquidity` equal to that total.
pub proof fn lemma_liquidity_conservation(ps: Seq<Position>, i: int, pool_liquidity: u128,
    delta: int, pos2: Position, tick: i32)
    requires
        0 <= i < ps.len(),
        pool_liquidity == total_in_range_liquidity(ps, tick),
        pos2.tick_lower == ps[i].tick_lower,
        pos2.tick_upper == ps[i].tick_upper,
        pos2.liquidity == ps[i].liquidity + delta,
    ensures
        total_in_range_liquidity(ps.update(i, pos2), tick) == (if position_in_range(ps[i],
            tick) {
            pool_liquidity + delta
        } else {
            pool_liquidity as int
        }),
{
    lemma_total_update(ps, i, pos2, tick);
}

/// A deposit into a range lying entirely at or below the current tick
/// requires no token 0 and a positive amount of token 1.
pub proof fn lemma_deposit_below_range_token_1(liquidity: int, p_cur: int, tick_lower: i32,
    tick_upper: i32, tick_current: i32)
    requires
        MIN_TICK <= tick_lower < tick_upper <= MAX_TICK,
        tick_upper <= tick_current,
        liquidity >= 1,
    ensures
        modify_amounts_spec(liquidity, true, sqrt_price_spec(tick_lower as int),
            sqrt_price_spec(tick_upper as int), p_cur, tick_lower, tick_upper,
            tick_current).0 == 0,
        modify_amounts_spec(liquidity, true, sqrt_price_spec(tick_lower as int),
            sqrt_price_spec(tick_upper as int), p_cur, tick_lower, tick_upper,
            tick_current).1 >= 1,
{
    let pa = sqrt_price_spec(tick_lower as int);
    let pb = sqrt_price_spec(tick_upper as int);
    crate::tick_math::lemma_sqrt_price_strict_mono(tick_lower as int, tick_upper as int);
    vstd::arithmetic::mul::lemma_mul_inequality(1, liquidity, pb - pa);
    vstd::arithmetic::mul::lemma_mul_ordering(liquidity, pb - pa);
    assert(liquidity * (pb - pa) >= 1) by (nonlinear_arith)
        requires
            liquidity >= 1,
            pb - pa >= 1,
    ;
    assert(amount_1_spec(liquidity, pa, pb, true) >= 1) by {
        vstd::arithmetic::div_mod::lemma_div_is_ordered(Q64 as int, liquidity * (pb - pa)
            + Q64 - 1, Q64 as int);
        vstd::arithmetic::div_mod::lemma_div_multiples_vanish(1, Q64 as int);
    };
}

/// One liquidity change in a sequence: the index of the position it
/// touches and the signed delta it applies.
pub open spec fn delta_op_valid(ps: Seq<Position>, op: (int, int)) -> bool {
    0 <= op.0 < ps.len() && 0 <= ps[op.0].liquidity + op.1 <= u128::MAX
}

/// The position set after one liquidity change.
pub open spec fn apply_delta(ps: Seq<Position>, op: (int, int)) -> Seq<Position> {
    ps.update(op.0, (Position { liquidity: (ps[op.0].liquidity + op.1) as u128, ..ps[op.0] }))
}

/// The position set after a whole sequence of liquidity changes.
pub open spec fn positions_after_deltas(ps: Seq<Position>, ops: Seq<(int, int)>)
    -> Seq<Position>
    decreases ops.len(),
{
    if ops.len() == 0 {
        ps
    } else {
        apply_delta(positions_after_deltas(ps, ops.drop_last()), ops.last())
    }
}

/// Every change in the sequence hits an existing position and keeps its
/// liquidity within bounds.
pub open spec fn deltas_valid(ps: Seq<Position>, ops: Seq<(int, int)>) -> bool
    decreases ops.len(),
{
    ops.len() == 0 || (deltas_valid(ps, ops.drop_last()) && delta_op_valid(
        positions_after_deltas(ps, ops.drop_last()), ops.last()))
}

/// The pool's in-range liquidity after the same sequence of changes, as
/// `modify_liquidity` maintains it: each change moves it by the delta
/// exactly when the touched position's range contains the current tick.
pub open spec fn liquidity_after_deltas(ps: Seq<Position>, ops: Seq<(int, int)>,
    pool_liquidity: int, tick: i32) -> int
    decreases ops.len(),
{
    if ops.len() == 0 {
        pool_liquidity
    } else {
        let prev_ps = positions_after_deltas(ps, ops.drop_last());
        let prev_l = liquidity_after_deltas(ps, ops.drop_last(), pool_liquidity, tick);
        if position_in_range(prev_ps[ops.last().0], tick) {
            prev_l + ops.last().1
        } else {
            prev_l
        }
    }
}

/// Liquidity conservation over whole sequences: with no swaps the current
/// tick never moves, so after any sequence of deposits and withdrawals —
/// each moving the pool's liquidity as `modify_liquidity` ensures — the
/// pool's in-range liquidity still equals the total liquidity of the
/// positions whose range contains the current tick.
pub proof fn lemma_liquidity_conservation_sequence(ps: Seq<Position>, ops: Seq<(int, int)>,
    pool_liquidity: u128, tick: i32)
    requires
        deltas_valid(ps, ops),
        pool_liquidity == total_in_range_liquidity(ps, tick),
    ensures
        liquidity_after_deltas(ps, ops, pool_liquidity as int, tick)
            == total_in_range_liquidity(positions_after_deltas(ps, ops), tick),
    decreases ops.len(),
{
    if ops.len() > 0 {
        lemma_liquidity_conservation_sequence(ps, ops.drop_last(), pool_liquidity, tick);
        let prev_ps = positions_after_deltas(ps, ops.drop_last());
        let op = ops.last();
        lemma_total_update(prev_ps, op.0, (Position {
            liquidity: (prev_ps[op.0].liquidity + op.1) as u128,
            ..prev_ps[op.0]
        }), tick);
    }
}

} // verus!
