//! Swap engine: steps the current price across initialized ticks toward a
//! price limit, consuming an exact input amount, accruing fees to the
//! per-unit-liquidity global accumulator, and crossing tick boundaries.
//!
//! The engine is a two-state machine: it keeps stepping while input remains
//! and the limit is not reached, and is done otherwise.  Reaching the price
//! limit (or the edge of the supplied tick array) before the amount is
//! satisfied is a valid partial fill, reported in the result, not an error.
//! Arithmetic overflow aborts the whole swap with no state mutation.

use vstd::prelude::*;
use crate::error::ErrorCode;
use crate::math::{mul_div_floor, mul_div_ceil, mul_div_floor_spec, mul_div_ceil_spec, Q64};
use crate::pool::{PoolState, RewardInfo, reward_slot_update, reward_update_fits, REWARD_NUM};
use crate::position::{
    amount_0_fits, amount_0_spec, amount_1_fits, amount_1_spec, get_amount_0_delta,
    get_amount_1_delta, pool_price_consistent,
};
use crate::tick::{Tick, TickArray, TICK_ARRAY_SIZE};
use crate::tick_math::{
    sqrt_price_spec, sqrt_price_from_tick, tick_from_sqrt_price, lemma_sqrt_price_mono,
    lemma_sqrt_price_positive, MAX_TICK, MIN_TICK,
};

verus! {

/// Parts per million denominator of the swap fee rate.
pub const FEE_RATE_DENOM: u64 = 1000000;

/// Outcome of a swap: the gross input consumed (fees included), the output
/// produced, where the price ended, how many ticks were crossed, and
/// whether the swap stopped early at the price limit or the edge of the
/// supplied tick window (a valid partial fill, never an error).
pub struct SwapResult {
    pub amount_in: u64,
    pub amount_out: u64,
    pub final_sqrt_price_x64: u128,
    pub final_tick: i32,
    pub ticks_crossed: u32,
    pub price_limit_reached: bool,
}

/// Adds one step's fee to a fee-growth accumulator: `fee * 2^64 /
/// liquidity`, floor-rounded.  A zero-liquidity span accrues nothing (and
/// that is not an error).
pub fn accrue_fee_growth(growth: u128, fee: u64, liquidity: u128) -> (r: Result<u128,
    ErrorCode>)
    ensures
        liquidity == 0 ==> (r matches Ok(g) && g == growth),
        liquidity > 0 ==> ((r matches Ok(g) <==> growth + mul_div_floor_spec(fee as int,
            Q64 as int, liquidity as int) <= u128::MAX) && (r matches Ok(g) ==> g == growth
            + mul_div_floor_spec(fee as int, Q64 as int, liquidity as int))),
        r matches Ok(g) ==> g >= growth,
        r matches Err(e) ==> e == ErrorCode::MathOverflow,
{
    if liquidity == 0 {
        return Ok(growth);
    }
    let delta: u128 = match mul_div_floor(fee as u128, Q64, liquidity) {
        Ok(v) => v,
        Err(_) => {
            return Err(ErrorCode::MathOverflow);
        },
    };
    proof {
        vstd::arithmetic::mul::lemma_mul_nonnegative(fee as int, Q64 as int);
        vstd::arithmetic::div_mod::lemma_div_pos_is_pos(fee as int * Q64 as int,
            liquidity as int);
    }
    if delta > u128::MAX - growth {
        return Err(ErrorCode::MathOverflow);
    }
    Ok(growth + delta)
}

/// The price after spending `amount_in` of token 0 with the pool at `price`
/// and depth `liquidity` (price falls):
/// `ceil(L * 2^64 / (floor(L * 2^64 / price) + amount_in))`, clamped to stay
/// at or above `floor_price`.
pub open spec fn next_price_down_spec(price: u128, liquidity: u128, amount_in: u64,
    floor_price: u128) -> int {
    let raw = mul_div_ceil_spec(liquidity as int, Q64 as int, mul_div_floor_spec(
        liquidity as int, Q64 as int, price as int) + amount_in);
    if raw < floor_price {
        floor_price as int
    } else if raw > price {
        price as int
    } else {
        raw
    }
}

/// Whether computing `next_price_down_spec` stays within 128 bits.
pub open spec fn next_price_down_fits(price: u128, liquidity: u128, amount_in: u64) -> bool {
    let t1 = mul_div_floor_spec(liquidity as int, Q64 as int, price as int);
    t1 <= u128::MAX && t1 + amount_in <= u128::MAX && mul_div_ceil_spec(liquidity as int,
        Q64 as int, t1 + amount_in) <= u128::MAX
}

/// Computes `next_price_down_spec`.
fn next_price_down(price: u128, liquidity: u128, amount_in: u64, floor_price: u128) -> (r:
    Result<u128, ErrorCode>)
    requires
        price > 0,
        liquidity > 0,
        amount_in > 0,
        floor_price <= price,
    ensures
        r matches Ok(p) <==> next_price_down_fits(price, liquidity, amount_in),
        r matches Ok(p) ==> p == next_price_down_spec(price, liquidity, amount_in,
            floor_price) && floor_price <= p <= price,
        r matches Err(e) ==> e == ErrorCode::MathOverflow,
{
    let t1: u128 = match mul_div_floor(liquidity, Q64, price) {
        Ok(v) => v,
        Err(_) => {
            return Err(ErrorCode::MathOverflow);
        },
    };
    if t1 > u128::MAX - (amount_in as u128) {
        return Err(ErrorCode::MathOverflow);
    }
    let t2: u128 = t1 + (amount_in as u128);
    let raw: u128 = match mul_div_ceil(liquidity, Q64, t2) {
        Ok(v) => v,
        Err(_) => {
            return Err(ErrorCode::MathOverflow);
        },
    };
    proof {
        vstd::arithmetic::mul::lemma_mul_nonnegative(liquidity as int, Q64 as int);
        vstd::arithmetic::div_mod::lemma_div_pos_is_pos(liquidity as int * Q64 as int,
            price as int);
    }
    if raw < floor_price {
        Ok(floor_price)
    } else if raw > price {
        Ok(price)
    } else {
        Ok(raw)
    }
}

/// The price after spending `amount_in` of token 1 (price rises):
/// `price + floor(amount_in * 2^64 / liquidity)`, clamped to stay at or
/// below `cap_price`.
pub open spec fn next_price_up_spec(price: u128, liquidity: u128, amount_in: u64,
    cap_price: u128) -> int {
    let raw = price + mul_div_floor_spec(amount_in as int, Q64 as int, liquidity as int);
    if raw <= cap_price {
        raw
    } else {
        cap_price as int
    }
}

/// Whether computing `next_price_up_spec` stays within 128 bits.
pub open spec fn next_price_up_fits(price: u128, liquidity: u128, amount_in: u64) -> bool {
    let step = mul_div_floor_spec(amount_in as int, Q64 as int, liquidity as int);
    step <= u128::MAX && price + step <= u128::MAX
}

/// Computes `next_price_up_spec`.
fn next_price_up(price: u128, liquidity: u128, amount_in: u64, cap_price: u128) -> (r: Result<
    u128, ErrorCode>)
    requires
        liquidity > 0,
        price <= cap_price,
    ensures
        r matches Ok(p) <==> next_price_up_fits(price, liquidity, amount_in),
        r matches Ok(p) ==> p == next_price_up_spec(price, liquidity, amount_in, cap_price)
            && price <= p <= cap_price,
        r matches Err(e) ==> e == ErrorCode::MathOverflow,
{
    let step: u128 = match mul_div_floor(amount_in as u128, Q64, liquidity) {
        Ok(v) => v,
        Err(_) => {
            return Err(ErrorCode::MathOverflow);
        },
    };
    proof {
        vstd::arithmetic::mul::lemma_mul_nonnegative(amount_in as int, Q64 as int);
        vstd::arithmetic::div_mod::lemma_div_pos_is_pos(amount_in as int * Q64 as int,
            liquidity as int);
    }
    if step > u128::MAX - price {
        return Err(ErrorCode::MathOverflow);
    }
    let raw: u128 = price + step;
    if raw <= cap_price {
        Ok(raw)
    } else {
        Ok(cap_price)
    }
}

/// The running state of a swap: where the price stands, the in-range
/// liquidity and input-side fee-growth accumulator as staged so far, what
/// input remains, and the totals consumed, produced and crossed.
pub struct SwapState {
    pub price: u128,
    pub liquidity: u128,
    pub fee_growth: u128,
    pub remaining: u64,
    pub amount_in: u64,
    pub amount_out: u64,
    pub ticks_crossed: int,
}

/// The greatest initialized slot at or below `j`, or `-1`.
pub open spec fn next_init_slot_down(ticks: Seq<Tick>, j: int) -> int
    decreases (if j >= 0 { j + 1 } else { 0 }),
{
    if j < 0 {
        -1
    } else if ticks[j].initialized() {
        j
    } else {
        next_init_slot_down(ticks, j - 1)
    }
}

/// The least initialized slot at or above `j` and below `TICK_ARRAY_SIZE`,
/// or `-1`.
pub open spec fn next_init_slot_up(ticks: Seq<Tick>, j: int) -> int
    decreases (if j < TICK_ARRAY_SIZE { TICK_ARRAY_SIZE - j } else { 0 }),
{
    if j >= TICK_ARRAY_SIZE {
        -1
    } else if ticks[j].initialized() {
        j
    } else {
        next_init_slot_up(ticks, j + 1)
    }
}

proof fn lemma_next_init_down_bound(ticks: Seq<Tick>, j: int)
    ensures
        j >= 0 ==> -1 <= next_init_slot_down(ticks, j) <= j,
        j < 0 ==> next_init_slot_down(ticks, j) == -1,
    decreases (if j >= 0 { j + 1 } else { 0 }),
{
    if j >= 0 && !ticks[j].initialized() {
        lemma_next_init_down_bound(ticks, j - 1);
    }
}

proof fn lemma_next_init_up_bound(ticks: Seq<Tick>, j: int)
    ensures
        next_init_slot_up(ticks, j) == -1 || j <= next_init_slot_up(ticks, j)
            < TICK_ARRAY_SIZE,
    decreases (if j < TICK_ARRAY_SIZE { TICK_ARRAY_SIZE - j } else { 0 }),
{
    if j < TICK_ARRAY_SIZE as int && !ticks[j].initialized() {
        lemma_next_init_up_bound(ticks, j + 1);
    }
}

proof fn lemma_next_init_down_some(ticks: Seq<Tick>, from: int, j: int)
    requires
        0 <= j <= from,
        from < ticks.len(),
        ticks[j].initialized(),
        forall|k: int| j < k <= from ==> !ticks[k].initialized(),
    ensures
        next_init_slot_down(ticks, from) == j,
    decreases from - j,
{
    if from > j {
        lemma_next_init_down_some(ticks, from - 1, j);
    }
}

proof fn lemma_next_init_down_none(ticks: Seq<Tick>, from: int)
    requires
        0 <= from < ticks.len(),
        forall|k: int| 0 <= k <= from ==> !ticks[k].initialized(),
    ensures
        next_init_slot_down(ticks, from) == -1,
    decreases from + 1,
{
    reveal_with_fuel(next_init_slot_down, 2);
    if from > 0 {
        lemma_next_init_down_none(ticks, from - 1);
    }
}

proof fn lemma_next_init_up_some(ticks: Seq<Tick>, from: int, j: int)
    requires
        0 <= from <= j < TICK_ARRAY_SIZE,
        ticks.len() == TICK_ARRAY_SIZE,
        ticks[j].initialized(),
        forall|k: int| from <= k < j ==> !ticks[k].initialized(),
    ensures
        next_init_slot_up(ticks, from) == j,
    decreases j - from,
{
    if from < j {
        lemma_next_init_up_some(ticks, from + 1, j);
    }
}

proof fn lemma_next_init_up_none(ticks: Seq<Tick>, from: int)
    requires
        0 <= from <= TICK_ARRAY_SIZE,
        ticks.len() == TICK_ARRAY_SIZE,
        forall|k: int| from <= k < TICK_ARRAY_SIZE as int ==> !ticks[k].initialized(),
    ensures
        next_init_slot_up(ticks, from) == -1,
    decreases TICK_ARRAY_SIZE - from,
{
    reveal_with_fuel(next_init_slot_up, 2);
    if from < TICK_ARRAY_SIZE as int {
        lemma_next_init_up_none(ticks, from + 1);
    }
}

/// One in-liquidity step of a downward swap, from the current state to the
/// clamped `target` price: `None` on arithmetic overflow; otherwise the new
/// state and whether the step consumed the whole range (so stepping may
/// continue past it).  Mirrors the engine exactly: input net of the fee,
/// ceilinged full-range amount, ceilinged fee, floor-rounded output, fee
/// accrual per `accrue_fee_growth`.
#[verifier::opaque]
pub open spec fn swap_down_step_spec(st: SwapState, target: int, fee_rate_ppm: u32) -> Option<
    (SwapState, bool)> {
    let rn = mul_div_floor_spec(st.remaining as int, 1000000 - fee_rate_ppm, 1000000);
    let full_in = amount_0_spec(st.liquidity as int, target, st.price as int, true);
    if !amount_0_fits(st.liquidity as int, target, st.price as int, true) {
        None
    } else if full_in <= rn {
        let out = amount_1_spec(st.liquidity as int, target, st.price as int, false);
        if !amount_1_fits(st.liquidity as int, target, st.price as int, false) {
            None
        } else {
            let fee128 = (full_in * fee_rate_ppm + (1000000 - fee_rate_ppm) - 1) / (1000000
                - fee_rate_ppm);
            let gross = if full_in + fee128 > st.remaining {
                st.remaining as int
            } else {
                full_in + fee128
            };
            if gross < full_in {
                None
            } else {
                let delta = mul_div_floor_spec(gross - full_in, Q64 as int, st.liquidity
                    as int);
                if st.fee_growth + delta > u128::MAX {
                    None
                } else if st.amount_out + out > u64::MAX {
                    None
                } else {
                    Some(((SwapState {
                        price: target as u128,
                        fee_growth: (st.fee_growth + delta) as u128,
                        remaining: (st.remaining - gross) as u64,
                        amount_in: (st.amount_in + gross) as u64,
                        amount_out: (st.amount_out + out) as u64,
                        ..st
                    }), true))
                }
            }
        }
    } else if rn == 0 {
        Some((st, false))
    } else if !next_price_down_fits(st.price, st.liquidity, rn as u64) {
        None
    } else {
        let new_price = next_price_down_spec(st.price, st.liquidity, rn as u64,
            target as u128);
        let out = amount_1_spec(st.liquidity as int, new_price, st.price as int, false);
        if !amount_1_fits(st.liquidity as int, new_price, st.price as int, false) {
            None
        } else {
            let delta = mul_div_floor_spec(st.remaining - rn, Q64 as int, st.liquidity
                as int);
            if st.fee_growth + delta > u128::MAX {
                None
            } else if st.amount_out + out > u64::MAX {
                None
            } else {
                Some(((SwapState {
                    price: new_price as u128,
                    fee_growth: (st.fee_growth + delta) as u128,
                    remaining: 0,
                    amount_in: (st.amount_in + st.remaining) as u64,
                    amount_out: (st.amount_out + out) as u64,
                    ..st
                }), false))
            }
        }
    }
}

/// The symmetric in-liquidity step of an upward swap.
#[verifier::opaque]
pub open spec fn swap_up_step_spec(st: SwapState, target: int, fee_rate_ppm: u32) -> Option<(
    SwapState, bool)> {
    let rn = mul_div_floor_spec(st.remaining as int, 1000000 - fee_rate_ppm, 1000000);
    let full_in = amount_1_spec(st.liquidity as int, st.price as int, target, true);
    if !amount_1_fits(st.liquidity as int, st.price as int, target, true) {
        None
    } else if full_in <= rn {
        let out = amount_0_spec(st.liquidity as int, st.price as int, target, false);
        if !amount_0_fits(st.liquidity as int, st.price as int, target, false) {
            None
        } else {
            let fee128 = (full_in * fee_rate_ppm + (1000000 - fee_rate_ppm) - 1) / (1000000
                - fee_rate_ppm);
            let gross = if full_in + fee128 > st.remaining {
                st.remaining as int
            } else {
                full_in + fee128
            };
            if gross < full_in {
                None
            } else {
                let delta = mul_div_floor_spec(gross - full_in, Q64 as int, st.liquidity
                    as int);
                if st.fee_growth + delta > u128::MAX {
                    None
                } else if st.amount_out + out > u64::MAX {
                    None
                } else {
                    Some(((SwapState {
                        price: target as u128,
                        fee_growth: (st.fee_growth + delta) as u128,
                        remaining: (st.remaining - gross) as u64,
                        amount_in: (st.amount_in + gross) as u64,
                        amount_out: (st.amount_out + out) as u64,
                        ..st
                    }), true))
                }
            }
        }
    } else if rn == 0 {
        Some((st, false))
    } else if !next_price_up_fits(st.price, st.liquidity, rn as u64) {
        None
    } else {
        let new_price = next_price_up_spec(st.price, st.liquidity, rn as u64,
            target as u128);
        let out = amount_0_spec(st.liquidity as int, st.price as int, new_price, false);
        if !amount_0_fits(st.liquidity as int, st.price as int, new_price, false) {
            None
        } else {
            let delta = mul_div_floor_spec(st.remaining - rn, Q64 as int, st.liquidity
                as int);
            if st.fee_growth + delta > u128::MAX {
                None
            } else if st.amount_out + out > u64::MAX {
                None
            } else {
                Some(((SwapState {
                    price: new_price as u128,
                    fee_growth: (st.fee_growth + delta) as u128,
                    remaining: 0,
                    amount_in: (st.amount_in + st.remaining) as u64,
                    amount_out: (st.amount_out + out) as u64,
                    ..st
                }), false))
            }
        }
    }
}

/// Crossing a tick while the price moves down removes the tick's net
/// liquidity from range; `None` when that leaves the machine's bounds.
pub open spec fn cross_down_spec(liquidity: u128, net: i128) -> Option<u128> {
    if liquidity - net < 0 {
        None
    } else if liquidity - net > u128::MAX {
        None
    } else {
        Some((liquidity - net) as u128)
    }
}

/// Crossing a tick while the price moves up adds the tick's net liquidity.
pub open spec fn cross_up_spec(liquidity: u128, net: i128) -> Option<u128> {
    if liquidity + net < 0 {
        None
    } else if liquidity + net > u128::MAX {
        None
    } else {
        Some((liquidity + net) as u128)
    }
}

/// The downward swap machine: done when the input is consumed or the price
/// limit is reached; otherwise one step toward the next initialized tick at
/// or below the cursor (or the window's lower edge), clamped to the limit,
/// crossing the tick and continuing when the step consumed the whole range.
/// `None` means an arithmetic overflow aborts the swap.
#[verifier::opaque]
pub open spec fn swap_down_spec(ticks: Seq<Tick>, start_tick_index: i32, limit: u128,
    fee_rate_ppm: u32, st: SwapState, cursor: int) -> Option<SwapState>
    decreases (if cursor >= 0 { cursor + 1 } else { 0 })
        via swap_down_spec_decreases
{
    if st.remaining == 0 || st.price <= limit {
        Some(st)
    } else {
        let j = if cursor >= 0 {
            next_init_slot_down(ticks, cursor)
        } else {
            -1
        };
        let target_raw = if j >= 0 {
            sqrt_price_spec(ticks[j].index as int)
        } else {
            sqrt_price_spec(start_tick_index as int)
        };
        let target0 = if target_raw >= limit {
            target_raw
        } else {
            limit as int
        };
        let target = if target0 > st.price {
            st.price as int
        } else {
            target0
        };
        let crosses = j >= 0 && target == target_raw;
        let stepped = if st.liquidity > 0 {
            swap_down_step_spec(st, target, fee_rate_ppm)
        } else {
            Some(((SwapState { price: target as u128, ..st }), true))
        };
        match stepped {
            Option::None => None,
            Option::Some((st1, full)) => {
                if !full {
                    Some(st1)
                } else if crosses {
                    match cross_down_spec(st1.liquidity, ticks[j].liquidity_net) {
                        Option::None => None,
                        Option::Some(l2) => swap_down_spec(ticks, start_tick_index, limit,
                            fee_rate_ppm, (SwapState {
                            liquidity: l2,
                            ticks_crossed: st1.ticks_crossed + 1,
                            ..st1
                        }), j - 1),
                    }
                } else {
                    Some(st1)
                }
            },
        }
    }
}

/// The upward swap machine, symmetric to `swap_down_spec`: steps toward the
/// next initialized tick strictly above the cursor, or the window's upper
/// edge.
#[via_fn]
proof fn swap_down_spec_decreases(ticks: Seq<Tick>, start_tick_index: i32, limit: u128,
    fee_rate_ppm: u32, st: SwapState, cursor: int) {
    reveal(swap_down_step_spec);
    lemma_next_init_down_bound(ticks, cursor);
}

#[verifier::opaque]
pub open spec fn swap_up_spec(ticks: Seq<Tick>, start_tick_index: i32, spacing: u32,
    limit: u128, fee_rate_ppm: u32, st: SwapState, cursor: int) -> Option<SwapState>
    decreases (if cursor < TICK_ARRAY_SIZE { TICK_ARRAY_SIZE - cursor } else { 0 })
        via swap_up_spec_decreases
{
    if st.remaining == 0 || st.price >= limit {
        Some(st)
    } else {
        let j = if cursor + 1 < TICK_ARRAY_SIZE {
            next_init_slot_up(ticks, cursor + 1)
        } else {
            -1
        };
        let target_raw = if j >= 0 {
            sqrt_price_spec(ticks[j].index as int)
        } else {
            sqrt_price_spec(start_tick_index + TICK_ARRAY_SIZE * spacing)
        };
        let target0 = if target_raw <= limit {
            target_raw
        } else {
            limit as int
        };
        let target = if target0 < st.price {
            st.price as int
        } else {
            target0
        };
        let crosses = j >= 0 && target == target_raw;
        let stepped = if st.liquidity > 0 {
            swap_up_step_spec(st, target, fee_rate_ppm)
        } else {
            Some(((SwapState { price: target as u128, ..st }), true))
        };
        match stepped {
            Option::None => None,
            Option::Some((st1, full)) => {
                if !full {
                    Some(st1)
                } else if crosses {
                    match cross_up_spec(st1.liquidity, ticks[j].liquidity_net) {
                        Option::None => None,
                        Option::Some(l2) => swap_up_spec(ticks, start_tick_index, spacing,
                            limit, fee_rate_ppm, (SwapState {
                            liquidity: l2,
                            ticks_crossed: st1.ticks_crossed + 1,
                            ..st1
                        }), j),
                    }
                } else {
                    Some(st1)
                }
            },
        }
    }
}

#[via_fn]
proof fn swap_up_spec_decreases(ticks: Seq<Tick>, start_tick_index: i32, spacing: u32,
    limit: u128, fee_rate_ppm: u32, st: SwapState, cursor: int) {
    reveal(swap_up_step_spec);
    lemma_next_init_up_bound(ticks, cursor + 1);
}

/// The swap state a swap starts from.
#[verifier::opaque]
pub open spec fn initial_swap_state(pool: PoolState, zero_for_one: bool,
    amount_specified: u64) -> SwapState {
    SwapState {
        price: pool.sqrt_price_x64,
        liquidity: pool.liquidity,
        fee_growth: if zero_for_one {
            pool.fee_growth_global_0_x64
        } else {
            pool.fee_growth_global_1_x64
        },
        remaining: amount_specified,
        amount_in: 0,
        amount_out: 0,
        ticks_crossed: 0,
    }
}

/// The slot of the window that contains the pool's current tick; a tick
/// sitting exactly on the window's upper edge (where only a downward swap
/// may start) maps to the topmost slot.
#[verifier::opaque]
pub open spec fn initial_cursor(pool: PoolState, arr: TickArray) -> int {
    let raw = ((pool.tick_current - arr.start_tick_index) as int) / (arr.tick_spacing as int);
    if raw >= TICK_ARRAY_SIZE {
        TICK_ARRAY_SIZE - 1
    } else {
        raw
    }
}

/// The swap state that a finished swap's result and final pool embody.
pub open spec fn final_swap_state(res: SwapResult, pool: PoolState, zero_for_one: bool,
    amount_specified: u64) -> SwapState {
    SwapState {
        price: pool.sqrt_price_x64,
        liquidity: pool.liquidity,
        fee_growth: if zero_for_one {
            pool.fee_growth_global_0_x64
        } else {
            pool.fee_growth_global_1_x64
        },
        remaining: (amount_specified - res.amount_in) as u64,
        amount_in: res.amount_in,
        amount_out: res.amount_out,
        ticks_crossed: res.ticks_crossed as int,
    }
}


/// Executes one in-liquidity step of a downward swap toward the clamped
/// `target`: returns the new price, input-side fee growth, remaining input,
/// running totals, and whether the step consumed the whole range.  The
/// outcome is exactly `swap_down_step_spec` on the matching state.
fn exec_down_step(price: u128, liquidity: u128, fee_growth: u128, remaining: u64,
    in_total: u64, out_total: u64, target: u128, fee_rate_ppm: u32,
    Ghost(st): Ghost<SwapState>) -> (r: Result<(u128, u128, u64, u64, u64, bool), ErrorCode>)
    requires
        liquidity > 0,
        remaining > 0,
        fee_rate_ppm < 1000000,
        0 < target <= price,
        in_total + remaining <= u64::MAX,
        st == (SwapState {
            price,
            liquidity,
            fee_growth,
            remaining,
            amount_in: in_total,
            amount_out: out_total,
            ticks_crossed: st.ticks_crossed,
        }),
    ensures
        r matches Ok(t) ==> swap_down_step_spec(st, target as int, fee_rate_ppm) == Some(((
            SwapState {
            price: t.0,
            fee_growth: t.1,
            remaining: t.2,
            amount_in: t.3,
            amount_out: t.4,
            ..st
        }), t.5)),
        r matches Ok(t) ==> target <= t.0 <= price && t.1 >= fee_growth && t.3 + t.2
            == in_total + remaining && (t.5 ==> t.0 == target),
        r matches Ok(t) ==> (!t.5 ==> t.2 == 0 || (t.0 == price && t.2 == remaining
            && mul_div_floor_spec(remaining as int, 1000000 - fee_rate_ppm, 1000000) == 0)),
        r matches Err(e) ==> swap_down_step_spec(st, target as int, fee_rate_ppm) is None,
{
    proof {
        reveal(swap_down_step_spec);
        assert((remaining as int) * ((1000000 - fee_rate_ppm) as int)
            <= 0xffffffffffffffff * 1000000) by (nonlinear_arith)
            requires
                remaining <= 0xffffffffffffffffu64,
                fee_rate_ppm < 1000000,
        ;
    }
    let rn128: u128 = (remaining as u128) * ((1000000 - fee_rate_ppm) as u128) / 1000000;
    proof {
        assert(rn128 <= remaining) by (nonlinear_arith)
            requires
                rn128 == (remaining as u128) * ((1000000 - fee_rate_ppm) as u128) / 1000000,
                fee_rate_ppm < 1000000,
                (remaining as u128) * ((1000000 - fee_rate_ppm) as u128) / 1000000 * 1000000
                    + (remaining as u128) * ((1000000 - fee_rate_ppm) as u128) % 1000000
                    == (remaining as u128) * ((1000000 - fee_rate_ppm) as u128),
        ;
    }
    let remaining_net: u64 = rn128 as u64;
    let full_in: u64 = match get_amount_0_delta(liquidity, target, price, true) {
        Ok(v) => v,
        Err(e) => {
            return Err(e);
        },
    };
    if full_in <= remaining_net {
        // Full step to the target.
        let step_out: u64 = match get_amount_1_delta(liquidity, target, price, false) {
            Ok(v) => v,
            Err(e) => {
                return Err(e);
            },
        };
        let denom: u64 = 1000000 - (fee_rate_ppm as u64);
        proof {
            assert((full_in as int) * (fee_rate_ppm as int) <= 0xffffffffffffffff * 1000000)
                by (nonlinear_arith)
                requires
                    full_in <= 0xffffffffffffffffu64,
                    fee_rate_ppm < 1000000,
            ;
        }
        let fee128: u128 = ((full_in as u128) * (fee_rate_ppm as u128) + (denom as u128) - 1)
            / (denom as u128);
        let mut gross: u128 = (full_in as u128) + fee128;
        if gross > remaining as u128 {
            gross = remaining as u128;
        }
        let gross64: u64 = gross as u64;
        if gross64 < full_in {
            // remaining >= remaining_net >= full_in keeps this branch
            // unreachable; fail closed rather than let the fee underflow.
            return Err(ErrorCode::MathOverflow);
        }
        let fee: u64 = gross64 - full_in;
        let new_fee_growth: u128 = match accrue_fee_growth(fee_growth, fee, liquidity) {
            Ok(v) => v,
            Err(e) => {
                return Err(e);
            },
        };
        if out_total > u64::MAX - step_out {
            return Err(ErrorCode::MathOverflow);
        }
        Ok((target, new_fee_growth, remaining - gross64, in_total + gross64, out_total
            + step_out, true))
    } else {
        if remaining_net == 0 {
            return Ok((price, fee_growth, remaining, in_total, out_total, false));
        }
        // Terminal partial step within this range.
        let new_price: u128 = match next_price_down(price, liquidity, remaining_net, target) {
            Ok(v) => v,
            Err(e) => {
                return Err(e);
            },
        };
        let step_out: u64 = match get_amount_1_delta(liquidity, new_price, price, false) {
            Ok(v) => v,
            Err(e) => {
                return Err(e);
            },
        };
        let fee: u64 = remaining - remaining_net;
        let new_fee_growth: u128 = match accrue_fee_growth(fee_growth, fee, liquidity) {
            Ok(v) => v,
            Err(e) => {
                return Err(e);
            },
        };
        if out_total > u64::MAX - step_out {
            return Err(ErrorCode::MathOverflow);
        }
        Ok((new_price, new_fee_growth, 0, in_total + remaining, out_total + step_out, false))
    }
}

/// The symmetric in-liquidity step of an upward swap, pinned to
/// `swap_up_step_spec`.
fn exec_up_step(price: u128, liquidity: u128, fee_growth: u128, remaining: u64,
    in_total: u64, out_total: u64, target: u128, fee_rate_ppm: u32,
    Ghost(st): Ghost<SwapState>) -> (r: Result<(u128, u128, u64, u64, u64, bool), ErrorCode>)
    requires
        liquidity > 0,
        remaining > 0,
        fee_rate_ppm < 1000000,
        0 < price <= target,
        in_total + remaining <= u64::MAX,
        st == (SwapState {
            price,
            liquidity,
            fee_growth,
            remaining,
            amount_in: in_total,
            amount_out: out_total,
            ticks_crossed: st.ticks_crossed,
        }),
    ensures
        r matches Ok(t) ==> swap_up_step_spec(st, target as int, fee_rate_ppm) == Some(((
            SwapState {
            price: t.0,
            fee_growth: t.1,
            remaining: t.2,
            amount_in: t.3,
            amount_out: t.4,
            ..st
        }), t.5)),
        r matches Ok(t) ==> price <= t.0 <= target && t.1 >= fee_growth && t.3 + t.2
            == in_total + remaining && (t.5 ==> t.0 == target),
        r matches Ok(t) ==> (!t.5 ==> t.2 == 0 || (t.0 == price && t.2 == remaining
            && mul_div_floor_spec(remaining as int, 1000000 - fee_rate_ppm, 1000000) == 0)),
        r matches Err(e) ==> swap_up_step_spec(st, target as int, fee_rate_ppm) is None,
{
    proof {
        reveal(swap_up_step_spec);
        assert((remaining as int) * ((1000000 - fee_rate_ppm) as int)
            <= 0xffffffffffffffff * 1000000) by (nonlinear_arith)
            requires
                remaining <= 0xffffffffffffffffu64,
                fee_rate_ppm < 1000000,
        ;
    }
    let rn128: u128 = (remaining as u128) * ((1000000 - fee_rate_ppm) as u128) / 1000000;
    proof {
        assert(rn128 <= remaining) by (nonlinear_arith)
            requires
                rn128 == (remaining as u128) * ((1000000 - fee_rate_ppm) as u128) / 1000000,
                fee_rate_ppm < 1000000,
                (remaining as u128) * ((1000000 - fee_rate_ppm) as u128) / 1000000 * 1000000
                    + (remaining as u128) * ((1000000 - fee_rate_ppm) as u128) % 1000000
                    == (remaining as u128) * ((1000000 - fee_rate_ppm) as u128),
        ;
    }
    let remaining_net: u64 = rn128 as u64;
    let full_in: u64 = match get_amount_1_delta(liquidity, price, target, true) {
        Ok(v) => v,
        Err(e) => {
            return Err(e);
        },
    };
    if full_in <= remaining_net {
        let step_out: u64 = match get_amount_0_delta(liquidity, price, target, false) {
            Ok(v) => v,
            Err(e) => {
                return Err(e);
            },
        };
        let denom: u64 = 1000000 - (fee_rate_ppm as u64);
        proof {
            assert((full_in as int) * (fee_rate_ppm as int) <= 0xffffffffffffffff * 1000000)
                by (nonlinear_arith)
                requires
                    full_in <= 0xffffffffffffffffu64,
                    fee_rate_ppm < 1000000,
            ;
        }
        let fee128: u128 = ((full_in as u128) * (fee_rate_ppm as u128) + (denom as u128) - 1)
            / (denom as u128);
        let mut gross: u128 = (full_in as u128) + fee128;
        if gross > remaining as u128 {
            gross = remaining as u128;
        }
        let gross64: u64 = gross as u64;
        if gross64 < full_in {
            // remaining >= remaining_net >= full_in keeps this branch
            // unreachable; fail closed rather than let the fee underflow.
            return Err(ErrorCode::MathOverflow);
        }
        let fee: u64 = gross64 - full_in;
        let new_fee_growth: u128 = match accrue_fee_growth(fee_growth, fee, liquidity) {
            Ok(v) => v,
            Err(e) => {
                return Err(e);
            },
        };
        if out_total > u64::MAX - step_out {
            return Err(ErrorCode::MathOverflow);
        }
        Ok((target, new_fee_growth, remaining - gross64, in_total + gross64, out_total
            + step_out, true))
    } else {
        if remaining_net == 0 {
            return Ok((price, fee_growth, remaining, in_total, out_total, false));
        }
        let new_price: u128 = match next_price_up(price, liquidity, remaining_net, target) {
            Ok(v) => v,
            Err(e) => {
                return Err(e);
            },
        };
        let step_out: u64 = match get_amount_0_delta(liquidity, price, new_price, false) {
            Ok(v) => v,
            Err(e) => {
                return Err(e);
            },
        };
        let fee: u64 = remaining - remaining_net;
        let new_fee_growth: u128 = match accrue_fee_growth(fee_growth, fee, liquidity) {
            Ok(v) => v,
            Err(e) => {
                return Err(e);
            },
        };
        if out_total > u64::MAX - step_out {
            return Err(ErrorCode::MathOverflow);
        }
        Ok((new_price, new_fee_growth, 0, in_total + remaining, out_total + step_out, false))
    }
}

/// Swaps an exact input amount against the pool, stepping across the ticks
/// of the supplied window toward the price limit.  Advances reward streams
/// to `now` first, accrues each step's fee to the input-side fee-growth
/// accumulator, crosses every initialized tick the price passes, and stops
/// at the limit, the window's edge, or when the input is consumed.  An
/// early stop is a valid partial fill (`price_limit_reached`); any
/// arithmetic overflow aborts with no mutation.  The whole run of the
/// engine is pinned to `swap_down_spec` / `swap_up_spec`: the swap succeeds
/// exactly when the reward advance and the stepping machine do, and the
/// result and final pool embody the machine's final state.
#[verifier::rlimit(100)]
#[verifier::spinoff_prover]
pub fn swap(pool: &mut PoolState, tick_array: &mut TickArray, zero_for_one: bool,
    amount_specified: u64, sqrt_price_limit_x64: u128, fee_rate_ppm: u32, now: u64) -> (r:
    Result<SwapResult, ErrorCode>)
    requires
        old(pool).wf(),
        pool_price_consistent(*old(pool)),
        old(tick_array).wf(),
        old(tick_array).tick_spacing == old(pool).tick_spacing,
        MIN_TICK <= old(tick_array).start_tick_index,
        old(tick_array).start_tick_index + TICK_ARRAY_SIZE * old(tick_array).tick_spacing
            <= MAX_TICK,
        old(tick_array).start_tick_index <= old(pool).tick_current,
        old(pool).tick_current <= old(tick_array).start_tick_index + TICK_ARRAY_SIZE * old(
            tick_array).tick_spacing,
        !zero_for_one ==> old(pool).tick_current < old(tick_array).start_tick_index
            + TICK_ARRAY_SIZE * old(tick_array).tick_spacing,
        fee_rate_ppm < 1000000,
        zero_for_one ==> sqrt_price_spec(MIN_TICK as int) <= sqrt_price_limit_x64
            <= old(pool).sqrt_price_x64,
        !zero_for_one ==> old(pool).sqrt_price_x64 <= sqrt_price_limit_x64 <= sqrt_price_spec(
            MAX_TICK as int),
    ensures
        final(pool).wf(),
        r matches Ok(res) <==> (forall|i: int| 0 <= i < REWARD_NUM ==> reward_update_fits(
            old(pool).reward_infos@[i], now, old(pool).liquidity)) && (if zero_for_one {
            swap_down_spec(old(tick_array).ticks@, old(tick_array).start_tick_index,
                sqrt_price_limit_x64, fee_rate_ppm, initial_swap_state(*old(pool),
                zero_for_one, amount_specified), initial_cursor(*old(pool),
                *old(tick_array))) is Some
        } else {
            swap_up_spec(old(tick_array).ticks@, old(tick_array).start_tick_index,
                old(tick_array).tick_spacing, sqrt_price_limit_x64, fee_rate_ppm,
                initial_swap_state(*old(pool), zero_for_one, amount_specified),
                initial_cursor(*old(pool), *old(tick_array))) is Some
        }),
        r matches Ok(res) ==> (if zero_for_one {
            swap_down_spec(old(tick_array).ticks@, old(tick_array).start_tick_index,
                sqrt_price_limit_x64, fee_rate_ppm, initial_swap_state(*old(pool),
                zero_for_one, amount_specified), initial_cursor(*old(pool),
                *old(tick_array)))
        } else {
            swap_up_spec(old(tick_array).ticks@, old(tick_array).start_tick_index,
                old(tick_array).tick_spacing, sqrt_price_limit_x64, fee_rate_ppm,
                initial_swap_state(*old(pool), zero_for_one, amount_specified),
                initial_cursor(*old(pool), *old(tick_array)))
        }) == Some(final_swap_state(res, *final(pool), zero_for_one, amount_specified)),
        r matches Ok(res) ==> (res.price_limit_reached ==> final(pool).sqrt_price_x64
            == sqrt_price_limit_x64 || (zero_for_one && final(pool).sqrt_price_x64
            == sqrt_price_spec(old(tick_array).start_tick_index as int)) || (!zero_for_one
            && final(pool).sqrt_price_x64 == sqrt_price_spec(old(tick_array).start_tick_index
            + TICK_ARRAY_SIZE * old(tick_array).tick_spacing)) || mul_div_floor_spec(
            amount_specified - res.amount_in, 1000000 - fee_rate_ppm, 1000000) == 0),
        r matches Ok(res) ==> pool_price_consistent(*final(pool)),
        r matches Ok(res) ==> final(pool).fee_growth_global_0_x64
            >= old(pool).fee_growth_global_0_x64 && final(pool).fee_growth_global_1_x64
            >= old(pool).fee_growth_global_1_x64,
        r matches Ok(res) ==> (zero_for_one ==> final(pool).fee_growth_global_1_x64
            == old(pool).fee_growth_global_1_x64) && (!zero_for_one
            ==> final(pool).fee_growth_global_0_x64 == old(pool).fee_growth_global_0_x64),
        r matches Ok(res) ==> final(pool).reward_infos@.len() == REWARD_NUM && (forall|i: int|
            0 <= i < REWARD_NUM ==> final(pool).reward_infos@[i] == reward_slot_update(
            old(pool).reward_infos@[i], now, old(pool).liquidity)) && (forall|i: int|
            0 <= i < REWARD_NUM ==> final(pool).reward_infos@[i].growth_global_x64
            >= old(pool).reward_infos@[i].growth_global_x64),
        r matches Ok(res) ==> res.final_sqrt_price_x64 == final(pool).sqrt_price_x64
            && res.final_tick == final(pool).tick_current,
        r matches Ok(res) ==> (res.ticks_crossed == 0 ==> *final(tick_array)
            == *old(tick_array)),
        r matches Ok(res) ==> res.amount_in <= amount_specified && (res.price_limit_reached
            <==> res.amount_in < amount_specified),
        r matches Ok(res) ==> (zero_for_one ==> sqrt_price_limit_x64
            <= final(pool).sqrt_price_x64 <= old(pool).sqrt_price_x64) && (!zero_for_one
            ==> old(pool).sqrt_price_x64 <= final(pool).sqrt_price_x64
            <= sqrt_price_limit_x64),
        r matches Ok(res) ==> final(pool).tick_spacing == old(pool).tick_spacing
            && final(pool).protocol_fees_0 == old(pool).protocol_fees_0
            && final(pool).protocol_fees_1 == old(pool).protocol_fees_1,
        r matches Ok(res) ==> final(tick_array).wf() && final(tick_array).start_tick_index
            == old(tick_array).start_tick_index && final(tick_array).tick_spacing
            == old(tick_array).tick_spacing,
        r matches Err(e) ==> *final(pool) == *old(pool) && *final(tick_array)
            == *old(tick_array),
{
    // Advance reward streams to `now` (staged; committed only on success).
    let new_rewards: Vec<RewardInfo> = match pool.updated_reward_infos(now) {
        Ok(v) => v,
        Err(e) => {
            return Err(e);
        },
    };
    proof {
        assert forall|i: int| 0 <= i < REWARD_NUM implies new_rewards@[i].growth_global_x64
            >= pool.reward_infos@[i].growth_global_x64 by {
            crate::pool::lemma_reward_slot_update_monotone(pool.reward_infos@[i], now,
                pool.liquidity);
        };
    }
    let rg0: u128 = new_rewards[0].growth_global_x64;
    let rg1: u128 = new_rewards[1].growth_global_x64;
    let rg2: u128 = new_rewards[2].growth_global_x64;
    let spacing: u32 = tick_array.tick_spacing;
    let start_idx: i32 = tick_array.start_tick_index;
    let mut price: u128 = pool.sqrt_price_x64;
    let mut liquidity: u128 = pool.liquidity;
    let mut fee_growth: u128 = if zero_for_one {
        pool.fee_growth_global_0_x64
    } else {
        pool.fee_growth_global_1_x64
    };
    let mut remaining: u64 = amount_specified;
    let mut in_total: u64 = 0;
    let mut out_total: u64 = 0;
    let mut crossings: Vec<(usize, u128)> = Vec::new();
    proof {
        lemma_sqrt_price_positive(MIN_TICK as int);
        lemma_sqrt_price_mono(MIN_TICK as int, pool.tick_current as int);
        if pool.tick_current < MAX_TICK {
            lemma_sqrt_price_mono(pool.tick_current as int + 1, MAX_TICK as int);
        }
    }
    let cur_offset: u32 = (pool.tick_current - start_idx) as u32;
    let cur_slot_raw: usize = (cur_offset / spacing) as usize;
    let cur_slot: usize = if cur_slot_raw >= TICK_ARRAY_SIZE {
        TICK_ARRAY_SIZE - 1
    } else {
        cur_slot_raw
    };
    proof {
        assert(cur_offset <= TICK_ARRAY_SIZE * spacing);
        vstd::arithmetic::div_mod::lemma_fundamental_div_mod(cur_offset as int, spacing as int);
        assert((cur_offset as int) / (spacing as int) <= TICK_ARRAY_SIZE as int
            && (cur_offset as int) / (spacing as int) * (spacing as int) <= cur_offset as int
            && (cur_offset as int) < ((cur_offset as int) / (spacing as int) + 1) * (spacing
            as int)) by (nonlinear_arith)
            requires
                spacing >= 1,
                (cur_offset as int) <= (TICK_ARRAY_SIZE as int) * (spacing as int),
                cur_offset as int == (spacing as int) * ((cur_offset as int) / (spacing
                    as int)) + (cur_offset as int) % (spacing as int),
                0 <= (cur_offset as int) % (spacing as int) < spacing as int,
        ;
        // The chosen slot's tick is at or below the current tick (when the
        // raw slot is clamped, the current tick sits on the window's upper
        // edge, above the topmost slot's tick).
        assert((cur_slot as int) * spacing <= cur_offset as int) by (nonlinear_arith)
            requires
                spacing >= 1,
                cur_slot as int <= (cur_offset as int) / (spacing as int),
                (cur_offset as int) / (spacing as int) * (spacing as int)
                    <= cur_offset as int,
                cur_slot as int + 1 <= TICK_ARRAY_SIZE as int,
                (cur_offset as int) <= (TICK_ARRAY_SIZE as int) * (spacing as int),
                cur_slot_raw >= TICK_ARRAY_SIZE ==> cur_slot as int
                    == TICK_ARRAY_SIZE as int - 1,
        ;
        lemma_sqrt_price_mono(start_idx + (cur_slot as int) * spacing,
            pool.tick_current as int);
        lemma_sqrt_price_mono(start_idx as int, pool.tick_current as int);
        assert((cur_slot as int + 1) * spacing <= (TICK_ARRAY_SIZE as int) * spacing)
            by (nonlinear_arith)
            requires
                cur_slot as int + 1 <= TICK_ARRAY_SIZE as int,
                spacing >= 1,
        ;
    }
    let ghost ticks0: Seq<Tick> = tick_array.ticks@;
    let ghost st0: SwapState = initial_swap_state(*pool, zero_for_one, amount_specified);
    let ghost c0: int = initial_cursor(*pool, *tick_array);
    proof {
        reveal(initial_swap_state);
        reveal(initial_cursor);
        assert(c0 == cur_slot as int);
    }
    if zero_for_one {
        let mut cursor: i32 = cur_slot as i32;
        let mut failed: Option<ErrorCode> = None;
        loop
            invariant_except_break
                failed is None,
                sqrt_price_spec(start_idx as int) <= price,
                cursor >= 0 ==> sqrt_price_spec(start_idx + (cursor as int) * spacing)
                    <= price,
                swap_down_spec(ticks0, start_idx, sqrt_price_limit_x64, fee_rate_ppm,
                    (SwapState {
                    price,
                    liquidity,
                    fee_growth,
                    remaining,
                    amount_in: in_total,
                    amount_out: out_total,
                    ticks_crossed: crossings@.len() as int,
                }), cursor as int) == swap_down_spec(ticks0, start_idx,
                    sqrt_price_limit_x64, fee_rate_ppm, st0, c0),
            invariant
                zero_for_one,
                *pool == *old(pool),
                pool.wf(),
                tick_array.wf(),
                *tick_array == *old(tick_array),
                ticks0 == tick_array.ticks@,
                st0 == initial_swap_state(*old(pool), zero_for_one, amount_specified),
                c0 == initial_cursor(*old(pool), *old(tick_array)),
                tick_array.tick_spacing == spacing,
                tick_array.start_tick_index == start_idx,
                spacing == pool.tick_spacing,
                MIN_TICK <= start_idx,
                start_idx + TICK_ARRAY_SIZE * spacing <= MAX_TICK,
                fee_rate_ppm < 1000000,
                sqrt_price_limit_x64 <= price,
                price <= pool.sqrt_price_x64,
                sqrt_price_limit_x64 > 0,
                fee_growth >= pool.fee_growth_global_0_x64,
                in_total + remaining == amount_specified,
                -1 <= cursor < TICK_ARRAY_SIZE as i32,
                crossings@.len() + cursor <= 59,
                forall|k: int| 0 <= k < crossings@.len() ==> #[trigger] crossings@[k].0
                    < TICK_ARRAY_SIZE,
            ensures
                failed is None ==> swap_down_spec(ticks0, start_idx, sqrt_price_limit_x64,
                    fee_rate_ppm, st0, c0) == Some((SwapState {
                    price,
                    liquidity,
                    fee_growth,
                    remaining,
                    amount_in: in_total,
                    amount_out: out_total,
                    ticks_crossed: crossings@.len() as int,
                })),
                failed is None && remaining > 0 ==> price == sqrt_price_limit_x64
                    || price == sqrt_price_spec(start_idx as int) || mul_div_floor_spec(
                    remaining as int, 1000000 - fee_rate_ppm, 1000000) == 0,
                failed is Some ==> swap_down_spec(ticks0, start_idx, sqrt_price_limit_x64,
                    fee_rate_ppm, st0, c0) is None,
            decreases cursor + 1,
        {
            let ghost st_in: SwapState = SwapState {
                price,
                liquidity,
                fee_growth,
                remaining,
                amount_in: in_total,
                amount_out: out_total,
                ticks_crossed: crossings@.len() as int,
            };
            let ghost cur_in: int = cursor as int;
            if remaining == 0 || price <= sqrt_price_limit_x64 {
                proof {
                    reveal_with_fuel(swap_down_spec, 1);
                    reveal(swap_down_step_spec);
                    reveal_with_fuel(swap_down_spec, 1);
                    assert(swap_down_spec(ticks0, start_idx, sqrt_price_limit_x64,
                        fee_rate_ppm, st_in, cur_in) == Some(st_in));
                }
                break;
            }
            let found: Option<usize> = if cursor >= 0 {
                tick_array.next_initialized_slot(cursor as usize, false)
            } else {
                None
            };
            let (target_raw, cross_slot): (u128, i32) = match found {
                Some(j) => {
                    let idx: i32 = tick_array.ticks[j].index;
                    proof {
                        lemma_next_init_down_some(ticks0, cursor as int, j as int);
                        assert(idx == start_idx + (j as int) * spacing);
                        assert(0 <= (j as int) * spacing && (j as int) * spacing
                            <= (cursor as int) * spacing && (cursor as int) * spacing
                            <= (TICK_ARRAY_SIZE as int) * spacing) by (nonlinear_arith)
                            requires
                                0 <= j as int <= cursor as int <= TICK_ARRAY_SIZE as int,
                                spacing >= 1,
                        ;
                        lemma_sqrt_price_positive(idx as int);
                        lemma_sqrt_price_mono(start_idx as int, idx as int);
                        lemma_sqrt_price_mono(idx as int, start_idx + (cursor as int)
                            * spacing);
                    }
                    (sqrt_price_from_tick(idx), j as i32)
                },
                None => {
                    proof {
                        if cursor >= 0 {
                            lemma_next_init_down_none(ticks0, cursor as int);
                        }
                        lemma_sqrt_price_positive(start_idx as int);
                    }
                    (sqrt_price_from_tick(start_idx), -1)
                },
            };
            // Clamp the step target into [limit, price].
            let mut target: u128 = if target_raw >= sqrt_price_limit_x64 {
                target_raw
            } else {
                sqrt_price_limit_x64
            };
            if target > price {
                target = price;
            }
            proof {
                // The target tick (or the window edge) never sits above the
                // current price, so the clamp to `price` never engages.
                assert(target_raw <= price);
                assert(target == target_raw || target == sqrt_price_limit_x64);
            }
            let crosses: bool = cross_slot >= 0 && target == target_raw;
            if liquidity > 0 {
                let step: (u128, u128, u64, u64, u64, bool) = match exec_down_step(price, liquidity,
                    fee_growth, remaining, in_total, out_total, target, fee_rate_ppm,
                    Ghost(st_in)) {
                    Ok(t) => t,
                    Err(e) => {
                        proof {
                            reveal_with_fuel(swap_down_spec, 1);
                            assert(swap_down_spec(ticks0, start_idx, sqrt_price_limit_x64,
                                fee_rate_ppm, st_in, cur_in) is None);
                        }
                        failed = Some(e);
                        break;
                    },
                };
                let (p2, fg2, rem2, in2, out2, full): (u128, u128, u64, u64, u64, bool)
                    = step;
                let ghost st1: SwapState = SwapState {
                    price: p2,
                    fee_growth: fg2,
                    remaining: rem2,
                    amount_in: in2,
                    amount_out: out2,
                    ..st_in
                };
                price = p2;
                fee_growth = fg2;
                remaining = rem2;
                in_total = in2;
                out_total = out2;
                if full && crosses {
                    let j: usize = cross_slot as usize;
                    let net: i128 = tick_array.ticks[j].liquidity_net;
                    // Crossing downward removes the tick's net liquidity.
                    let new_liquidity: u128 = if net >= 0 {
                        let mag: u128 = net as u128;
                        if liquidity < mag {
                            proof {
                                reveal_with_fuel(swap_down_spec, 1);
                                assert(cross_down_spec(st1.liquidity, net) is None);
                                assert(swap_down_spec(ticks0, start_idx, sqrt_price_limit_x64,
                                    fee_rate_ppm, st_in, cur_in) is None);
                            }
                            failed = Some(ErrorCode::LiquidityUnderflow);
                            break;
                        }
                        liquidity - mag
                    } else {
                        let mag: u128 = ((-(net + 1)) as u128) + 1;
                        if liquidity > u128::MAX - mag {
                            proof {
                                reveal_with_fuel(swap_down_spec, 1);
                                assert(cross_down_spec(st1.liquidity, net) is None);
                                assert(swap_down_spec(ticks0, start_idx, sqrt_price_limit_x64,
                                    fee_rate_ppm, st_in, cur_in) is None);
                            }
                            failed = Some(ErrorCode::MathOverflow);
                            break;
                        }
                        liquidity + mag
                    };
                    proof {
                        assert(cross_down_spec(st1.liquidity, net) == Some(new_liquidity));
                        assert((j as int - 1) * spacing <= (j as int) * spacing)
                            by (nonlinear_arith)
                            requires
                                spacing >= 1,
                        ;
                        lemma_sqrt_price_mono(start_idx + (j as int - 1) * spacing,
                            start_idx + (j as int) * spacing);
                    }
                    crossings.push((j, fg2));
                    liquidity = new_liquidity;
                    cursor = cross_slot - 1;
                    proof {
                        reveal_with_fuel(swap_down_spec, 1);
                        assert(swap_down_spec(ticks0, start_idx, sqrt_price_limit_x64,
                            fee_rate_ppm, st_in, cur_in) == swap_down_spec(ticks0, start_idx,
                            sqrt_price_limit_x64, fee_rate_ppm, (SwapState {
                            price,
                            liquidity,
                            fee_growth,
                            remaining,
                            amount_in: in_total,
                            amount_out: out_total,
                            ticks_crossed: crossings@.len() as int,
                        }), cursor as int));
                    }
                } else {
                    proof {
                        reveal_with_fuel(swap_down_spec, 1);
                        assert(swap_down_spec(ticks0, start_idx, sqrt_price_limit_x64,
                            fee_rate_ppm, st_in, cur_in) == Some(st1));
                    }
                    break;
                }
            } else {
                // No liquidity in this span: skip it without accrual.
                let ghost st1: SwapState = SwapState { price: target, ..st_in };
                price = target;
                if crosses {
                    let j: usize = cross_slot as usize;
                    let net: i128 = tick_array.ticks[j].liquidity_net;
                    let new_liquidity: u128 = if net >= 0 {
                        let mag: u128 = net as u128;
                        if liquidity < mag {
                            proof {
                                reveal_with_fuel(swap_down_spec, 1);
                                reveal(swap_down_step_spec);
                                assert(cross_down_spec(st1.liquidity, net) is None);
                            }
                            proof {
                                reveal_with_fuel(swap_down_spec, 1);
                                reveal(swap_down_step_spec);
                                assert(swap_down_spec(ticks0, start_idx, sqrt_price_limit_x64,
                                    fee_rate_ppm, st_in, cur_in) is None);
                            }
                            failed = Some(ErrorCode::LiquidityUnderflow);
                            break;
                        }
                        liquidity - mag
                    } else {
                        let mag: u128 = ((-(net + 1)) as u128) + 1;
                        if liquidity > u128::MAX - mag {
                            proof {
                                reveal_with_fuel(swap_down_spec, 1);
                                reveal(swap_down_step_spec);
                                assert(cross_down_spec(st1.liquidity, net) is None);
                            }
                            proof {
                                reveal_with_fuel(swap_down_spec, 1);
                                reveal(swap_down_step_spec);
                                assert(swap_down_spec(ticks0, start_idx, sqrt_price_limit_x64,
                                    fee_rate_ppm, st_in, cur_in) is None);
                            }
                            failed = Some(ErrorCode::MathOverflow);
                            break;
                        }
                        liquidity + mag
                    };
                    proof {
                        reveal_with_fuel(swap_down_spec, 1);
                        reveal(swap_down_step_spec);
                        assert(cross_down_spec(st1.liquidity, net) == Some(new_liquidity));
                        assert((j as int - 1) * spacing <= (j as int) * spacing)
                            by (nonlinear_arith)
                            requires
                                spacing >= 1,
                        ;
                        lemma_sqrt_price_mono(start_idx + (j as int - 1) * spacing,
                            start_idx + (j as int) * spacing);
                    }
                    crossings.push((j, fee_growth));
                    liquidity = new_liquidity;
                    cursor = cross_slot - 1;
                    proof {
                        reveal_with_fuel(swap_down_spec, 1);
                        reveal(swap_down_step_spec);
                        assert(swap_down_spec(ticks0, start_idx, sqrt_price_limit_x64,
                            fee_rate_ppm, st_in, cur_in) == swap_down_spec(ticks0, start_idx,
                            sqrt_price_limit_x64, fee_rate_ppm, (SwapState {
                            price,
                            liquidity,
                            fee_growth,
                            remaining,
                            amount_in: in_total,
                            amount_out: out_total,
                            ticks_crossed: crossings@.len() as int,
                        }), cursor as int));
                    }
                } else {
                    proof {
                        reveal_with_fuel(swap_down_spec, 1);
                        reveal(swap_down_step_spec);
                        assert(swap_down_spec(ticks0, start_idx, sqrt_price_limit_x64,
                            fee_rate_ppm, st_in, cur_in) == Some(st1));
                    }
                    break;
                }
            }
        }
        match failed {
            Some(e) => {
                return Err(e);
            },
            None => (),
        }
        proof {
            lemma_sqrt_price_mono(MIN_TICK as int, pool.tick_current as int);
        }
        let res: SwapResult = commit_swap(pool, tick_array, new_rewards, price, liquidity,
            fee_growth, true, in_total, out_total, amount_specified, crossings, rg0, rg1,
            rg2);
        Ok(res)
    } else {
        let mut cursor: usize = cur_slot;
        let mut failed: Option<ErrorCode> = None;
        proof {
            // Upward swaps require the tick strictly inside the window, so
            // the raw slot was not clamped and the next slot's tick is
            // above the current one.
            assert(cur_slot_raw < TICK_ARRAY_SIZE && (cur_offset as int) < (cur_slot_raw
                as int + 1) * (spacing as int)) by (nonlinear_arith)
                requires
                    spacing >= 1,
                    (cur_offset as int) < (TICK_ARRAY_SIZE as int) * (spacing as int),
                    cur_offset as int == (spacing as int) * (cur_slot_raw as int) + (
                        cur_offset as int) % (spacing as int),
                    0 <= (cur_offset as int) % (spacing as int) < spacing as int,
            ;
            assert(cur_slot == cur_slot_raw);
            if pool.tick_current < MAX_TICK {
                lemma_sqrt_price_mono(pool.tick_current as int + 1, start_idx + (cur_slot
                    as int + 1) * spacing);
                lemma_sqrt_price_mono(start_idx + (cur_slot as int + 1) * spacing, start_idx
                    + TICK_ARRAY_SIZE * spacing);
            }
        }
        loop
            invariant_except_break
                failed is None,
                price <= sqrt_price_spec(start_idx + TICK_ARRAY_SIZE * spacing),
                price <= sqrt_price_spec(start_idx + (cursor as int + 1) * spacing),
                swap_up_spec(ticks0, start_idx, spacing, sqrt_price_limit_x64, fee_rate_ppm,
                    (SwapState {
                    price,
                    liquidity,
                    fee_growth,
                    remaining,
                    amount_in: in_total,
                    amount_out: out_total,
                    ticks_crossed: crossings@.len() as int,
                }), cursor as int) == swap_up_spec(ticks0, start_idx, spacing,
                    sqrt_price_limit_x64, fee_rate_ppm, st0, c0),
            invariant
                !zero_for_one,
                *pool == *old(pool),
                pool.wf(),
                tick_array.wf(),
                *tick_array == *old(tick_array),
                ticks0 == tick_array.ticks@,
                st0 == initial_swap_state(*old(pool), zero_for_one, amount_specified),
                c0 == initial_cursor(*old(pool), *old(tick_array)),
                tick_array.tick_spacing == spacing,
                tick_array.start_tick_index == start_idx,
                spacing == pool.tick_spacing,
                MIN_TICK <= start_idx,
                start_idx + TICK_ARRAY_SIZE * spacing <= MAX_TICK,
                fee_rate_ppm < 1000000,
                pool.sqrt_price_x64 <= price,
                price <= sqrt_price_limit_x64,
                price > 0,
                fee_growth >= pool.fee_growth_global_1_x64,
                in_total + remaining == amount_specified,
                cursor < TICK_ARRAY_SIZE,
                crossings@.len() <= cursor as int,
                forall|k: int| 0 <= k < crossings@.len() ==> #[trigger] crossings@[k].0
                    < TICK_ARRAY_SIZE,
            ensures
                failed is None ==> swap_up_spec(ticks0, start_idx, spacing,
                    sqrt_price_limit_x64, fee_rate_ppm, st0, c0) == Some((SwapState {
                    price,
                    liquidity,
                    fee_growth,
                    remaining,
                    amount_in: in_total,
                    amount_out: out_total,
                    ticks_crossed: crossings@.len() as int,
                })),
                failed is None && remaining > 0 ==> price == sqrt_price_limit_x64
                    || price == sqrt_price_spec(start_idx + TICK_ARRAY_SIZE * spacing)
                    || mul_div_floor_spec(remaining as int, 1000000 - fee_rate_ppm, 1000000)
                    == 0,
                failed is Some ==> swap_up_spec(ticks0, start_idx, spacing,
                    sqrt_price_limit_x64, fee_rate_ppm, st0, c0) is None,
            decreases TICK_ARRAY_SIZE - cursor,
        {
            let ghost st_in: SwapState = SwapState {
                price,
                liquidity,
                fee_growth,
                remaining,
                amount_in: in_total,
                amount_out: out_total,
                ticks_crossed: crossings@.len() as int,
            };
            let ghost cur_in: int = cursor as int;
            if remaining == 0 || price >= sqrt_price_limit_x64 {
                proof {
                    reveal_with_fuel(swap_up_spec, 1);
                    reveal(swap_up_step_spec);
                    reveal_with_fuel(swap_up_spec, 1);
                    assert(swap_up_spec(ticks0, start_idx, spacing, sqrt_price_limit_x64,
                        fee_rate_ppm, st_in, cur_in) == Some(st_in));
                }
                break;
            }
            let found: Option<usize> = if cursor + 1 < TICK_ARRAY_SIZE {
                tick_array.next_initialized_slot(cursor + 1, true)
            } else {
                None
            };
            let (target_raw, cross_slot): (u128, i32) = match found {
                Some(j) => {
                    let idx: i32 = tick_array.ticks[j].index;
                    proof {
                        lemma_next_init_up_some(ticks0, cur_in + 1, j as int);
                        assert(idx == start_idx + (j as int) * spacing);
                        assert(0 <= (cur_in + 1) * spacing && (cur_in + 1) * spacing
                            <= (j as int) * spacing && (j as int) * spacing
                            <= (TICK_ARRAY_SIZE as int) * spacing) by (nonlinear_arith)
                            requires
                                0 <= cur_in + 1 <= j as int,
                                j as int <= TICK_ARRAY_SIZE as int,
                                spacing >= 1,
                        ;
                        lemma_sqrt_price_positive(idx as int);
                        lemma_sqrt_price_mono(start_idx + (cur_in + 1) * spacing,
                            idx as int);
                        lemma_sqrt_price_mono(idx as int, start_idx + TICK_ARRAY_SIZE
                            * spacing);
                    }
                    (sqrt_price_from_tick(idx), j as i32)
                },
                None => {
                    let edge: i32 = start_idx + (TICK_ARRAY_SIZE as i32) * (spacing as i32);
                    proof {
                        if cur_in + 1 < TICK_ARRAY_SIZE as int {
                            lemma_next_init_up_none(ticks0, cur_in + 1);
                        }
                        assert((TICK_ARRAY_SIZE as int) * (spacing as int) >= 0)
                            by (nonlinear_arith)
                            requires
                                spacing >= 1,
                        ;
                        lemma_sqrt_price_positive(edge as int);
                        assert((cur_in + 1) * spacing <= (TICK_ARRAY_SIZE as int) * spacing)
                            by (nonlinear_arith)
                            requires
                                cur_in + 1 <= TICK_ARRAY_SIZE as int,
                                spacing >= 1,
                        ;
                        lemma_sqrt_price_mono(start_idx + (cur_in + 1) * spacing,
                            edge as int);
                    }
                    (sqrt_price_from_tick(edge), -1)
                },
            };
            // Clamp the step target into [price, limit].
            let mut target: u128 = if target_raw <= sqrt_price_limit_x64 {
                target_raw
            } else {
                sqrt_price_limit_x64
            };
            if target < price {
                target = price;
            }
            proof {
                assert(target_raw >= price);
                assert(target == target_raw || target == sqrt_price_limit_x64);
            }
            let crosses: bool = cross_slot >= 0 && target == target_raw;
            if liquidity > 0 {
                let step: (u128, u128, u64, u64, u64, bool) = match exec_up_step(price, liquidity,
                    fee_growth, remaining, in_total, out_total, target, fee_rate_ppm,
                    Ghost(st_in)) {
                    Ok(t) => t,
                    Err(e) => {
                        proof {
                            reveal_with_fuel(swap_up_spec, 1);
                            assert(swap_up_spec(ticks0, start_idx, spacing, sqrt_price_limit_x64,
                                fee_rate_ppm, st_in, cur_in) is None);
                        }
                        failed = Some(e);
                        break;
                    },
                };
                let (p2, fg2, rem2, in2, out2, full): (u128, u128, u64, u64, u64, bool)
                    = step;
                let ghost st1: SwapState = SwapState {
                    price: p2,
                    fee_growth: fg2,
                    remaining: rem2,
                    amount_in: in2,
                    amount_out: out2,
                    ..st_in
                };
                price = p2;
                fee_growth = fg2;
                remaining = rem2;
                in_total = in2;
                out_total = out2;
                if full && crosses {
                    let j: usize = cross_slot as usize;
                    let net: i128 = tick_array.ticks[j].liquidity_net;
                    // Crossing upward adds the tick's net liquidity.
                    let new_liquidity: u128 = if net >= 0 {
                        let mag: u128 = net as u128;
                        if liquidity > u128::MAX - mag {
                            proof {
                                reveal_with_fuel(swap_up_spec, 1);
                                assert(cross_up_spec(st1.liquidity, net) is None);
                                assert(swap_up_spec(ticks0, start_idx, spacing, sqrt_price_limit_x64,
                                    fee_rate_ppm, st_in, cur_in) is None);
                            }
                            failed = Some(ErrorCode::MathOverflow);
                            break;
                        }
                        liquidity + mag
                    } else {
                        let mag: u128 = ((-(net + 1)) as u128) + 1;
                        if liquidity < mag {
                            proof {
                                reveal_with_fuel(swap_up_spec, 1);
                                assert(cross_up_spec(st1.liquidity, net) is None);
                                assert(swap_up_spec(ticks0, start_idx, spacing, sqrt_price_limit_x64,
                                    fee_rate_ppm, st_in, cur_in) is None);
                            }
                            failed = Some(ErrorCode::LiquidityUnderflow);
                            break;
                        }
                        liquidity - mag
                    };
                    proof {
                        assert(cross_up_spec(st1.liquidity, net) == Some(new_liquidity));
                        assert((j as int) * spacing <= (j as int + 1) * spacing)
                            by (nonlinear_arith)
                            requires
                                spacing >= 1,
                        ;
                        lemma_sqrt_price_mono(start_idx + (j as int) * spacing,
                            start_idx + (j as int + 1) * spacing);
                    }
                    crossings.push((j, fg2));
                    liquidity = new_liquidity;
                    cursor = j;
                    proof {
                        reveal_with_fuel(swap_up_spec, 1);
                        assert(swap_up_spec(ticks0, start_idx, spacing, sqrt_price_limit_x64,
                            fee_rate_ppm, st_in, cur_in) == swap_up_spec(ticks0, start_idx,
                            spacing, sqrt_price_limit_x64, fee_rate_ppm, (SwapState {
                            price,
                            liquidity,
                            fee_growth,
                            remaining,
                            amount_in: in_total,
                            amount_out: out_total,
                            ticks_crossed: crossings@.len() as int,
                        }), cursor as int));
                    }
                } else {
                    proof {
                        reveal_with_fuel(swap_up_spec, 1);
                        assert(swap_up_spec(ticks0, start_idx, spacing, sqrt_price_limit_x64,
                            fee_rate_ppm, st_in, cur_in) == Some(st1));
                    }
                    break;
                }
            } else {
                let ghost st1: SwapState = SwapState { price: target, ..st_in };
                price = target;
                if crosses {
                    let j: usize = cross_slot as usize;
                    let net: i128 = tick_array.ticks[j].liquidity_net;
                    let new_liquidity: u128 = if net >= 0 {
                        let mag: u128 = net as u128;
                        if liquidity > u128::MAX - mag {
                            proof {
                                reveal_with_fuel(swap_up_spec, 1);
                                reveal(swap_up_step_spec);
                                assert(cross_up_spec(st1.liquidity, net) is None);
                            }
                            proof {
                                reveal_with_fuel(swap_up_spec, 1);
                                reveal(swap_up_step_spec);
                                assert(swap_up_spec(ticks0, start_idx, spacing, sqrt_price_limit_x64,
                                    fee_rate_ppm, st_in, cur_in) is None);
                            }
                            failed = Some(ErrorCode::MathOverflow);
                            break;
                        }
                        liquidity + mag
                    } else {
                        let mag: u128 = ((-(net + 1)) as u128) + 1;
                        if liquidity < mag {
                            proof {
                                reveal_with_fuel(swap_up_spec, 1);
                                reveal(swap_up_step_spec);
                                assert(cross_up_spec(st1.liquidity, net) is None);
                            }
                            proof {
                                reveal_with_fuel(swap_up_spec, 1);
                                reveal(swap_up_step_spec);
                                assert(swap_up_spec(ticks0, start_idx, spacing, sqrt_price_limit_x64,
                                    fee_rate_ppm, st_in, cur_in) is None);
                            }
                            failed = Some(ErrorCode::LiquidityUnderflow);
                            break;
                        }
                        liquidity - mag
                    };
                    proof {
                        reveal_with_fuel(swap_up_spec, 1);
                        reveal(swap_up_step_spec);
                        assert(cross_up_spec(st1.liquidity, net) == Some(new_liquidity));
                        assert((j as int) * spacing <= (j as int + 1) * spacing)
                            by (nonlinear_arith)
                            requires
                                spacing >= 1,
                        ;
                        lemma_sqrt_price_mono(start_idx + (j as int) * spacing, start_idx + (
                            j as int + 1) * spacing);
                    }
                    crossings.push((j, fee_growth));
                    liquidity = new_liquidity;
                    cursor = j;
                    proof {
                        reveal_with_fuel(swap_up_spec, 1);
                        reveal(swap_up_step_spec);
                        assert(swap_up_spec(ticks0, start_idx, spacing, sqrt_price_limit_x64,
                            fee_rate_ppm, st_in, cur_in) == swap_up_spec(ticks0, start_idx,
                            spacing, sqrt_price_limit_x64, fee_rate_ppm, (SwapState {
                            price,
                            liquidity,
                            fee_growth,
                            remaining,
                            amount_in: in_total,
                            amount_out: out_total,
                            ticks_crossed: crossings@.len() as int,
                        }), cursor as int));
                    }
                } else {
                    proof {
                        reveal_with_fuel(swap_up_spec, 1);
                        reveal(swap_up_step_spec);
                        assert(swap_up_spec(ticks0, start_idx, spacing,
                            sqrt_price_limit_x64, fee_rate_ppm, st_in, cur_in)
                            == Some(st1));
                    }
                    break;
                }
            }
        }
        match failed {
            Some(e) => {
                return Err(e);
            },
            None => (),
        }
        proof {
            lemma_sqrt_price_mono(MIN_TICK as int, pool.tick_current as int);
        }
        let res: SwapResult = commit_swap(pool, tick_array, new_rewards, price, liquidity,
            fee_growth, false, in_total, out_total, amount_specified, crossings, rg0, rg1,
            rg2);
        Ok(res)
    }
}

/// Writes a finished swap's staged state back into the pool and applies the
/// recorded tick crossings, each with the fee growth the accumulator had
/// when the price crossed it.
fn commit_swap(pool: &mut PoolState, tick_array: &mut TickArray, new_rewards: Vec<RewardInfo>,
    price: u128, liquidity: u128, fee_growth: u128, zero_for_one: bool, in_total: u64,
    out_total: u64, amount_specified: u64, crossings: Vec<(usize, u128)>, rg0: u128,
    rg1: u128, rg2: u128) -> (res: SwapResult)
    requires
        old(pool).wf(),
        new_rewards@.len() == REWARD_NUM,
        old(tick_array).wf(),
        sqrt_price_spec(MIN_TICK as int) <= price,
        price <= sqrt_price_spec(MAX_TICK as int),
        in_total <= amount_specified,
        crossings@.len() <= TICK_ARRAY_SIZE,
        forall|k: int| 0 <= k < crossings@.len() ==> #[trigger] crossings@[k].0
            < TICK_ARRAY_SIZE,
        zero_for_one ==> fee_growth >= old(pool).fee_growth_global_0_x64,
        !zero_for_one ==> fee_growth >= old(pool).fee_growth_global_1_x64,
    ensures
        final(pool).wf(),
        pool_price_consistent(*final(pool)),
        final(pool).sqrt_price_x64 == price,
        final(pool).liquidity == liquidity,
        final(pool).reward_infos@ == new_rewards@,
        final(pool).tick_spacing == old(pool).tick_spacing,
        final(pool).protocol_fees_0 == old(pool).protocol_fees_0,
        final(pool).protocol_fees_1 == old(pool).protocol_fees_1,
        zero_for_one ==> final(pool).fee_growth_global_0_x64 == fee_growth
            && final(pool).fee_growth_global_1_x64 == old(pool).fee_growth_global_1_x64,
        !zero_for_one ==> final(pool).fee_growth_global_1_x64 == fee_growth
            && final(pool).fee_growth_global_0_x64 == old(pool).fee_growth_global_0_x64,
        final(pool).fee_growth_global_0_x64 >= old(pool).fee_growth_global_0_x64,
        final(pool).fee_growth_global_1_x64 >= old(pool).fee_growth_global_1_x64,
        res.amount_in == in_total,
        res.amount_out == out_total,
        res.final_sqrt_price_x64 == price,
        res.final_tick == final(pool).tick_current,
        res.ticks_crossed == crossings@.len(),
        res.price_limit_reached <==> in_total < amount_specified,
        res.ticks_crossed == 0 ==> *final(tick_array) == *old(tick_array),
        final(tick_array).wf(),
        final(tick_array).start_tick_index == old(tick_array).start_tick_index,
        final(tick_array).tick_spacing == old(tick_array).tick_spacing,
{
    let final_tick: i32 = tick_from_sqrt_price(price);
    pool.reward_infos = new_rewards;
    pool.liquidity = liquidity;
    pool.sqrt_price_x64 = price;
    pool.tick_current = final_tick;
    if zero_for_one {
        pool.fee_growth_global_0_x64 = fee_growth;
    } else {
        pool.fee_growth_global_1_x64 = fee_growth;
    }
    let other_0: u128 = pool.fee_growth_global_0_x64;
    let other_1: u128 = pool.fee_growth_global_1_x64;
    let n: usize = crossings.len();
    let mut k: usize = 0;
    while k < n
        invariant
            n == crossings@.len(),
            k <= n,
            tick_array.wf(),
            tick_array.start_tick_index == old(tick_array).start_tick_index,
            tick_array.tick_spacing == old(tick_array).tick_spacing,
            n == 0 ==> *tick_array == *old(tick_array),
            forall|i: int| 0 <= i < crossings@.len() ==> #[trigger] crossings@[i].0
                < TICK_ARRAY_SIZE,
        decreases n - k,
    {
        let (j, g): (usize, u128) = crossings[k];
        let g0x: u128 = if zero_for_one {
            g
        } else {
            other_0
        };
        let g1x: u128 = if zero_for_one {
            other_1
        } else {
            g
        };
        let _ = tick_array.cross_tick_at(j, g0x, g1x, rg0, rg1, rg2);
        k = k + 1;
    }
    SwapResult {
        amount_in: in_total,
        amount_out: out_total,
        final_sqrt_price_x64: price,
        final_tick,
        ticks_crossed: n as u32,
        price_limit_reached: in_total < amount_specified,
    }
}

} // verus!
