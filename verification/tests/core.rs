use clamm_core::error::ErrorCode;
use clamm_core::math::{mul_div_ceil, mul_div_floor, wrapping_sub_u128, Q64};
use clamm_core::pool::{
    initialize_reward, AccountRef, InitializeRewardParam, PoolState, RewardInfo,
};
use clamm_core::position::{modify_liquidity, Position};
use clamm_core::swap::{accrue_fee_growth, swap};
use clamm_core::tick::{cross_tick, Tick, TickArray, TICK_ARRAY_SIZE};
use clamm_core::tick_math::{sqrt_price_from_tick, tick_from_sqrt_price, MAX_TICK, MIN_TICK};

fn empty_position(tick_lower: i32, tick_upper: i32) -> Position {
    Position {
        tick_lower,
        tick_upper,
        liquidity: 0,
        fee_growth_inside_0_last_x64: 0,
        fee_growth_inside_1_last_x64: 0,
        reward_growth_inside_0_last_x64: 0,
        reward_growth_inside_1_last_x64: 0,
        reward_growth_inside_2_last_x64: 0,
        tokens_owed_0: 0,
        tokens_owed_1: 0,
        reward_amount_owed_0: 0,
        reward_amount_owed_1: 0,
        reward_amount_owed_2: 0,
    }
}

#[test]
fn mul_div_floor_small_values() {
    assert_eq!(mul_div_floor(6, 7, 2), Ok(21));
    assert_eq!(mul_div_floor(7, 1, 2), Ok(3));
    assert_eq!(mul_div_ceil(7, 1, 2), Ok(4));
    assert_eq!(mul_div_ceil(6, 7, 2), Ok(21));
    assert_eq!(mul_div_floor(0, 12345, 7), Ok(0));
    assert_eq!(mul_div_ceil(0, 12345, 7), Ok(0));
}

#[test]
fn mul_div_uses_wide_intermediate() {
    // The product is far beyond 128 bits; the quotient must still be exact.
    let a = 1u128 << 100;
    let b = 1u128 << 100;
    let d = 1u128 << 90;
    assert_eq!(mul_div_floor(a, b, d), Ok(1298074214633706907132624082305024));
    assert_eq!(mul_div_ceil(a, b, d), Ok(1298074214633706907132624082305024));
    assert_eq!(mul_div_floor(a, b, d + 1), Ok(1298074214633706907132624081256448));
    assert_eq!(mul_div_ceil(a, b, d + 1), Ok(1298074214633706907132624081256449));
}

#[test]
fn mul_div_divide_by_zero() {
    assert_eq!(mul_div_floor(1, 1, 0), Err(ErrorCode::DivideByZero));
    assert_eq!(mul_div_ceil(1, 1, 0), Err(ErrorCode::DivideByZero));
}

#[test]
fn mul_div_overflow() {
    assert_eq!(mul_div_floor(u128::MAX, u128::MAX, 1), Err(ErrorCode::MathOverflow));
    assert_eq!(mul_div_ceil(u128::MAX, u128::MAX, 1), Err(ErrorCode::MathOverflow));
}

#[test]
fn wrapping_sub_wraps() {
    assert_eq!(wrapping_sub_u128(5, 3), 2);
    assert_eq!(wrapping_sub_u128(0, 1), u128::MAX);
    assert_eq!(wrapping_sub_u128(3, 5), u128::MAX - 1);
}

#[test]
fn sqrt_price_known_values() {
    assert_eq!(sqrt_price_from_tick(0), Q64);
    assert_eq!(sqrt_price_from_tick(1), 18447666387855959850);
    assert_eq!(sqrt_price_from_tick(-1), 18445821805675392312);
    assert_eq!(sqrt_price_from_tick(100), 18539204128674405672);
    assert_eq!(sqrt_price_from_tick(-100), 18354745142194483702);
    assert_eq!(sqrt_price_from_tick(1000), 19392480388906834817);
}

#[test]
fn tick_price_round_trip() {
    // Round-trip stability on tick-aligned inputs.
    for t in [MIN_TICK, -100000, -1, 0, 1, 12345, 443000, MAX_TICK] {
        let p = sqrt_price_from_tick(t);
        let r = tick_from_sqrt_price(p);
        assert_eq!(sqrt_price_from_tick(r), p);
        assert_eq!(r, t);
    }
}

#[test]
fn tick_from_unaligned_price_rounds_down() {
    let p = sqrt_price_from_tick(7);
    // A price strictly between tick 7 and tick 8 belongs to tick 7.
    assert_eq!(tick_from_sqrt_price(p + 1), 7);
    assert_eq!(tick_from_sqrt_price(sqrt_price_from_tick(8) - 1), 7);
}

#[test]
fn fee_growth_exact_value() {
    // A fee of 100 units on liquidity 1_000_000 grows the accumulator by
    // exactly floor(100 * 2^64 / 1_000_000).
    assert_eq!(accrue_fee_growth(0, 100, 1_000_000), Ok(1844674407370955));
    // Zero liquidity accrues nothing, and is not an error.
    assert_eq!(accrue_fee_growth(77, 100, 0), Ok(77));
}

#[test]
fn reward_param_check() {
    let param = InitializeRewardParam {
        reward_index: 0,
        open_time: 100,
        end_time: 200,
        emissions_per_second_x64: Q64,
    };
    assert_eq!(param.check(50), Ok(()));
    // The window must not already be over.
    assert_eq!(param.check(201), Err(ErrorCode::InvalidRewardInitParam));
    let empty_window = InitializeRewardParam { open_time: 200, end_time: 200, ..param };
    assert_eq!(empty_window.check(50), Err(ErrorCode::InvalidRewardInitParam));
    let zero_rate = InitializeRewardParam { emissions_per_second_x64: 0, ..param };
    assert_eq!(zero_rate.check(50), Err(ErrorCode::InvalidRewardInitParam));
    let bad_index = InitializeRewardParam { reward_index: 3, ..param };
    assert_eq!(bad_index.check(50), Err(ErrorCode::InvalidRewardInitParam));
}

fn test_pool() -> PoolState {
    PoolState::initialize(sqrt_price_from_tick(1000), 10).unwrap()
}

#[test]
fn initialize_reward_computes_amount() {
    // open=100, end=200, rate 1.0/sec in Q64.64 => amount 100.
    let mut pool = test_pool();
    let owner = AccountRef { id: 7 };
    let param = InitializeRewardParam {
        reward_index: 0,
        open_time: 100,
        end_time: 200,
        emissions_per_second_x64: Q64,
    };
    let r = initialize_reward(&mut pool, owner, owner, 100, &param, 50, AccountRef { id: 1 },
        AccountRef { id: 2 });
    assert_eq!(r, Ok(100));
    assert_eq!(pool.reward_infos[0].emissions_per_second_x64, Q64);
    assert_eq!(pool.reward_infos[0].open_time, 100);
    assert_eq!(pool.reward_infos[0].end_time, 200);
    assert_eq!(pool.reward_infos[0].growth_global_x64, 0);
}

#[test]
fn initialize_reward_rejects_past_end_time() {
    let mut pool = test_pool();
    let owner = AccountRef { id: 7 };
    let param = InitializeRewardParam {
        reward_index: 0,
        open_time: 100,
        end_time: 200,
        emissions_per_second_x64: Q64,
    };
    let r = initialize_reward(&mut pool, owner, owner, 1000, &param, 201,
        AccountRef { id: 1 }, AccountRef { id: 2 });
    assert_eq!(r, Err(ErrorCode::InvalidRewardInitParam));
    assert_eq!(pool.reward_infos[0].emissions_per_second_x64, 0);
}

#[test]
fn initialize_reward_checks_authorization_and_funding() {
    let mut pool = test_pool();
    let owner = AccountRef { id: 7 };
    let stranger = AccountRef { id: 8 };
    let param = InitializeRewardParam {
        reward_index: 0,
        open_time: 100,
        end_time: 200,
        emissions_per_second_x64: Q64,
    };
    let r = initialize_reward(&mut pool, stranger, owner, 1000, &param, 50,
        AccountRef { id: 1 }, AccountRef { id: 2 });
    assert_eq!(r, Err(ErrorCode::NotApproved));
    // The funder balance must cover the computed amount.
    let r = initialize_reward(&mut pool, owner, owner, 99, &param, 50, AccountRef { id: 1 },
        AccountRef { id: 2 });
    assert_eq!(r, Err(ErrorCode::InsufficientFunding));
}

#[test]
fn initialize_reward_overflow_amount() {
    let mut pool = test_pool();
    let owner = AccountRef { id: 7 };
    let param = InitializeRewardParam {
        reward_index: 0,
        open_time: 0,
        end_time: u64::MAX,
        emissions_per_second_x64: 1u128 << 127,
    };
    let r = initialize_reward(&mut pool, owner, owner, u64::MAX, &param, 0,
        AccountRef { id: 1 }, AccountRef { id: 2 });
    assert_eq!(r, Err(ErrorCode::MathOverflow));
}

#[test]
fn initialize_reward_rejects_overlapping_slot() {
    let mut pool = test_pool();
    let owner = AccountRef { id: 7 };
    let param = InitializeRewardParam {
        reward_index: 0,
        open_time: 100,
        end_time: 200,
        emissions_per_second_x64: Q64,
    };
    initialize_reward(&mut pool, owner, owner, 100, &param, 50, AccountRef { id: 1 },
        AccountRef { id: 2 })
        .unwrap();
    let overlapping = InitializeRewardParam { open_time: 150, end_time: 250, ..param };
    let r = initialize_reward(&mut pool, owner, owner, 100, &overlapping, 50,
        AccountRef { id: 1 }, AccountRef { id: 2 });
    assert_eq!(r, Err(ErrorCode::InvalidRewardInitParam));
}

#[test]
fn reinitialize_expired_slot_carries_growth() {
    // A stream whose window has passed can be re-initialized, but its
    // growth accumulator never restarts: positions hold snapshots against
    // it, and no accumulator may ever decrease.
    let mut pool = test_pool();
    pool.liquidity = 1000;
    let owner = AccountRef { id: 7 };
    let param = InitializeRewardParam {
        reward_index: 0,
        open_time: 100,
        end_time: 200,
        emissions_per_second_x64: Q64,
    };
    initialize_reward(&mut pool, owner, owner, 100, &param, 50, AccountRef { id: 1 },
        AccountRef { id: 2 })
        .unwrap();
    pool.update_reward_growth(500).unwrap();
    let grown = pool.reward_infos[0].growth_global_x64;
    assert!(grown > 0);
    // New window [300, 400) does not overlap the expired [100, 200).
    let again = InitializeRewardParam { open_time: 300, end_time: 400, ..param };
    initialize_reward(&mut pool, owner, owner, 100, &again, 250, AccountRef { id: 1 },
        AccountRef { id: 2 })
        .unwrap();
    assert_eq!(pool.reward_infos[0].growth_global_x64, grown);
    assert_eq!(pool.reward_infos[0].open_time, 300);
    assert_eq!(pool.reward_infos[0].end_time, 400);
}

#[test]
fn initialize_reward_times_update_from_clock() {
    // A stream initialized mid-window starts its update clock at the
    // current timestamp, so the span before initialization is never
    // credited.
    let mut pool = test_pool();
    pool.liquidity = 1000;
    let owner = AccountRef { id: 7 };
    let param = InitializeRewardParam {
        reward_index: 0,
        open_time: 100,
        end_time: 200,
        emissions_per_second_x64: Q64,
    };
    initialize_reward(&mut pool, owner, owner, 100, &param, 150, AccountRef { id: 1 },
        AccountRef { id: 2 })
        .unwrap();
    assert_eq!(pool.reward_infos[0].last_update_time, 150);
    // Only the 10 seconds since initialization accrue.
    pool.update_reward_growth(160).unwrap();
    assert_eq!(pool.reward_infos[0].growth_global_x64, (10 * Q64) / 1000);
}

#[test]
fn update_reward_growth_accrues_and_caps_at_end_time() {
    let mut pool = test_pool();
    pool.liquidity = 1000;
    let owner = AccountRef { id: 7 };
    let param = InitializeRewardParam {
        reward_index: 0,
        open_time: 100,
        end_time: 200,
        emissions_per_second_x64: Q64,
    };
    initialize_reward(&mut pool, owner, owner, 100, &param, 50, AccountRef { id: 1 },
        AccountRef { id: 2 })
        .unwrap();
    // 10 seconds at rate 1.0 over liquidity 1000.
    pool.update_reward_growth(110).unwrap();
    assert_eq!(pool.reward_infos[0].growth_global_x64, (10 * Q64) / 1000);
    assert_eq!(pool.reward_infos[0].last_update_time, 110);
    // Past end_time the stream stops accruing but stays queryable.
    pool.update_reward_growth(500).unwrap();
    assert_eq!(pool.reward_infos[0].growth_global_x64, (100 * Q64) / 1000);
}

#[test]
fn update_reward_growth_idempotent() {
    let mut pool = test_pool();
    pool.liquidity = 1000;
    let owner = AccountRef { id: 7 };
    let param = InitializeRewardParam {
        reward_index: 0,
        open_time: 100,
        end_time: 200,
        emissions_per_second_x64: Q64,
    };
    initialize_reward(&mut pool, owner, owner, 100, &param, 50, AccountRef { id: 1 },
        AccountRef { id: 2 })
        .unwrap();
    pool.update_reward_growth(150).unwrap();
    let snapshot: RewardInfo = pool.reward_infos[0];
    // A second advance to the same time is a no-op.
    pool.update_reward_growth(150).unwrap();
    assert_eq!(pool.reward_infos[0], snapshot);
}

#[test]
fn cross_tick_reflects_outside_growth() {
    let mut t = Tick::empty(0);
    t.fee_growth_outside_0_x64 = 5;
    t.fee_growth_outside_1_x64 = 2;
    t.liquidity_net = 44;
    let net = cross_tick(&mut t, 12, 9, 0, 0, 0);
    assert_eq!(net, 44);
    assert_eq!(t.fee_growth_outside_0_x64, 7);
    assert_eq!(t.fee_growth_outside_1_x64, 7);
    // Crossing back restores the original snapshot while globals stand.
    cross_tick(&mut t, 12, 9, 0, 0, 0);
    assert_eq!(t.fee_growth_outside_0_x64, 5);
    assert_eq!(t.fee_growth_outside_1_x64, 2);
}

#[test]
fn tick_array_bitmap_tracks_liquidity() {
    let mut arr = TickArray::new(0, 10);
    assert_eq!(arr.next_initialized_slot(0, true), None);
    arr.update_tick_at(3, 500, false, 1000, 0, 0, 0, 0, 0).unwrap();
    arr.update_tick_at(7, 800, true, 1000, 0, 0, 0, 0, 0).unwrap();
    assert_eq!(arr.next_initialized_slot(0, true), Some(3));
    assert_eq!(arr.next_initialized_slot(4, true), Some(7));
    assert_eq!(arr.next_initialized_slot(TICK_ARRAY_SIZE - 1, false), Some(7));
    assert_eq!(arr.next_initialized_slot(2, false), None);
    // Removing the liquidity clears the bit again.
    arr.update_tick_at(3, -500, false, 1000, 0, 0, 0, 0, 0).unwrap();
    assert_eq!(arr.next_initialized_slot(0, true), Some(7));
}

#[test]
fn next_initialized_tick_by_index() {
    let mut arr = TickArray::new(0, 10);
    arr.update_tick_at(3, 500, false, 1000, 0, 0, 0, 0, 0).unwrap();
    arr.update_tick_at(7, 800, true, 1000, 0, 0, 0, 0, 0).unwrap();
    assert_eq!(arr.next_initialized_tick(0, true), Some(30));
    // Searching up is inclusive of the slot containing the start index.
    assert_eq!(arr.next_initialized_tick(35, true), Some(30));
    assert_eq!(arr.next_initialized_tick(40, true), Some(70));
    assert_eq!(arr.next_initialized_tick(599, false), Some(70));
    assert_eq!(arr.next_initialized_tick(29, false), None);
    assert_eq!(arr.next_initialized_tick(80, true), None);
}

#[test]
fn update_tick_rejects_underflow() {
    let mut arr = TickArray::new(0, 10);
    let r = arr.update_tick_at(3, -1, false, 1000, 0, 0, 0, 0, 0);
    assert_eq!(r, Err(ErrorCode::LiquidityUnderflow));
}

#[test]
fn modify_liquidity_below_range_needs_only_token_1() {
    // Both bounds below the current tick: a deposit requires only token 1.
    let mut pool = test_pool();
    let mut tl = Tick::empty(0);
    let mut tu = Tick::empty(500);
    let mut pos = empty_position(0, 500);
    let (a0, a1) = modify_liquidity(&mut pool, &mut tl, &mut tu, &mut pos, 1_000_000, 0)
        .unwrap();
    assert_eq!(a0, 0);
    assert_eq!(a1, 25314);
    assert_eq!(pos.liquidity, 1_000_000);
    // The range does not contain the current tick, so in-range liquidity is
    // untouched.
    assert_eq!(pool.liquidity, 0);
    assert_eq!(tl.liquidity_gross, 1_000_000);
    assert_eq!(tl.liquidity_net, 1_000_000);
    assert_eq!(tu.liquidity_net, -1_000_000);
}

#[test]
fn modify_liquidity_in_range_updates_pool_liquidity() {
    let mut pool = test_pool();
    let mut tl = Tick::empty(500);
    let mut tu = Tick::empty(1500);
    let mut pos = empty_position(500, 1500);
    let (a0, a1) = modify_liquidity(&mut pool, &mut tl, &mut tu, &mut pos, 1_000_000, 0)
        .unwrap();
    assert!(a0 > 0);
    assert!(a1 > 0);
    // The position's range contains the current tick: the pool's in-range
    // liquidity equals the sum over in-range positions.
    assert_eq!(pool.liquidity, 1_000_000);
    // Withdrawing restores it.
    let (w0, w1) = modify_liquidity(&mut pool, &mut tl, &mut tu, &mut pos, -1_000_000, 0)
        .unwrap();
    assert_eq!(pool.liquidity, 0);
    assert_eq!(pos.liquidity, 0);
    // Deposits round up (owed to the pool), withdrawals round down.
    assert!(w0 <= a0);
    assert!(w1 <= a1);
}

#[test]
fn modify_liquidity_rejects_bad_ranges() {
    let mut pool = test_pool();
    let mut tl = Tick::empty(500);
    let mut tu = Tick::empty(500);
    let mut pos = empty_position(500, 500);
    let r = modify_liquidity(&mut pool, &mut tl, &mut tu, &mut pos, 1, 0);
    assert_eq!(r, Err(ErrorCode::InvalidRange));
    // Misaligned to the tick spacing of 10.
    let mut tl = Tick::empty(501);
    let mut tu = Tick::empty(600);
    let mut pos = empty_position(501, 600);
    let r = modify_liquidity(&mut pool, &mut tl, &mut tu, &mut pos, 1, 0);
    assert_eq!(r, Err(ErrorCode::InvalidRange));
    let mut tl = Tick::empty(500);
    let mut tu = Tick::empty(443640);
    let mut pos = empty_position(500, 443640);
    let r = modify_liquidity(&mut pool, &mut tl, &mut tu, &mut pos, 1, 0);
    assert_eq!(r, Err(ErrorCode::InvalidRange));
}

#[test]
fn modify_liquidity_negative_range() {
    // A range on the negative side of the grid, still below the current
    // tick, also needs only token 1.
    let mut pool = test_pool();
    let mut tl = Tick::empty(-200);
    let mut tu = Tick::empty(-100);
    let mut pos = empty_position(-200, -100);
    let (a0, a1) = modify_liquidity(&mut pool, &mut tl, &mut tu, &mut pos, 1_000_000, 0)
        .unwrap();
    assert_eq!(a0, 0);
    assert!(a1 > 0);
}

#[test]
fn tick_array_get_or_create() {
    let arr = TickArray::get_or_create_tick_array(None, 600, 10);
    assert_eq!(arr.start_tick_index, 600);
    assert_eq!(arr.bitmap, 0);
    let mut seeded = TickArray::new(600, 10);
    seeded.update_tick_at(4, 100, false, 0, 0, 0, 0, 0, 0).unwrap();
    let again = TickArray::get_or_create_tick_array(Some(seeded), 600, 10);
    assert_eq!(again.ticks[4].liquidity_gross, 100);
}

#[test]
fn modify_liquidity_withdraw_below_zero() {
    let mut pool = test_pool();
    let mut tl = Tick::empty(500);
    let mut tu = Tick::empty(1500);
    let mut pos = empty_position(500, 1500);
    let r = modify_liquidity(&mut pool, &mut tl, &mut tu, &mut pos, -5, 0);
    assert_eq!(r, Err(ErrorCode::LiquidityUnderflow));
}

fn swap_pool() -> PoolState {
    // A pool whose current tick sits inside the [0, 600) window of a
    // 60-slot, spacing-10 tick array starting at 0.
    PoolState::initialize(sqrt_price_from_tick(300), 10).unwrap()
}

#[test]
fn swap_zero_crossings_leaves_ticks_untouched() {
    // A swap that crosses no tick leaves every outside snapshot unchanged.
    let mut pool = swap_pool();
    let mut arr = TickArray::new(0, 10);
    let mut tl = Tick::empty(0);
    let mut tu = Tick::empty(6000);
    let mut pos = empty_position(0, 6000);
    modify_liquidity(&mut pool, &mut tl, &mut tu, &mut pos, 10_000_000_000, 0).unwrap();
    arr.update_tick_at(0, 10_000_000_000, false, pool.tick_current, 0, 0, 0, 0, 0).unwrap();
    let before_crossable = arr.ticks[0];
    let before_plain = arr.ticks[20];
    let limit = sqrt_price_from_tick(290);
    let res = swap(&mut pool, &mut arr, true, 1000, limit, 3000, 0).unwrap();
    assert_eq!(res.ticks_crossed, 0);
    assert_eq!(arr.ticks[0], before_crossable);
    assert_eq!(arr.ticks[20], before_plain);
    assert!(res.amount_in > 0);
    assert!(!res.price_limit_reached);
    assert_eq!(res.amount_in, 1000);
}

#[test]
fn swap_moves_price_and_accrues_fees() {
    let mut pool = swap_pool();
    let mut arr = TickArray::new(0, 10);
    let mut tl = Tick::empty(0);
    let mut tu = Tick::empty(6000);
    let mut pos = empty_position(0, 6000);
    modify_liquidity(&mut pool, &mut tl, &mut tu, &mut pos, 10_000_000_000, 0).unwrap();
    let start_price = pool.sqrt_price_x64;
    let fee_before = pool.fee_growth_global_0_x64;
    let limit = sqrt_price_from_tick(200);
    let res = swap(&mut pool, &mut arr, true, 100_000, limit, 3000, 0).unwrap();
    // Price moved down toward the limit; fees grew; output was produced.
    assert!(pool.sqrt_price_x64 < start_price);
    assert!(pool.sqrt_price_x64 >= limit);
    assert!(pool.fee_growth_global_0_x64 > fee_before);
    assert_eq!(pool.fee_growth_global_1_x64, 0);
    assert!(res.amount_out > 0);
    assert_eq!(res.final_sqrt_price_x64, pool.sqrt_price_x64);
}

#[test]
fn swap_crosses_initialized_tick() {
    let mut pool = swap_pool();
    let mut arr = TickArray::new(0, 10);
    // Liquidity over [100, 6000): tick 100 sits in slot 10.
    let mut tl = Tick::empty(100);
    let mut tu = Tick::empty(6000);
    let mut pos = empty_position(100, 6000);
    modify_liquidity(&mut pool, &mut tl, &mut tu, &mut pos, 10_000_000_000, 0).unwrap();
    arr.update_tick_at(10, 10_000_000_000, false, pool.tick_current, 0, 0, 0, 0, 0).unwrap();
    assert_eq!(pool.liquidity, 10_000_000_000);
    // Swap down across tick 100 to the limit.
    let limit = sqrt_price_from_tick(50);
    let res = swap(&mut pool, &mut arr, true, u64::MAX / 2, limit, 3000, 0).unwrap();
    assert_eq!(res.ticks_crossed, 1);
    // Below the range the liquidity is out of range again.
    assert_eq!(pool.liquidity, 0);
    assert!(res.price_limit_reached);
    assert_eq!(pool.sqrt_price_x64, limit);
    // The crossed tick's outside snapshot was reflected against the global.
    assert_eq!(arr.ticks[10].fee_growth_outside_0_x64, pool.fee_growth_global_0_x64);
}

#[test]
fn position_collects_swap_fees() {
    let mut pool = swap_pool();
    let mut arr = TickArray::new(0, 10);
    let mut tl = Tick::empty(0);
    let mut tu = Tick::empty(6000);
    let mut pos = empty_position(0, 6000);
    let liquidity: u128 = 10_000_000_000;
    modify_liquidity(&mut pool, &mut tl, &mut tu, &mut pos, liquidity as i128, 0).unwrap();
    let limit = sqrt_price_from_tick(250);
    swap(&mut pool, &mut arr, true, 100_000, limit, 3000, 0).unwrap();
    let growth = pool.fee_growth_global_0_x64;
    assert!(growth > 0);
    // A zero-delta touch credits the fees accrued since the last snapshot.
    modify_liquidity(&mut pool, &mut tl, &mut tu, &mut pos, 0, 0).unwrap();
    assert_eq!(pos.tokens_owed_0 as u128, (liquidity * growth) >> 64);
    assert_eq!(pos.fee_growth_inside_0_last_x64, growth);
}

#[test]
fn swap_up_direction_accrues_to_token_1_side() {
    let mut pool = swap_pool();
    let mut arr = TickArray::new(0, 10);
    let mut tl = Tick::empty(0);
    let mut tu = Tick::empty(6000);
    let mut pos = empty_position(0, 6000);
    modify_liquidity(&mut pool, &mut tl, &mut tu, &mut pos, 10_000_000_000, 0).unwrap();
    let start_price = pool.sqrt_price_x64;
    let limit = sqrt_price_from_tick(400);
    let res = swap(&mut pool, &mut arr, false, 100_000, limit, 3000, 0).unwrap();
    // Price rose toward the limit; the input-side (token 1) accumulator
    // grew and the token-0 side is untouched.
    assert!(pool.sqrt_price_x64 > start_price);
    assert!(pool.sqrt_price_x64 <= limit);
    assert!(pool.fee_growth_global_1_x64 > 0);
    assert_eq!(pool.fee_growth_global_0_x64, 0);
    assert!(res.amount_out > 0);
    assert_eq!(res.amount_in, 100_000);
    assert!(!res.price_limit_reached);
    assert_eq!(res.ticks_crossed, 0);
}

#[test]
fn swap_down_resumes_at_window_boundary() {
    // A pool whose tick sits exactly on a window's upper edge can still
    // swap downward through that window, so a swap stopped at the edge of
    // one window can resume in the next lower one.
    let mut pool = PoolState::initialize(sqrt_price_from_tick(600), 10).unwrap();
    let mut arr = TickArray::new(0, 10);
    let mut tl = Tick::empty(0);
    let mut tu = Tick::empty(6000);
    let mut pos = empty_position(0, 6000);
    modify_liquidity(&mut pool, &mut tl, &mut tu, &mut pos, 10_000_000_000, 0).unwrap();
    let limit = sqrt_price_from_tick(590);
    let res = swap(&mut pool, &mut arr, true, u64::MAX / 2, limit, 3000, 0).unwrap();
    assert_eq!(pool.sqrt_price_x64, limit);
    assert!(res.amount_out > 0);
    assert!(res.price_limit_reached);
}

#[test]
fn fee_growth_monotone_across_operations() {
    let mut pool = swap_pool();
    let mut arr = TickArray::new(0, 10);
    let mut tl = Tick::empty(0);
    let mut tu = Tick::empty(6000);
    let mut pos = empty_position(0, 6000);
    let mut last_fee0 = pool.fee_growth_global_0_x64;
    let mut last_reward: u128;
    modify_liquidity(&mut pool, &mut tl, &mut tu, &mut pos, 10_000_000_000, 0).unwrap();
    assert!(pool.fee_growth_global_0_x64 >= last_fee0);
    let owner = AccountRef { id: 7 };
    let param = InitializeRewardParam {
        reward_index: 0,
        open_time: 0,
        end_time: 1000,
        emissions_per_second_x64: Q64,
    };
    initialize_reward(&mut pool, owner, owner, 1000, &param, 0, AccountRef { id: 1 },
        AccountRef { id: 2 })
        .unwrap();
    for now in [10u64, 20, 30] {
        last_fee0 = pool.fee_growth_global_0_x64;
        last_reward = pool.reward_infos[0].growth_global_x64;
        let limit = sqrt_price_from_tick(pool.tick_current - 20);
        swap(&mut pool, &mut arr, true, 10_000, limit, 3000, now).unwrap();
        assert!(pool.fee_growth_global_0_x64 >= last_fee0);
        assert!(pool.reward_infos[0].growth_global_x64 >= last_reward);
    }
}

#[test]
fn pool_initialize_validates_price() {
    assert!(PoolState::initialize(sqrt_price_from_tick(0), 1).is_ok());
    assert_eq!(PoolState::initialize(0, 1).err(), Some(ErrorCode::InvalidRange));
    assert_eq!(PoolState::initialize(u128::MAX, 1).err(), Some(ErrorCode::InvalidRange));
    assert_eq!(PoolState::initialize(Q64, 0).err(), Some(ErrorCode::InvalidRange));
    let pool = PoolState::initialize(sqrt_price_from_tick(123) + 5, 1).unwrap();
    assert_eq!(pool.get_tick_current(), 123);
    assert_eq!(pool.get_sqrt_price(), sqrt_price_from_tick(123) + 5);
    assert_eq!(pool.get_liquidity(), 0);
}
