//! Tick registry: per-tick liquidity and "outside" growth snapshots, grouped
//! into fixed-size arrays with a presence bitmap for "next initialized tick"
//! queries.
//!
//! The load-bearing invariant of the growth bookkeeping: for every
//! accumulator, `outside + inside == global` relative to the current tick,
//! and crossing a tick replaces `outside` with `global - outside` (modulo
//! 2^128).  Because every crossing updates the snapshot in the same
//! operation that moves the current tick, "growth inside a range" is always
//! computable in O(1) from the two boundary snapshots, with no rescan.

use vstd::prelude::*;
use crate::error::ErrorCode;
use crate::math::{wrap_sub_spec, wrapping_sub_u128};
use crate::tick_math::{MAX_TICK, MIN_TICK};

verus! {

/// Number of ticks held by one tick array.
pub const TICK_ARRAY_SIZE: usize = 60;

/// Cap on one tick's gross liquidity.
pub const MAX_LIQUIDITY_PER_TICK: u128 = 0x4000000000000000000000000000;

/// One tick's record.  A tick is *initialized* iff `liquidity_gross > 0`;
/// uninitialized ticks are logically absent.
#[derive(Clone, Copy, Debug, PartialEq, Eq, Structural)]
pub struct Tick {
    pub index: i32,
    /// Liquidity added when the price crosses this tick upward (subtracted
    /// downward): `+delta` contributions from ranges starting here, `-delta`
    /// from ranges ending here.
    pub liquidity_net: i128,
    /// Sum of absolute liquidity contributions referencing this tick.
    pub liquidity_gross: u128,
    pub fee_growth_outside_0_x64: u128,
    pub fee_growth_outside_1_x64: u128,
    pub reward_growth_outside_0_x64: u128,
    pub reward_growth_outside_1_x64: u128,
    pub reward_growth_outside_2_x64: u128,
}

impl Tick {
    /// An empty tick at the given index.
    pub fn empty(index: i32) -> (r: Tick)
        ensures
            r == (Tick {
                index,
                liquidity_net: 0,
                liquidity_gross: 0,
                fee_growth_outside_0_x64: 0,
                fee_growth_outside_1_x64: 0,
                reward_growth_outside_0_x64: 0,
                reward_growth_outside_1_x64: 0,
                reward_growth_outside_2_x64: 0,
            }),
    {
        Tick {
            index,
            liquidity_net: 0,
            liquidity_gross: 0,
            fee_growth_outside_0_x64: 0,
            fee_growth_outside_1_x64: 0,
            reward_growth_outside_0_x64: 0,
            reward_growth_outside_1_x64: 0,
            reward_growth_outside_2_x64: 0,
        }
    }

    /// A tick takes part in traversal exactly while it carries liquidity.
    pub open spec fn initialized(self) -> bool {
        self.liquidity_gross > 0
    }
}

/// The expected tick record after `update_tick` succeeds: gross adjusted by
/// the delta, net adjusted by the boundary-side convention, and — when the
/// tick transitions from absent to present — the "outside" snapshots seeded
/// with the convention that all growth so far happened below the current
/// tick (`outside = global` for ticks at or below it, `0` above).
pub open spec fn tick_after_update(tick: Tick, liquidity_delta: int, is_upper: bool,
    tick_current: i32, fee_growth_global_0_x64: u128, fee_growth_global_1_x64: u128,
    reward_growth_global_0_x64: u128, reward_growth_global_1_x64: u128,
    reward_growth_global_2_x64: u128) -> Tick {
    let becomes_initialized = tick.liquidity_gross == 0 && tick.liquidity_gross
        + liquidity_delta > 0;
    let seed_outside = becomes_initialized && tick.index <= tick_current;
    Tick {
        liquidity_gross: (tick.liquidity_gross + liquidity_delta) as u128,
        liquidity_net: if is_upper {
            (tick.liquidity_net - liquidity_delta) as i128
        } else {
            (tick.liquidity_net + liquidity_delta) as i128
        },
        fee_growth_outside_0_x64: if seed_outside {
            fee_growth_global_0_x64
        } else if becomes_initialized {
            0
        } else {
            tick.fee_growth_outside_0_x64
        },
        fee_growth_outside_1_x64: if seed_outside {
            fee_growth_global_1_x64
        } else if becomes_initialized {
            0
        } else {
            tick.fee_growth_outside_1_x64
        },
        reward_growth_outside_0_x64: if seed_outside {
            reward_growth_global_0_x64
        } else if becomes_initialized {
            0
        } else {
            tick.reward_growth_outside_0_x64
        },
        reward_growth_outside_1_x64: if seed_outside {
            reward_growth_global_1_x64
        } else if becomes_initialized {
            0
        } else {
            tick.reward_growth_outside_1_x64
        },
        reward_growth_outside_2_x64: if seed_outside {
            reward_growth_global_2_x64
        } else if becomes_initialized {
            0
        } else {
            tick.reward_growth_outside_2_x64
        },
        ..tick
    }
}

/// Whether applying `liquidity_delta` at this tick stays within every
/// machine bound: gross within `[0, MAX_LIQUIDITY_PER_TICK]` and net within
/// `i128`.
pub open spec fn tick_update_fits(tick: Tick, liquidity_delta: int, is_upper: bool) -> bool {
    let new_net = if is_upper {
        tick.liquidity_net - liquidity_delta
    } else {
        tick.liquidity_net + liquidity_delta
    };
    0 <= tick.liquidity_gross + liquidity_delta
        && tick.liquidity_gross + liquidity_delta <= MAX_LIQUIDITY_PER_TICK
        && i128::MIN <= new_net <= i128::MAX
}

/// The error `update_tick` reports: going below zero gross is
/// `LiquidityUnderflow`, exceeding the per-tick cap is `LiquidityOverflow`,
/// and a net outside `i128` is `MathOverflow`.
pub open spec fn tick_update_error(tick: Tick, liquidity_delta: int, is_upper: bool)
    -> ErrorCode {
    if tick.liquidity_gross + liquidity_delta < 0 {
        ErrorCode::LiquidityUnderflow
    } else if tick.liquidity_gross + liquidity_delta > MAX_LIQUIDITY_PER_TICK {
        ErrorCode::LiquidityOverflow
    } else {
        ErrorCode::MathOverflow
    }
}

/// Applies a liquidity delta to one boundary tick.  Returns whether the
/// tick flipped between absent and present — the caller must mirror every
/// flip in the bitmap, or later swaps would skip or double-visit the tick.
/// On failure the tick is untouched.
pub fn update_tick(tick: &mut Tick, liquidity_delta: i128, is_upper: bool, tick_current: i32,
    fee_growth_global_0_x64: u128, fee_growth_global_1_x64: u128,
    reward_growth_global_0_x64: u128, reward_growth_global_1_x64: u128,
    reward_growth_global_2_x64: u128) -> (r: Result<bool, ErrorCode>)
    ensures
        r matches Ok(flipped) <==> tick_update_fits(*old(tick), liquidity_delta as int,
            is_upper),
        r matches Ok(flipped) ==> *final(tick) == tick_after_update(*old(tick),
            liquidity_delta as int, is_upper, tick_current, fee_growth_global_0_x64,
            fee_growth_global_1_x64, reward_growth_global_0_x64, reward_growth_global_1_x64,
            reward_growth_global_2_x64) && flipped == (old(tick).initialized()
            != final(tick).initialized()),
        r matches Err(e) ==> *final(tick) == *old(tick) && e == tick_update_error(*old(tick),
            liquidity_delta as int, is_upper),
{
    let new_gross: u128 = if liquidity_delta >= 0 {
        let mag: u128 = liquidity_delta as u128;
        if tick.liquidity_gross > u128::MAX - mag {
            return Err(ErrorCode::LiquidityOverflow);
        }
        tick.liquidity_gross + mag
    } else {
        let mag: u128 = ((-(liquidity_delta + 1)) as u128) + 1;
        if tick.liquidity_gross < mag {
            return Err(ErrorCode::LiquidityUnderflow);
        }
        tick.liquidity_gross - mag
    };
    if new_gross > MAX_LIQUIDITY_PER_TICK {
        return Err(ErrorCode::LiquidityOverflow);
    }
    let new_net: i128 = if is_upper {
        if liquidity_delta >= 0 {
            if tick.liquidity_net < i128::MIN + liquidity_delta {
                return Err(ErrorCode::MathOverflow);
            }
            tick.liquidity_net - liquidity_delta
        } else {
            let mag_less_one: i128 = -(liquidity_delta + 1);
            if tick.liquidity_net > (i128::MAX - mag_less_one) - 1 {
                return Err(ErrorCode::MathOverflow);
            }
            (tick.liquidity_net + mag_less_one) + 1
        }
    } else {
        if liquidity_delta >= 0 {
            if tick.liquidity_net > i128::MAX - liquidity_delta {
                return Err(ErrorCode::MathOverflow);
            }
            tick.liquidity_net + liquidity_delta
        } else {
            if tick.liquidity_net < i128::MIN - liquidity_delta {
                return Err(ErrorCode::MathOverflow);
            }
            tick.liquidity_net + liquidity_delta
        }
    };
    let was_initialized: bool = tick.liquidity_gross > 0;
    let now_initialized: bool = new_gross > 0;
    if !was_initialized && now_initialized {
        if tick.index <= tick_current {
            tick.fee_growth_outside_0_x64 = fee_growth_global_0_x64;
            tick.fee_growth_outside_1_x64 = fee_growth_global_1_x64;
            tick.reward_growth_outside_0_x64 = reward_growth_global_0_x64;
            tick.reward_growth_outside_1_x64 = reward_growth_global_1_x64;
            tick.reward_growth_outside_2_x64 = reward_growth_global_2_x64;
        } else {
            tick.fee_growth_outside_0_x64 = 0;
            tick.fee_growth_outside_1_x64 = 0;
            tick.reward_growth_outside_0_x64 = 0;
            tick.reward_growth_outside_1_x64 = 0;
            tick.reward_growth_outside_2_x64 = 0;
        }
    }
    tick.liquidity_gross = new_gross;
    tick.liquidity_net = new_net;
    Ok(was_initialized != now_initialized)
}

/// The expected tick record after a crossing: every "outside" snapshot is
/// reflected to its complement against the matching global accumulator.
pub open spec fn tick_after_cross(tick: Tick, fee_growth_global_0_x64: u128,
    fee_growth_global_1_x64: u128, reward_growth_global_0_x64: u128,
    reward_growth_global_1_x64: u128, reward_growth_global_2_x64: u128) -> Tick {
    Tick {
        fee_growth_outside_0_x64: wrap_sub_spec(fee_growth_global_0_x64 as int,
            tick.fee_growth_outside_0_x64 as int) as u128,
        fee_growth_outside_1_x64: wrap_sub_spec(fee_growth_global_1_x64 as int,
            tick.fee_growth_outside_1_x64 as int) as u128,
        reward_growth_outside_0_x64: wrap_sub_spec(reward_growth_global_0_x64 as int,
            tick.reward_growth_outside_0_x64 as int) as u128,
        reward_growth_outside_1_x64: wrap_sub_spec(reward_growth_global_1_x64 as int,
            tick.reward_growth_outside_1_x64 as int) as u128,
        reward_growth_outside_2_x64: wrap_sub_spec(reward_growth_global_2_x64 as int,
            tick.reward_growth_outside_2_x64 as int) as u128,
        ..tick
    }
}

/// Crosses a tick: flips each "outside" accumulator to its complement
/// relative to the corresponding global accumulator and returns the tick's
/// net liquidity, which the caller adds (crossing up) or subtracts
/// (crossing down) from the pool's in-range liquidity.
pub fn cross_tick(tick: &mut Tick, fee_growth_global_0_x64: u128, fee_growth_global_1_x64: u128,
    reward_growth_global_0_x64: u128, reward_growth_global_1_x64: u128,
    reward_growth_global_2_x64: u128) -> (net: i128)
    ensures
        *final(tick) == tick_after_cross(*old(tick), fee_growth_global_0_x64,
            fee_growth_global_1_x64, reward_growth_global_0_x64, reward_growth_global_1_x64,
            reward_growth_global_2_x64),
        net == old(tick).liquidity_net,
{
    tick.fee_growth_outside_0_x64 = wrapping_sub_u128(fee_growth_global_0_x64,
        tick.fee_growth_outside_0_x64);
    tick.fee_growth_outside_1_x64 = wrapping_sub_u128(fee_growth_global_1_x64,
        tick.fee_growth_outside_1_x64);
    tick.reward_growth_outside_0_x64 = wrapping_sub_u128(reward_growth_global_0_x64,
        tick.reward_growth_outside_0_x64);
    tick.reward_growth_outside_1_x64 = wrapping_sub_u128(reward_growth_global_1_x64,
        tick.reward_growth_outside_1_x64);
    tick.reward_growth_outside_2_x64 = wrapping_sub_u128(reward_growth_global_2_x64,
        tick.reward_growth_outside_2_x64);
    tick.liquidity_net
}

/// Membership of bit `j` in a 64-bit presence bitmap.
pub open spec fn bit64(b: u64, j: u64) -> bool {
    (b >> j) & 1 == 1
}

proof fn lemma_bit_zero(j: u64)
    requires
        j < 64,
    ensures
        !bit64(0, j),
{
    assert((0u64 >> j) & 1 == 0) by (bit_vector)
        requires
            j < 64,
    ;
}

proof fn lemma_bit_or(b: u64, i: u64, j: u64)
    requires
        i < 64,
        j < 64,
    ensures
        bit64(b | (1u64 << i), j) == (j == i || bit64(b, j)),
{
    assert(((b | (1u64 << i)) >> j) & 1 == 1 <==> (j == i || ((b >> j) & 1 == 1)))
        by (bit_vector)
        requires
            i < 64,
            j < 64,
    ;
}

proof fn lemma_bit_clear(b: u64, i: u64, j: u64)
    requires
        i < 64,
        j < 64,
    ensures
        bit64(b & !(1u64 << i), j) == (j != i && bit64(b, j)),
{
    assert(((b & !(1u64 << i)) >> j) & 1 == 1 <==> (j != i && ((b >> j) & 1 == 1)))
        by (bit_vector)
        requires
            i < 64,
            j < 64,
    ;
}

/// A fixed-length contiguous window of ticks, the unit of lazy allocation in
/// the registry.  `bitmap` caches which slots are initialized so "next
/// initialized tick" queries need not touch the tick records.
pub struct TickArray {
    /// Index of the tick in slot 0; slot `i` holds the tick at
    /// `start_tick_index + i * tick_spacing`.
    pub start_tick_index: i32,
    pub tick_spacing: u32,
    /// Exactly `TICK_ARRAY_SIZE` ticks.
    pub ticks: Vec<Tick>,
    /// Bit `i` is set exactly when slot `i`'s tick is initialized.  Every
    /// gross-liquidity transition between zero and non-zero flips it.
    pub bitmap: u64,
}

impl TickArray {
    /// Structural well-formedness: slot indices follow the spacing grid and
    /// the bitmap mirrors which slots carry liquidity.
    pub open spec fn wf(self) -> bool {
        self.ticks@.len() == TICK_ARRAY_SIZE && self.tick_spacing >= 1 && (forall|i: int|
            0 <= i < TICK_ARRAY_SIZE as int ==> self.ticks@[i].index == self.start_tick_index
            + i * self.tick_spacing) && (forall|i: int| 0 <= i < TICK_ARRAY_SIZE as int
            ==> (bit64(self.bitmap, i as u64) <==> self.ticks@[i].initialized()))
    }

    /// Allocates the window starting at `start_tick_index`, all slots empty.
    pub fn new(start_tick_index: i32, tick_spacing: u32) -> (r: TickArray)
        requires
            tick_spacing >= 1,
            (TICK_ARRAY_SIZE - 1) * tick_spacing <= i32::MAX,
            start_tick_index + (TICK_ARRAY_SIZE - 1) * tick_spacing <= i32::MAX,
        ensures
            r.wf(),
            r.start_tick_index == start_tick_index,
            r.tick_spacing == tick_spacing,
            r.bitmap == 0,
            forall|i: int| 0 <= i < TICK_ARRAY_SIZE as int ==> !r.ticks@[i].initialized(),
    {
        let mut ticks: Vec<Tick> = Vec::new();
        let mut i: usize = 0;
        while i < TICK_ARRAY_SIZE
            invariant
                i <= TICK_ARRAY_SIZE,
                ticks@.len() == i,
                tick_spacing >= 1,
                (TICK_ARRAY_SIZE - 1) * tick_spacing <= i32::MAX,
                start_tick_index + (TICK_ARRAY_SIZE - 1) * tick_spacing <= i32::MAX,
                forall|j: int| 0 <= j < i as int ==> ticks@[j].index == start_tick_index + j
                    * tick_spacing && !ticks@[j].initialized(),
            decreases TICK_ARRAY_SIZE - i,
        {
            proof {
                assert(tick_spacing as int <= (TICK_ARRAY_SIZE - 1) * (tick_spacing as int))
                    by (nonlinear_arith)
                    requires
                        tick_spacing >= 1,
                ;
                assert((i as int) * (tick_spacing as int) <= (TICK_ARRAY_SIZE - 1) * (
                    tick_spacing as int)) by (nonlinear_arith)
                    requires
                        0 <= i as int <= TICK_ARRAY_SIZE - 1,
                        tick_spacing >= 1,
                ;
                vstd::arithmetic::mul::lemma_mul_nonnegative(i as int, tick_spacing as int);
            }
            let offset: i32 = (i as i32) * (tick_spacing as i32);
            ticks.push(Tick::empty(start_tick_index + offset));
            i = i + 1;
        }
        let r = TickArray { start_tick_index, tick_spacing, ticks, bitmap: 0 };
        proof {
            assert forall|j: int| 0 <= j < TICK_ARRAY_SIZE as int implies !#[trigger] bit64(
                r.bitmap, j as u64) by {
                lemma_bit_zero(j as u64);
            };
        }
        r
    }

    /// Returns the caller's tick-array record for this window, or
    /// materializes a fresh empty one when none exists yet.  Arrays are
    /// allocated lazily: a window gets a record only once its first tick is
    /// initialized, and the host stores the record between operations.
    pub fn get_or_create_tick_array(existing: Option<TickArray>, start_tick_index: i32,
        tick_spacing: u32) -> (r: TickArray)
        requires
            tick_spacing >= 1,
            (TICK_ARRAY_SIZE - 1) * tick_spacing <= i32::MAX,
            start_tick_index + (TICK_ARRAY_SIZE - 1) * tick_spacing <= i32::MAX,
            existing matches Some(a) ==> a.wf() && a.start_tick_index == start_tick_index
                && a.tick_spacing == tick_spacing,
        ensures
            r.wf(),
            r.start_tick_index == start_tick_index,
            r.tick_spacing == tick_spacing,
            existing matches Some(a) ==> r == a,
            existing is None ==> r.bitmap == 0 && (forall|i: int| 0 <= i < TICK_ARRAY_SIZE
                as int ==> !(#[trigger] r.ticks@[i]).initialized()),
    {
        match existing {
            Some(a) => a,
            None => TickArray::new(start_tick_index, tick_spacing),
        }
    }

    /// Applies a liquidity delta to the tick in slot `i`, flipping the
    /// bitmap bit whenever the tick transitions between absent and present.
    /// On failure the array is untouched.
    pub fn update_tick_at(&mut self, i: usize, liquidity_delta: i128, is_upper: bool,
        tick_current: i32, fee_growth_global_0_x64: u128, fee_growth_global_1_x64: u128,
        reward_growth_global_0_x64: u128, reward_growth_global_1_x64: u128,
        reward_growth_global_2_x64: u128) -> (r: Result<(), ErrorCode>)
        requires
            old(self).wf(),
            i < TICK_ARRAY_SIZE,
        ensures
            final(self).wf(),
            final(self).start_tick_index == old(self).start_tick_index,
            final(self).tick_spacing == old(self).tick_spacing,
            r matches Ok(_) <==> tick_update_fits(old(self).ticks@[i as int],
                liquidity_delta as int, is_upper),
            r matches Ok(_) ==> final(self).ticks@ == old(self).ticks@.update(i as int,
                tick_after_update(old(self).ticks@[i as int], liquidity_delta as int, is_upper,
                tick_current, fee_growth_global_0_x64, fee_growth_global_1_x64,
                reward_growth_global_0_x64, reward_growth_global_1_x64,
                reward_growth_global_2_x64)),
            r matches Err(e) ==> *final(self) == *old(self) && e == tick_update_error(
                old(self).ticks@[i as int], liquidity_delta as int, is_upper),
    {
        let mut t: Tick = self.ticks[i];
        match update_tick(&mut t, liquidity_delta, is_upper, tick_current,
            fee_growth_global_0_x64, fee_growth_global_1_x64, reward_growth_global_0_x64,
            reward_growth_global_1_x64, reward_growth_global_2_x64) {
            Ok(flipped) => {
                self.ticks.set(i, t);
                if flipped {
                    if t.liquidity_gross > 0 {
                        let ghost b0 = self.bitmap;
                        self.bitmap = self.bitmap | (1u64 << (i as u64));
                        proof {
                            assert forall|j: int| 0 <= j < TICK_ARRAY_SIZE as int implies (
                                bit64(self.bitmap, j as u64) <==> self.ticks@[j].initialized())
                                by {
                                lemma_bit_or(b0, i as u64, j as u64);
                            };
                        }
                    } else {
                        let ghost b0 = self.bitmap;
                        self.bitmap = self.bitmap & !(1u64 << (i as u64));
                        proof {
                            assert forall|j: int| 0 <= j < TICK_ARRAY_SIZE as int implies (
                                bit64(self.bitmap, j as u64) <==> self.ticks@[j].initialized())
                                by {
                                lemma_bit_clear(b0, i as u64, j as u64);
                            };
                        }
                    }
                }
                Ok(())
            },
            Err(e) => Err(e),
        }
    }

    /// Crosses the tick in slot `i` during a swap.  Crossing never changes
    /// gross liquidity, so the bitmap is untouched.  Returns the tick's net
    /// liquidity.
    pub fn cross_tick_at(&mut self, i: usize, fee_growth_global_0_x64: u128,
        fee_growth_global_1_x64: u128, reward_growth_global_0_x64: u128,
        reward_growth_global_1_x64: u128, reward_growth_global_2_x64: u128) -> (net: i128)
        requires
            old(self).wf(),
            i < TICK_ARRAY_SIZE,
        ensures
            final(self).wf(),
            final(self).start_tick_index == old(self).start_tick_index,
            final(self).tick_spacing == old(self).tick_spacing,
            final(self).ticks@ == old(self).ticks@.update(i as int, tick_after_cross(
                old(self).ticks@[i as int], fee_growth_global_0_x64, fee_growth_global_1_x64,
                reward_growth_global_0_x64, reward_growth_global_1_x64,
                reward_growth_global_2_x64)),
            net == old(self).ticks@[i as int].liquidity_net,
    {
        let mut t: Tick = self.ticks[i];
        let net: i128 = cross_tick(&mut t, fee_growth_global_0_x64, fee_growth_global_1_x64,
            reward_growth_global_0_x64, reward_growth_global_1_x64, reward_growth_global_2_x64);
        self.ticks.set(i, t);
        net
    }

    /// Finds the nearest initialized tick in the given direction from a tick
    /// index inside this window, consulting only the bitmap.  Searching up
    /// is inclusive of the slot whose span contains `from_index`.  The full
    /// characterization (nothing initialized is skipped) is on
    /// `next_initialized_slot`, which this wraps; slot `j` holds the tick at
    /// `start_tick_index + j * tick_spacing`.
    pub fn next_initialized_tick(&self, from_index: i32, search_up: bool) -> (r: Option<i32>)
        requires
            self.wf(),
            MIN_TICK <= self.start_tick_index,
            from_index <= MAX_TICK,
            self.start_tick_index <= from_index,
            from_index - self.start_tick_index < TICK_ARRAY_SIZE * self.tick_spacing,
        ensures
            r matches Some(t) ==> (exists|j: int| 0 <= j < TICK_ARRAY_SIZE as int
                && (#[trigger] self.ticks@[j]).index == t && self.ticks@[j].initialized()),
            r matches Some(t) ==> (search_up ==> t + self.tick_spacing > from_index)
                && (!search_up ==> t <= from_index),
            r matches Some(t) ==> (forall|k: int| 0 <= k < TICK_ARRAY_SIZE as int
                && (search_up ==> (#[trigger] self.ticks@[k]).index + self.tick_spacing
                > from_index && self.ticks@[k].index < t) && (!search_up
                ==> self.ticks@[k].index <= from_index && self.ticks@[k].index > t)
                ==> !self.ticks@[k].initialized()),
            r is None ==> (forall|j: int| 0 <= j < TICK_ARRAY_SIZE as int
                && (search_up ==> (#[trigger] self.ticks@[j]).index + self.tick_spacing
                > from_index) && (!search_up ==> self.ticks@[j].index <= from_index)
                ==> !self.ticks@[j].initialized()),
    {
        let offset: u32 = (from_index - self.start_tick_index) as u32;
        let slot: usize = (offset / self.tick_spacing) as usize;
        proof {
            vstd::arithmetic::div_mod::lemma_fundamental_div_mod(offset as int,
                self.tick_spacing as int);
            assert((offset as int) / (self.tick_spacing as int) < TICK_ARRAY_SIZE as int
                && (offset as int) / (self.tick_spacing as int) * (self.tick_spacing as int)
                <= offset as int && (offset as int) < (offset as int) / (self.tick_spacing
                as int) * (self.tick_spacing as int) + (self.tick_spacing as int))
                by (nonlinear_arith)
                requires
                    self.tick_spacing >= 1,
                    (offset as int) < (TICK_ARRAY_SIZE as int) * (self.tick_spacing as int),
                    offset as int == (self.tick_spacing as int) * ((offset as int) / (
                        self.tick_spacing as int)) + (offset as int) % (self.tick_spacing
                        as int),
                    0 <= (offset as int) % (self.tick_spacing as int) < self.tick_spacing
                        as int,
            ;
        }
        match self.next_initialized_slot(slot, search_up) {
            Some(j) => {
                proof {
                    let sp: int = self.tick_spacing as int;
                    let t: int = self.ticks@[j as int].index as int;
                    assert(t == self.start_tick_index + (j as int) * sp);
                    if search_up {
                        assert((slot as int) * sp <= (j as int) * sp) by (nonlinear_arith)
                            requires
                                slot as int <= j as int,
                                sp >= 1,
                        ;
                    } else {
                        assert((j as int) * sp <= (slot as int) * sp) by (nonlinear_arith)
                            requires
                                j as int <= slot as int,
                                sp >= 1,
                        ;
                    }
                    // Nothing initialized stands between `from_index` and
                    // the returned tick.
                    assert forall|k: int| 0 <= k < TICK_ARRAY_SIZE as int && (search_up
                        ==> (#[trigger] self.ticks@[k]).index + self.tick_spacing
                        > from_index && self.ticks@[k].index < t) && (!search_up
                        ==> self.ticks@[k].index <= from_index && self.ticks@[k].index > t)
                        implies !self.ticks@[k].initialized() by {
                        if search_up {
                            if k < slot as int {
                                assert(k * sp + sp <= offset as int) by (nonlinear_arith)
                                    requires
                                        k + 1 <= slot as int,
                                        sp >= 1,
                                        (slot as int) * sp <= offset as int,
                                ;
                            } else if k >= j as int {
                                assert((j as int) * sp <= k * sp) by (nonlinear_arith)
                                    requires
                                        j as int <= k,
                                        sp >= 1,
                                ;
                            } else {
                                assert(!self.ticks@[k].initialized());
                            }
                        } else {
                            if k > slot as int {
                                assert(k * sp > offset as int) by (nonlinear_arith)
                                    requires
                                        slot as int + 1 <= k,
                                        sp >= 1,
                                        (offset as int) < (slot as int) * sp + sp,
                                ;
                            } else if k <= j as int {
                                assert(k * sp <= (j as int) * sp) by (nonlinear_arith)
                                    requires
                                        k <= j as int,
                                        sp >= 1,
                                ;
                            } else {
                                assert(!self.ticks@[k].initialized());
                            }
                        }
                    };
                }
                Some(self.ticks[j].index)
            },
            None => {
                proof {
                    let sp: int = self.tick_spacing as int;
                    assert forall|j: int| 0 <= j < TICK_ARRAY_SIZE as int && (search_up
                        ==> (#[trigger] self.ticks@[j]).index + self.tick_spacing
                        > from_index) && (!search_up ==> self.ticks@[j].index <= from_index)
                        implies !self.ticks@[j].initialized() by {
                        if search_up {
                            if j < slot as int {
                                // Slots below the starting one end before
                                // `from_index`; the hypothesis rules them out.
                                assert(j * sp + sp <= offset as int) by (nonlinear_arith)
                                    requires
                                        j + 1 <= slot as int,
                                        sp >= 1,
                                        (slot as int) * sp <= offset as int,
                                ;
                            } else {
                                assert(!self.ticks@[j].initialized());
                            }
                        } else {
                            if j > slot as int {
                                assert(j * sp > offset as int) by (nonlinear_arith)
                                    requires
                                        slot as int + 1 <= j,
                                        sp >= 1,
                                        (offset as int) < (slot as int) * sp + sp,
                                ;
                            } else {
                                assert(!self.ticks@[j].initialized());
                            }
                        }
                    };
                }
                None
            },
        }
    }

    /// Finds the nearest initialized slot at or after (`search_up`) or at or
    /// before (`!search_up`) `start_slot`, consulting only the bitmap.
    pub fn next_initialized_slot(&self, start_slot: usize, search_up: bool) -> (r: Option<
        usize>)
        requires
            self.wf(),
            start_slot < TICK_ARRAY_SIZE,
        ensures
            r matches Some(j) ==> j < TICK_ARRAY_SIZE && self.ticks@[j as int].initialized()
                && (search_up ==> start_slot <= j && (forall|k: int|
                start_slot <= k && k < j as int ==> !self.ticks@[k].initialized()))
                && (!search_up ==> j <= start_slot && (forall|k: int|
                k > j as int && k <= start_slot as int ==> !self.ticks@[k].initialized())),
            r is None && search_up ==> forall|k: int| start_slot as int <= k < TICK_ARRAY_SIZE
                as int ==> !self.ticks@[k].initialized(),
            r is None && !search_up ==> forall|k: int| 0 <= k <= start_slot as int
                ==> !self.ticks@[k].initialized(),
    {
        if search_up {
            let mut j: usize = start_slot;
            while j < TICK_ARRAY_SIZE
                invariant
                    search_up,
                    self.wf(),
                    start_slot <= j <= TICK_ARRAY_SIZE,
                    forall|k: int| start_slot as int <= k < j as int
                        ==> !self.ticks@[k].initialized(),
                decreases TICK_ARRAY_SIZE - j,
            {
                let hit: bool = (self.bitmap >> (j as u64)) & 1 == 1;
                proof {
                    assert(hit == bit64(self.bitmap, j as u64));
                }
                if hit {
                    return Some(j);
                }
                j = j + 1;
            }
            None
        } else {
            let mut j: usize = start_slot;
            loop
                invariant
                    !search_up,
                    self.wf(),
                    j <= start_slot < TICK_ARRAY_SIZE,
                    forall|k: int| k > j as int && k <= start_slot as int
                        ==> !self.ticks@[k].initialized(),
                decreases j,
            {
                let hit: bool = (self.bitmap >> (j as u64)) & 1 == 1;
                proof {
                    assert(hit == bit64(self.bitmap, j as u64));
                }
                if hit {
                    return Some(j);
                }
                if j == 0 {
                    return None;
                }
                j = j - 1;
            }
        }
    }
}

} // verus!
