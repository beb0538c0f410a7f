//! Pool state: current price and tick, in-range liquidity, global fee growth
//! accumulators, protocol fee reserves, and the reward streams with their
//! schedules.  Also the reward engine that advances reward accumulators.

use vstd::prelude::*;
use vstd::arithmetic::div_mod::lemma_div_pos_is_pos;
use vstd::arithmetic::mul::lemma_mul_nonnegative;
use crate::error::ErrorCode;
use crate::math::{mul_div_floor, mul_div_floor_spec, Q64};

verus! {

/// Number of independent reward streams a pool can carry.
pub const REWARD_NUM: usize = 3;

/// Opaque reference to an external account (a mint, a vault, an owner).  The
/// core only stores and compares such references; resolving them is the
/// host's business.
#[derive(Clone, Copy, Debug, PartialEq, Eq, Structural)]
pub struct AccountRef {
    pub id: u64,
}

/// One reward stream: its token references, emission schedule, and the
/// per-unit-liquidity growth accumulator.
#[derive(Clone, Copy, Debug, PartialEq, Eq, Structural)]
pub struct RewardInfo {
    pub mint_ref: AccountRef,
    pub vault_ref: AccountRef,
    /// Tokens emitted per second per unit of liquidity, Q64.64 fixed point.
    pub emissions_per_second_x64: u128,
    /// Accumulated reward per unit of liquidity, Q64.64 fixed point.
    /// Non-decreasing across every operation.
    pub growth_global_x64: u128,
    pub last_update_time: u64,
    pub open_time: u64,
    pub end_time: u64,
}

impl RewardInfo {
    /// An empty (never initialized) reward slot.
    pub fn empty() -> (r: RewardInfo)
        ensures
            r == (RewardInfo {
                mint_ref: AccountRef { id: 0 },
                vault_ref: AccountRef { id: 0 },
                emissions_per_second_x64: 0,
                growth_global_x64: 0,
                last_update_time: 0,
                open_time: 0,
                end_time: 0,
            }),
    {
        RewardInfo {
            mint_ref: AccountRef { id: 0 },
            vault_ref: AccountRef { id: 0 },
            emissions_per_second_x64: 0,
            growth_global_x64: 0,
            last_update_time: 0,
            open_time: 0,
            end_time: 0,
        }
    }

    /// A slot is active once a non-zero emission rate has been set for it.
    pub open spec fn active(self) -> bool {
        self.emissions_per_second_x64 != 0
    }
}

/// Seconds of emission owed since the last update: the overlap of
/// `[last_update_time, now]` with the stream's `[open_time, end_time]`
/// window, clamped to be non-negative.
pub open spec fn reward_elapsed(info: RewardInfo, now: u64) -> int {
    let lower: int = if info.last_update_time >= info.open_time {
        info.last_update_time as int
    } else {
        info.open_time as int
    };
    let upper: int = if now <= info.end_time {
        now as int
    } else {
        info.end_time as int
    };
    if upper >= lower {
        upper - lower
    } else {
        0
    }
}

/// Growth added to a stream's accumulator by advancing it to `now` with the
/// pool's current liquidity as denominator (floor rounding).  Zero when the
/// pool has no in-range liquidity.
pub open spec fn reward_delta(info: RewardInfo, now: u64, liquidity: u128) -> int {
    if liquidity > 0 {
        mul_div_floor_spec(reward_elapsed(info, now), info.emissions_per_second_x64 as int,
            liquidity as int)
    } else {
        0
    }
}

/// The value of one reward slot after `update_reward_growth(now)`: an active
/// stream accrues `reward_delta` and records `now` as its last update (even
/// when no growth accrued, so a stale interval is never re-credited); an
/// inactive slot is untouched.
pub open spec fn reward_slot_update(info: RewardInfo, now: u64, liquidity: u128) -> RewardInfo {
    if info.active() {
        RewardInfo {
            growth_global_x64: (info.growth_global_x64 + reward_delta(info, now, liquidity))
                as u128,
            last_update_time: now,
            ..info
        }
    } else {
        info
    }
}

/// Whether advancing one slot to `now` stays within 128 bits.
pub open spec fn reward_update_fits(info: RewardInfo, now: u64, liquidity: u128) -> bool {
    !info.active() || (reward_delta(info, now, liquidity) <= u128::MAX
        && info.growth_global_x64 + reward_delta(info, now, liquidity) <= u128::MAX)
}

/// The pool record: single authority for the current price, tick, in-range
/// liquidity and all global accumulators.
#[derive(Clone, Debug)]
pub struct PoolState {
    /// Square root of the pool price, Q64.64 fixed point.
    pub sqrt_price_x64: u128,
    /// Tick whose price is the greatest tick price at or below `sqrt_price_x64`.
    pub tick_current: i32,
    /// Spacing that position boundaries must align to.
    pub tick_spacing: u32,
    /// Liquidity currently in range.
    pub liquidity: u128,
    /// Fee per unit of liquidity collected in token 0, Q64.64.  Non-decreasing.
    pub fee_growth_global_0_x64: u128,
    /// Fee per unit of liquidity collected in token 1, Q64.64.  Non-decreasing.
    pub fee_growth_global_1_x64: u128,
    pub protocol_fees_0: u64,
    pub protocol_fees_1: u64,
    /// Exactly `REWARD_NUM` reward slots.
    pub reward_infos: Vec<RewardInfo>,
}

impl PoolState {
    /// Structural well-formedness: the reward slot vector always holds
    /// exactly `REWARD_NUM` entries, and the tick spacing is a positive
    /// step that fits a signed tick index.
    pub open spec fn wf(self) -> bool {
        self.reward_infos@.len() == REWARD_NUM && 1 <= self.tick_spacing <= 0x7fffffff
    }

    /// Creates a pool at an initial price.  The price must lie within the
    /// supported tick range and the tick spacing must be a positive step
    /// that fits a signed tick index; otherwise `InvalidRange`.
    pub fn initialize(initial_sqrt_price_x64: u128, tick_spacing: u32) -> (r: Result<PoolState,
        ErrorCode>)
        ensures
            r matches Ok(p) <==> (1 <= tick_spacing <= 0x7fffffff
                && crate::tick_math::sqrt_price_spec(crate::tick_math::MIN_TICK as int)
                <= initial_sqrt_price_x64 && initial_sqrt_price_x64
                <= crate::tick_math::sqrt_price_spec(crate::tick_math::MAX_TICK as int)),
            r matches Ok(p) ==> p.wf() && crate::position::pool_price_consistent(p)
                && p.sqrt_price_x64 == initial_sqrt_price_x64 && p.tick_spacing == tick_spacing
                && p.liquidity == 0 && p.fee_growth_global_0_x64 == 0
                && p.fee_growth_global_1_x64 == 0 && p.protocol_fees_0 == 0
                && p.protocol_fees_1 == 0 && (forall|i: int| 0 <= i < REWARD_NUM
                ==> !(#[trigger] p.reward_infos@[i]).active()),
            r matches Err(e) ==> e == ErrorCode::InvalidRange,
    {
        if tick_spacing < 1 || tick_spacing > 0x7fffffff {
            return Err(ErrorCode::InvalidRange);
        }
        let min_price: u128 = crate::tick_math::sqrt_price_from_tick(
            crate::tick_math::MIN_TICK);
        let max_price: u128 = crate::tick_math::sqrt_price_from_tick(
            crate::tick_math::MAX_TICK);
        if initial_sqrt_price_x64 < min_price || initial_sqrt_price_x64 > max_price {
            return Err(ErrorCode::InvalidRange);
        }
        let tick_current: i32 = crate::tick_math::tick_from_sqrt_price(
            initial_sqrt_price_x64);
        let mut reward_infos: Vec<RewardInfo> = Vec::new();
        reward_infos.push(RewardInfo::empty());
        reward_infos.push(RewardInfo::empty());
        reward_infos.push(RewardInfo::empty());
        Ok(PoolState {
            sqrt_price_x64: initial_sqrt_price_x64,
            tick_current,
            tick_spacing,
            liquidity: 0,
            fee_growth_global_0_x64: 0,
            fee_growth_global_1_x64: 0,
            protocol_fees_0: 0,
            protocol_fees_1: 0,
            reward_infos,
        })
    }

    /// The pool's current Q64.64 sqrt-price.
    pub fn get_sqrt_price(&self) -> (r: u128)
        ensures
            r == self.sqrt_price_x64,
    {
        self.sqrt_price_x64
    }

    /// The pool's current tick.
    pub fn get_tick_current(&self) -> (r: i32)
        ensures
            r == self.tick_current,
    {
        self.tick_current
    }

    /// The pool's current in-range liquidity.
    pub fn get_liquidity(&self) -> (r: u128)
        ensures
            r == self.liquidity,
    {
        self.liquidity
    }

    /// Computes, without mutating the pool, the reward slots as they stand
    /// after advancing every active stream to `now`.
    pub fn updated_reward_infos(&self, now: u64) -> (r: Result<Vec<RewardInfo>, ErrorCode>)
        requires
            self.wf(),
        ensures
            r matches Ok(v) <==> (forall|i: int| 0 <= i < REWARD_NUM
                ==> reward_update_fits(self.reward_infos@[i], now, self.liquidity)),
            r matches Ok(v) ==> v@.len() == REWARD_NUM && forall|i: int| 0 <= i < REWARD_NUM
                ==> v@[i] == reward_slot_update(self.reward_infos@[i], now, self.liquidity),
            r matches Err(e) ==> e == ErrorCode::MathOverflow,
    {
        let mut updated: Vec<RewardInfo> = Vec::new();
        let mut i: usize = 0;
        while i < REWARD_NUM
            invariant
                self.wf(),
                i <= REWARD_NUM,
                updated@.len() == i,
                forall|j: int| 0 <= j < i ==> reward_update_fits(self.reward_infos@[j], now,
                    self.liquidity),
                forall|j: int| 0 <= j < i ==> updated@[j] == reward_slot_update(
                    self.reward_infos@[j], now, self.liquidity),
            decreases REWARD_NUM - i,
        {
            let info: RewardInfo = self.reward_infos[i];
            if info.emissions_per_second_x64 == 0 {
                updated.push(info);
            } else {
                let lower: u64 = if info.last_update_time >= info.open_time {
                    info.last_update_time
                } else {
                    info.open_time
                };
                let upper: u64 = if now <= info.end_time {
                    now
                } else {
                    info.end_time
                };
                let elapsed: u64 = if upper >= lower {
                    upper - lower
                } else {
                    0
                };
                let delta: u128 = if self.liquidity > 0 {
                    proof {
                        lemma_mul_nonnegative(elapsed as int, info.emissions_per_second_x64
                            as int);
                        lemma_div_pos_is_pos(elapsed * info.emissions_per_second_x64,
                            self.liquidity as int);
                    }
                    match mul_div_floor(elapsed as u128, info.emissions_per_second_x64,
                        self.liquidity) {
                        Ok(d) => d,
                        Err(_) => {
                            return Err(ErrorCode::MathOverflow);
                        },
                    }
                } else {
                    0
                };
                if delta > u128::MAX - info.growth_global_x64 {
                    return Err(ErrorCode::MathOverflow);
                }
                updated.push(RewardInfo {
                    growth_global_x64: info.growth_global_x64 + delta,
                    last_update_time: now,
                    ..info
                });
            }
            i = i + 1;
        }
        Ok(updated)
    }

    /// Advances every active reward stream to `now`.  All streams share the
    /// pool liquidity denominator and are advanced together, so their
    /// `last_update_time` baselines never diverge.  On any overflow the pool
    /// is left untouched.
    pub fn update_reward_growth(&mut self, now: u64) -> (r: Result<(), ErrorCode>)
        requires
            old(self).wf(),
        ensures
            final(self).wf(),
            r matches Ok(_) <==> (forall|i: int| 0 <= i < REWARD_NUM
                ==> reward_update_fits(old(self).reward_infos@[i], now, old(self).liquidity)),
            r matches Ok(_) ==> forall|i: int| 0 <= i < REWARD_NUM
                ==> final(self).reward_infos@[i] == reward_slot_update(
                old(self).reward_infos@[i], now, old(self).liquidity),
            r matches Ok(_) ==> forall|i: int| 0 <= i < REWARD_NUM
                ==> final(self).reward_infos@[i].growth_global_x64
                >= old(self).reward_infos@[i].growth_global_x64,
            r matches Ok(_) ==> *final(self) == (PoolState {
                reward_infos: final(self).reward_infos, ..*old(self) }),
            r matches Err(e) ==> *final(self) == *old(self) && e == ErrorCode::MathOverflow,
    {
        match self.updated_reward_infos(now) {
            Ok(updated) => {
                self.reward_infos = updated;
                Ok(())
            },
            Err(e) => Err(e),
        }
    }
}

/// Advancing a reward stream never lowers its growth accumulator.
pub proof fn lemma_reward_slot_update_monotone(info: RewardInfo, now: u64, liquidity: u128)
    requires
        reward_update_fits(info, now, liquidity),
    ensures
        reward_slot_update(info, now, liquidity).growth_global_x64 >= info.growth_global_x64,
{
    if info.active() && liquidity > 0 {
        lemma_mul_nonnegative(reward_elapsed(info, now), info.emissions_per_second_x64 as int);
        lemma_div_pos_is_pos(reward_elapsed(info, now) * (info.emissions_per_second_x64
            as int), liquidity as int);
    }
}

/// Parameters of a reward schedule initialization request.
#[derive(Clone, Copy, Debug, PartialEq, Eq, Structural)]
pub struct InitializeRewardParam {
    /// Which of the `REWARD_NUM` slots to initialize.
    pub reward_index: u8,
    /// First second at which the reward accrues.
    pub open_time: u64,
    /// Second past which the reward stops accruing.
    pub end_time: u64,
    /// Tokens rewarded per second per unit of liquidity, Q64.64 fixed point.
    pub emissions_per_second_x64: u128,
}

impl InitializeRewardParam {
    /// The schedule is acceptable at `curr_timestamp`: a non-empty future
    /// window, a non-zero rate, and an existing slot index.
    pub open spec fn valid_at(self, curr_timestamp: u64) -> bool {
        self.open_time < self.end_time && self.end_time >= curr_timestamp
            && self.emissions_per_second_x64 != 0 && (self.reward_index as int) < REWARD_NUM
                as int
    }

    /// Validates the schedule against the current time.
    pub fn check(&self, curr_timestamp: u64) -> (r: Result<(), ErrorCode>)
        ensures
            r matches Ok(_) <==> self.valid_at(curr_timestamp),
            r matches Err(e) ==> e == ErrorCode::InvalidRewardInitParam,
    {
        if self.open_time >= self.end_time || self.end_time < curr_timestamp
            || self.emissions_per_second_x64 == 0 || self.reward_index >= REWARD_NUM as u8 {
            return Err(ErrorCode::InvalidRewardInitParam);
        }
        Ok(())
    }
}

/// The targeted slot is already active for an interval overlapping the
/// requested `[open_time, end_time)` window, so it cannot be re-initialized.
pub open spec fn reward_slot_conflict(slot: RewardInfo, param: InitializeRewardParam) -> bool {
    slot.active() && param.open_time < slot.end_time && slot.open_time < param.end_time
}

/// Total tokens the requested schedule will emit: `(end - open) *
/// emissions_per_second / 2^64`, floor-rounded.  The sole source of truth
/// for the amount the host-side transfer must fund.
pub open spec fn reward_amount_spec(param: InitializeRewardParam) -> int {
    mul_div_floor_spec(param.end_time - param.open_time, param.emissions_per_second_x64 as int,
        Q64 as int)
}

/// The error `initialize_reward` reports, in the order the checks run:
/// authorization, schedule validity, amount overflow, funding, slot conflict.
pub open spec fn initialize_reward_error(pool: PoolState, funder_ref: AccountRef,
    config_owner_ref: AccountRef, funder_balance: u64, param: InitializeRewardParam,
    curr_timestamp: u64) -> ErrorCode {
    if funder_ref != config_owner_ref {
        ErrorCode::NotApproved
    } else if !param.valid_at(curr_timestamp) {
        ErrorCode::InvalidRewardInitParam
    } else if reward_amount_spec(param) > u64::MAX {
        ErrorCode::MathOverflow
    } else if (funder_balance as int) < reward_amount_spec(param) {
        ErrorCode::InsufficientFunding
    } else {
        ErrorCode::InvalidRewardInitParam
    }
}

/// Everything `initialize_reward` checks, in one place: the funder is the
/// configured owner, the schedule is valid, the emitted amount fits a `u64`,
/// the funder balance covers it, and the slot is free for the window.
pub open spec fn initialize_reward_ok(pool: PoolState, funder_ref: AccountRef,
    config_owner_ref: AccountRef, funder_balance: u64, param: InitializeRewardParam,
    curr_timestamp: u64) -> bool {
    funder_ref == config_owner_ref && param.valid_at(curr_timestamp) && reward_amount_spec(param)
        <= u64::MAX && funder_balance >= reward_amount_spec(param) && !reward_slot_conflict(
        pool.reward_infos@[param.reward_index as int], param)
}

impl PoolState {
    /// Writes a reward schedule into its slot.  Fails with
    /// `InvalidRewardInitParam`, leaving the pool untouched, when the slot is
    /// already active for an overlapping interval.  The slot's growth
    /// accumulator is carried forward, never reset: it is a monotone
    /// per-unit-liquidity counter that positions hold snapshots against, so
    /// restarting it would both break monotonicity and corrupt every
    /// outstanding snapshot difference.  The new stream's `last_update_time`
    /// starts at the clock (clamped up to `open_time`), so no span before
    /// initialization is ever credited retroactively.
    pub fn initialize_reward_slot(&mut self, curr_timestamp: u64, reward_index: usize,
        open_time: u64, end_time: u64, emissions_per_second_x64: u128, mint_ref: AccountRef,
        vault_ref: AccountRef) -> (r: Result<(), ErrorCode>)
        requires
            old(self).wf(),
            reward_index < REWARD_NUM,
            emissions_per_second_x64 != 0,
        ensures
            final(self).wf(),
            r matches Ok(_) <==> !reward_slot_conflict(old(self).reward_infos@[
                reward_index as int], (InitializeRewardParam { reward_index: reward_index as u8,
                open_time, end_time, emissions_per_second_x64 })),
            r matches Ok(_) ==> final(self).reward_infos@ == old(self).reward_infos@.update(
                reward_index as int, (RewardInfo {
                    mint_ref,
                    vault_ref,
                    emissions_per_second_x64,
                    growth_global_x64: old(self).reward_infos@[
                        reward_index as int].growth_global_x64,
                    last_update_time: (if curr_timestamp >= open_time {
                        curr_timestamp
                    } else {
                        open_time
                    }),
                    open_time,
                    end_time,
                })),
            r matches Ok(_) ==> forall|i: int| 0 <= i < REWARD_NUM
                ==> final(self).reward_infos@[i].growth_global_x64
                >= old(self).reward_infos@[i].growth_global_x64,
            r matches Ok(_) ==> *final(self) == (PoolState {
                reward_infos: final(self).reward_infos, ..*old(self) }),
            r matches Err(e) ==> *final(self) == *old(self)
                && e == ErrorCode::InvalidRewardInitParam,
    {
        let slot: RewardInfo = self.reward_infos[reward_index];
        if slot.emissions_per_second_x64 != 0 && open_time < slot.end_time
            && slot.open_time < end_time {
            return Err(ErrorCode::InvalidRewardInitParam);
        }
        let new_slot: RewardInfo = RewardInfo {
            mint_ref,
            vault_ref,
            emissions_per_second_x64,
            growth_global_x64: slot.growth_global_x64,
            last_update_time: if curr_timestamp >= open_time {
                curr_timestamp
            } else {
                open_time
            },
            open_time,
            end_time,
        };
        self.reward_infos.set(reward_index, new_slot);
        Ok(())
    }
}

/// Initializes a reward stream on the pool and returns the token amount the
/// host must move into the reward vault.  The core computes the amount; it
/// never moves value itself.  The slot's growth accumulator survives
/// re-initialization of an expired stream, so no accumulator ever
/// decreases.  On any failure the pool is untouched.
pub fn initialize_reward(pool: &mut PoolState, funder_ref: AccountRef,
    config_owner_ref: AccountRef, funder_balance: u64, param: &InitializeRewardParam,
    curr_timestamp: u64, mint_ref: AccountRef, vault_ref: AccountRef) -> (r: Result<u64,
    ErrorCode>)
    requires
        old(pool).wf(),
    ensures
        final(pool).wf(),
        r matches Ok(amount) <==> initialize_reward_ok(*old(pool), funder_ref, config_owner_ref,
            funder_balance, *param, curr_timestamp),
        r matches Ok(amount) ==> amount == reward_amount_spec(*param)
            && final(pool).reward_infos@ == old(pool).reward_infos@.update(
            param.reward_index as int, (RewardInfo {
                mint_ref,
                vault_ref,
                emissions_per_second_x64: param.emissions_per_second_x64,
                growth_global_x64: old(pool).reward_infos@[
                    param.reward_index as int].growth_global_x64,
                last_update_time: (if curr_timestamp >= param.open_time {
                    curr_timestamp
                } else {
                    param.open_time
                }),
                open_time: param.open_time,
                end_time: param.end_time,
            }))
            && *final(pool) == (PoolState { reward_infos: final(pool).reward_infos,
            ..*old(pool) }),
        r matches Ok(amount) ==> forall|i: int| 0 <= i < REWARD_NUM
            ==> final(pool).reward_infos@[i].growth_global_x64
            >= old(pool).reward_infos@[i].growth_global_x64,
        r matches Err(e) ==> *final(pool) == *old(pool) && e == initialize_reward_error(
            *old(pool), funder_ref, config_owner_ref, funder_balance, *param, curr_timestamp),
{
    if !(funder_ref.id == config_owner_ref.id) {
        return Err(ErrorCode::NotApproved);
    }
    match param.check(curr_timestamp) {
        Ok(_) => (),
        Err(e) => {
            return Err(e);
        },
    }
    let reward_amount_wide: u128 = match mul_div_floor((param.end_time - param.open_time)
        as u128, param.emissions_per_second_x64, Q64) {
        Ok(a) => a,
        Err(e) => {
            return Err(ErrorCode::MathOverflow);
        },
    };
    if reward_amount_wide > u64::MAX as u128 {
        return Err(ErrorCode::MathOverflow);
    }
    let reward_amount: u64 = reward_amount_wide as u64;
    if funder_balance < reward_amount {
        return Err(ErrorCode::InsufficientFunding);
    }
    match pool.initialize_reward_slot(curr_timestamp, param.reward_index as usize,
        param.open_time, param.end_time, param.emissions_per_second_x64, mint_ref, vault_ref) {
        Ok(_) => (),
        Err(e) => {
            return Err(e);
        },
    }
    Ok(reward_amount)
}

/// Advancing a stream twice to the same `now` is a no-op on the second call:
/// after the first advance the elapsed window is empty, so no growth accrues
/// and the recorded update time is unchanged.
pub proof fn lemma_update_reward_growth_idempotent(info: RewardInfo, now: u64, liquidity: u128)
    ensures
        reward_slot_update(reward_slot_update(info, now, liquidity), now, liquidity)
            == reward_slot_update(info, now, liquidity),
{
    let once = reward_slot_update(info, now, liquidity);
    if info.active() {
        assert(reward_elapsed(once, now) == 0);
        assert(reward_delta(once, now, liquidity) == 0) by {
            assert(0 * (once.emissions_per_second_x64 as int) == 0);
            if liquidity > 0 {
                assert(0int / (liquidity as int) == 0);
            }
        };
    }
}

} // verus!
