use vstd::prelude::*;

verus! {

/// Failure kinds surfaced by the accounting core.
///
/// Arithmetic and invariant-violating errors abort the whole operation with
/// zero mutation.  Reaching a swap's price limit early is not an error: it is
/// reported as a field of the successful swap result, so no variant exists
/// for it here.
#[derive(Clone, Copy, Debug, PartialEq, Eq, Structural)]
pub enum ErrorCode {
    /// Reward schedule parameters rejected (`open_time >= end_time`,
    /// `end_time` in the past, zero emission rate, bad reward index, or the
    /// targeted slot is already active for an overlapping interval).
    InvalidRewardInitParam,
    /// The caller is not the party the configuration authorizes.
    NotApproved,
    /// A fixed-point product or quotient does not fit the result type.
    MathOverflow,
    /// A division with a zero denominator was requested.
    DivideByZero,
    /// A tick's gross liquidity would exceed the per-tick cap.
    LiquidityOverflow,
    /// A negative liquidity delta would drive a balance below zero.
    LiquidityUnderflow,
    /// A tick range is empty, out of bounds, or not aligned to tick spacing.
    InvalidRange,
    /// The funding balance is below the computed reward amount.
    InsufficientFunding,
}

} // verus!
