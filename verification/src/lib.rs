//! Accounting core of a concentrated-liquidity automated market maker.
//!
//! The crate tracks a pool's price, per-range liquidity, accumulated trading
//! fees and multi-token time-based rewards, and computes the effects of swaps,
//! liquidity changes and reward emission with exact fixed-point arithmetic.
//! It is a pure, synchronous state transformer: every operation receives the
//! relevant state records as explicit inputs and either updates them fully or
//! fails without touching them.  Custody and transfer of value, authorization
//! beyond what only this core can check, and storage of the records belong to
//! the host around the core.

pub mod error;
pub mod math;
pub mod pool;
pub mod position;
pub mod tick;
pub mod tick_math;
pub mod swap;
