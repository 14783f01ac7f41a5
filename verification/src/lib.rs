//! Swap engine of a bin-based liquidity pool: per-bin exchange formulas, a
//! volatility-driven fee model and the router that walks a swap across bins.

use vstd::prelude::*;

pub mod bin;
pub mod books;
pub mod config;
pub mod error;
pub mod fee_model;
pub mod math;
pub mod pool;
pub mod route;
pub mod row;

pub use crate::bin::Bin;
pub use crate::config::{BinStepConfig, VariableParameters};
pub use crate::error::DlmmError;
pub use crate::pool::{BinSwap, Pool, SwapResult};

verus! {

/// Upper bound of the total fee rate, in units of `1 / FEE_PRECISION`.
pub const MAX_FEE_RATE: u64 = 100_000_000;

/// Denominator of every fee rate: a rate of `FEE_PRECISION` is 100%.
pub const FEE_PRECISION: u64 = 1_000_000_000;

} // verus!
