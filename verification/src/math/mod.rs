//! Fixed-point arithmetic: wide multiply-then-divide, the exchange formulas
//! built on it, and exponentiation with the binary point at bit 64.

use vstd::prelude::*;

pub mod dlmm_math;
pub mod full_math;
pub mod q64x64_math;
pub mod wide;

verus! {

/// One hundred percent, in basis points.
pub const BASIS_POINT_MAX: u32 = 10_000;

/// The direction in which an inexact quotient is rounded.
#[derive(Clone, Copy, Debug)]
pub enum Rounding {
    /// Towards the next larger integer.
    Up,
    /// Towards the next smaller integer.
    Down,
}

} // verus!
