//! The exchange formulas of one bin: fees taken from or added to an amount,
//! and the conversion between the two assets at a fixed-point price.

use crate::error::DlmmError;
use crate::math::full_math::{
    lemma_rounded_div_bound,
    lemma_rounded_down_is_floor,
    lemma_rounded_up_is_ceiling,
    mul_div,
    rounded_div,
};
use crate::math::q64x64_math::ONE;
use crate::math::wide::{wide_checked_mul, wide_div_rem, wide_from_u128, wide_to_u128, Wide};
use crate::math::Rounding;
use crate::FEE_PRECISION;
use vstd::prelude::*;

verus! {

/// `2^128`, the scale of a growth accumulator.
pub open spec fn growth_scale() -> nat {
    0x1_0000_0000_0000_0000_0000_0000_0000_0000nat
}

/// What `calculate_growth_by_amount` returns: `amount * 2^128 / liquidity`,
/// truncated, where the liquidity is not zero and the quotient fits 128 bits.
pub open spec fn growth_by_amount_spec(amount: u64, liquidity: u128) -> Result<u128, DlmmError> {
    if liquidity == 0 {
        Err(DlmmError::MathOverflow)
    } else {
        let q = (amount as nat) * growth_scale() / (liquidity as nat);
        if q <= u128::MAX {
            Ok(q as u128)
        } else {
            Err(DlmmError::MathOverflow)
        }
    }
}

/// What `calculate_amount_by_growth` returns:
/// `growth_delta * liquidity / 2^128`, truncated, where it fits 64 bits.
pub open spec fn amount_by_growth_spec(growth_delta: u128, liquidity: u128) -> Result<
    u64,
    DlmmError,
> {
    let q = (growth_delta as nat) * (liquidity as nat) / growth_scale();
    if q <= u64::MAX {
        Ok(q as u64)
    } else {
        Err(DlmmError::MathOverflow)
    }
}

/// What `calculate_fee_inclusive` returns: the part
/// `ceil(amount * fee_rate / FEE_PRECISION)` of an amount that already holds
/// its fee. A zero amount or rate gives zero before the rate is looked at.
pub open spec fn fee_inclusive_spec(amount: u64, fee_rate: u64) -> Result<u64, DlmmError> {
    if amount == 0 || fee_rate == 0 {
        Ok(0u64)
    } else if fee_rate > FEE_PRECISION {
        Err(DlmmError::InvalidInput)
    } else {
        Ok(
            rounded_div(
                (amount as nat) * (fee_rate as nat),
                FEE_PRECISION as nat,
                Rounding::Up,
            ) as u64,
        )
    }
}

/// What `calculate_fee_exclusive` returns: the fee
/// `ceil(amount * fee_rate / (FEE_PRECISION - fee_rate))` to put on top of a
/// net amount. A zero amount or rate gives zero before the rate is looked at;
/// a rate of 100% has no such fee, and one that does not fit 64 bits is
/// refused.
pub open spec fn fee_exclusive_spec(amount: u64, fee_rate: u64) -> Result<u64, DlmmError> {
    if amount == 0 || fee_rate == 0 {
        Ok(0u64)
    } else if fee_rate > FEE_PRECISION {
        Err(DlmmError::InvalidInput)
    } else if fee_rate == FEE_PRECISION {
        Err(DlmmError::MathOverflow)
    } else {
        let fee = rounded_div(
            (amount as nat) * (fee_rate as nat),
            (FEE_PRECISION - fee_rate) as nat,
            Rounding::Up,
        );
        if fee <= u64::MAX {
            Ok(fee as u64)
        } else {
            Err(DlmmError::MathOverflow)
        }
    }
}

/// The amount of the other asset that `amount` is worth at `price`, before
/// rounding: as a numerator and a denominator. The price is asset B per
/// unit of asset A, so A is turned into B by multiplying with it and B into A
/// by dividing.
pub open spec fn converted(amount: u64, price: u128, a_to_b: bool) -> (nat, nat) {
    if a_to_b {
        ((amount as nat) * (price as nat), ONE as nat)
    } else {
        ((amount as nat) * (ONE as nat), price as nat)
    }
}

/// What `calculate_amount_in` returns: the input that pays for `amount_out` at
/// `price`, rounded up. The output is in the asset that the swap delivers, so
/// it is converted against the direction of the swap.
pub open spec fn amount_in_spec(amount_out: u64, price: u128, a2b: bool) -> Result<u64, DlmmError> {
    if price == 0 {
        Err(DlmmError::InvalidInput)
    } else if amount_out == 0 {
        Ok(0u64)
    } else {
        let (n, d) = converted(amount_out, price, !a2b);
        let r = rounded_div(n, d, Rounding::Up);
        if r <= u64::MAX {
            Ok(r as u64)
        } else {
            Err(DlmmError::MathOverflow)
        }
    }
}

/// What `calculate_amount_out` returns: the output that `amount_in` buys at
/// `price`, rounded down.
pub open spec fn amount_out_spec(amount_in: u64, price: u128, a2b: bool) -> Result<u64, DlmmError> {
    if price == 0 {
        Err(DlmmError::InvalidInput)
    } else if amount_in == 0 {
        Ok(0u64)
    } else {
        let (n, d) = converted(amount_in, price, a2b);
        let r = rounded_div(n, d, Rounding::Down);
        if r <= u64::MAX {
            Ok(r as u64)
        } else {
            Err(DlmmError::MathOverflow)
        }
    }
}

/// The growth per unit of liquidity that `amount` adds, scaled by `2^128`.
pub fn calculate_growth_by_amount(amount: u64, liquidity: u128) -> (r: Result<u128, DlmmError>)
    ensures
        r == growth_by_amount_spec(amount, liquidity),
{
    if liquidity == 0 {
        return Err(DlmmError::MathOverflow);
    }
    let amount_wide = wide_from_u128(amount as u128);
    let liquidity_wide = wide_from_u128(liquidity);
    let scale = Wide { limbs: [0, 0, 1, 0] };
    assert((amount as nat) * growth_scale() < Wide::modulus()) by (nonlinear_arith)
        requires
            amount < 0x1_0000_0000_0000_0000,
            growth_scale() == 0x1_0000_0000_0000_0000_0000_0000_0000_0000nat,
            Wide::modulus()
                == 0x1_0000_0000_0000_0000_0000_0000_0000_0000_0000_0000_0000_0000_0000_0000_0000_0000nat,
    ;
    let product = match wide_checked_mul(&amount_wide, &scale) {
        Some(p) => p,
        None => { return Err(DlmmError::MathOverflow); },
    };
    let (quotient, _) = wide_div_rem(&product, &liquidity_wide);
    match wide_to_u128(&quotient) {
        Some(q) => Ok(q),
        None => Err(DlmmError::MathOverflow),
    }
}

/// The amount that a growth of `growth_delta` per unit is worth to
/// `liquidity` units.
pub fn calculate_amount_by_growth(growth_delta: u128, liquidity: u128) -> (r: Result<
    u64,
    DlmmError,
>)
    ensures
        r == amount_by_growth_spec(growth_delta, liquidity),
{
    let growth_wide = wide_from_u128(growth_delta);
    let liquidity_wide = wide_from_u128(liquidity);
    let scale = Wide { limbs: [0, 0, 1, 0] };
    proof {
        crate::math::full_math::lemma_product_fits(growth_delta, liquidity);
    }
    let product = match wide_checked_mul(&growth_wide, &liquidity_wide) {
        Some(p) => p,
        None => { return Err(DlmmError::MathOverflow); },
    };
    let (quotient, _) = wide_div_rem(&product, &scale);
    match wide_to_u128(&quotient) {
        Some(q) => if q > u64::MAX as u128 {
            Err(DlmmError::MathOverflow)
        } else {
            Ok(q as u64)
        },
        None => Err(DlmmError::MathOverflow),
    }
}

/// The fee held in `amount`, at `fee_rate` parts in `FEE_PRECISION`.
pub fn calculate_fee_inclusive(amount: u64, fee_rate: u64) -> (r: Result<u64, DlmmError>)
    ensures
        r == fee_inclusive_spec(amount, fee_rate),
        r is Err <==> amount != 0 && fee_rate > FEE_PRECISION,
        r matches Ok(fee) ==> fee <= amount && (fee == 0 <==> amount == 0 || fee_rate == 0),
{
    if amount == 0 || fee_rate == 0 {
        return Ok(0);
    }
    if fee_rate > FEE_PRECISION {
        return Err(DlmmError::InvalidInput);
    }
    proof {
        lemma_fee_inclusive_bounds(amount, fee_rate);
    }
    match mul_div(amount as u128, fee_rate as u128, FEE_PRECISION as u128, Rounding::Up) {
        Some(fee) => Ok(fee as u64),
        None => Err(DlmmError::MathOverflow),
    }
}

/// The fee to add to the net amount `amount`, at `fee_rate` parts in
/// `FEE_PRECISION` of the gross amount.
pub fn calculate_fee_exclusive(amount: u64, fee_rate: u64) -> (r: Result<u64, DlmmError>)
    ensures
        r == fee_exclusive_spec(amount, fee_rate),
        r matches Ok(fee) ==> (fee == 0 <==> amount == 0 || fee_rate == 0),
{
    if amount == 0 || fee_rate == 0 {
        return Ok(0);
    }
    if fee_rate > FEE_PRECISION {
        return Err(DlmmError::InvalidInput);
    }
    let denominator: u128 = FEE_PRECISION as u128 - fee_rate as u128;
    proof {
        if denominator != 0 {
            lemma_fee_exclusive_positive(amount, fee_rate);
        }
    }
    match mul_div(amount as u128, fee_rate as u128, denominator, Rounding::Up) {
        Some(fee) => if fee > u64::MAX as u128 {
            Err(DlmmError::MathOverflow)
        } else {
            Ok(fee as u64)
        },
        None => Err(DlmmError::MathOverflow),
    }
}

/// The input that buys `amount_out` at `price`, rounded up.
pub fn calculate_amount_in(amount_out: u64, price: u128, a2b: bool) -> (r: Result<u64, DlmmError>)
    ensures
        r == amount_in_spec(amount_out, price, a2b),
        price != 0 && amount_out == 0 ==> r == Ok::<u64, DlmmError>(0u64),
{
    if price == 0 {
        return Err(DlmmError::InvalidInput);
    }
    if amount_out == 0 {
        return Ok(0);
    }
    let quotient = if a2b {
        mul_div(amount_out as u128, ONE, price, Rounding::Up)
    } else {
        mul_div(amount_out as u128, price, ONE, Rounding::Up)
    };
    match quotient {
        Some(q) => if q > u64::MAX as u128 {
            Err(DlmmError::MathOverflow)
        } else {
            Ok(q as u64)
        },
        None => Err(DlmmError::MathOverflow),
    }
}

/// The output that `amount_in` buys at `price`, rounded down.
pub fn calculate_amount_out(amount_in: u64, price: u128, a2b: bool) -> (r: Result<u64, DlmmError>)
    ensures
        r == amount_out_spec(amount_in, price, a2b),
        price != 0 && amount_in == 0 ==> r == Ok::<u64, DlmmError>(0u64),
{
    if price == 0 {
        return Err(DlmmError::InvalidInput);
    }
    if amount_in == 0 {
        return Ok(0);
    }
    let quotient = if a2b {
        mul_div(amount_in as u128, price, ONE, Rounding::Down)
    } else {
        mul_div(amount_in as u128, ONE, price, Rounding::Down)
    };
    match quotient {
        Some(q) => if q > u64::MAX as u128 {
            Err(DlmmError::MathOverflow)
        } else {
            Ok(q as u64)
        },
        None => Err(DlmmError::MathOverflow),
    }
}

/// The rounding never favours the trader, part one: what an input buys costs
/// no more than that input.
pub proof fn lemma_output_costs_no_more_than_input(amount_in: u64, price: u128, a2b: bool)
    requires
        amount_out_spec(amount_in, price, a2b) is Ok,
    ensures
        amount_in_spec(amount_out_spec(amount_in, price, a2b)->Ok_0, price, a2b) is Ok,
        amount_in_spec(amount_out_spec(amount_in, price, a2b)->Ok_0, price, a2b)->Ok_0
            <= amount_in,
{
    let bought = amount_out_spec(amount_in, price, a2b)->Ok_0;
    if amount_in > 0 && bought > 0 {
        let (paid, per) = converted(amount_in, price, a2b);
        lemma_rounded_down_is_floor(paid, per);
        let (owed, unit) = converted(bought, price, !a2b);
        assert(owed <= (amount_in as nat) * unit) by (nonlinear_arith)
            requires
                (bought as nat) * per <= paid,
                a2b ==> paid == (amount_in as nat) * (price as nat) && per == ONE as nat && owed
                    == (bought as nat) * (ONE as nat) && unit == price as nat,
                !a2b ==> paid == (amount_in as nat) * (ONE as nat) && per == price as nat && owed
                    == (bought as nat) * (price as nat) && unit == ONE as nat,
        ;
        lemma_rounded_div_bound(owed, unit, amount_in as nat, Rounding::Up);
    }
}

/// The rounding never favours the trader, part two: the input that is asked
/// for an output buys at least that output.
pub proof fn lemma_price_of_output_buys_it(amount_out: u64, price: u128, a2b: bool)
    requires
        amount_in_spec(amount_out, price, a2b) is Ok,
        amount_out_spec(amount_in_spec(amount_out, price, a2b)->Ok_0, price, a2b) is Ok,
    ensures
        amount_out_spec(amount_in_spec(amount_out, price, a2b)->Ok_0, price, a2b)->Ok_0
            >= amount_out,
{
    let asked = amount_in_spec(amount_out, price, a2b)->Ok_0;
    if amount_out > 0 {
        let (owed, unit) = converted(amount_out, price, !a2b);
        lemma_rounded_up_is_ceiling(owed, unit);
        assert(owed > 0) by (nonlinear_arith)
            requires
                amount_out > 0,
                price > 0,
                owed == (amount_out as nat) * (ONE as nat) || owed == (amount_out as nat) * (
                price as nat),
                ONE > 0,
        ;
        assert(asked > 0) by (nonlinear_arith)
            requires
                asked * unit >= owed,
                owed > 0,
        ;
        let (paid, per) = converted(asked, price, a2b);
        lemma_rounded_down_is_floor(paid, per);
        let bought = rounded_div(paid, per, Rounding::Down);
        assert(bought >= amount_out) by (nonlinear_arith)
            requires
                (asked as nat) * unit >= owed,
                paid < (bought + 1) * per,
                per > 0,
                a2b ==> paid == (asked as nat) * (price as nat) && per == ONE as nat && owed == (
                amount_out as nat) * (ONE as nat) && unit == price as nat,
                !a2b ==> paid == (asked as nat) * (ONE as nat) && per == price as nat && owed == (
                amount_out as nat) * (price as nat) && unit == ONE as nat,
        ;
    }
}

/// An inclusive fee at a rate of at most 100% is at most the amount, and is
/// positive where the amount and the rate are.
pub proof fn lemma_fee_inclusive_bounds(amount: u64, fee_rate: u64)
    requires
        amount > 0,
        0 < fee_rate <= FEE_PRECISION,
    ensures
        0 < rounded_div(
            (amount as nat) * (fee_rate as nat),
            FEE_PRECISION as nat,
            Rounding::Up,
        ) <= amount,
{
    let n = (amount as nat) * (fee_rate as nat);
    assert(0 < n <= (amount as nat) * (FEE_PRECISION as nat)) by (nonlinear_arith)
        requires
            n == (amount as nat) * (fee_rate as nat),
            amount > 0,
            0 < fee_rate <= FEE_PRECISION,
    ;
    lemma_rounded_div_bound(n, FEE_PRECISION as nat, amount as nat, Rounding::Up);
    lemma_rounded_up_is_ceiling(n, FEE_PRECISION as nat);
    let q = rounded_div(n, FEE_PRECISION as nat, Rounding::Up);
    assert(q > 0) by (nonlinear_arith)
        requires
            q * (FEE_PRECISION as nat) >= n,
            n > 0,
    ;
}

/// An exclusive fee at a rate below 100% is positive where the amount and the
/// rate are.
pub proof fn lemma_fee_exclusive_positive(amount: u64, fee_rate: u64)
    requires
        amount > 0,
        0 < fee_rate < FEE_PRECISION,
    ensures
        0 < rounded_div(
            (amount as nat) * (fee_rate as nat),
            (FEE_PRECISION - fee_rate) as nat,
            Rounding::Up,
        ),
{
    let n = (amount as nat) * (fee_rate as nat);
    let d = (FEE_PRECISION - fee_rate) as nat;
    assert(0 < n) by (nonlinear_arith)
        requires
            n == (amount as nat) * (fee_rate as nat),
            amount > 0,
            0 < fee_rate,
    ;
    lemma_rounded_up_is_ceiling(n, d);
    let q = rounded_div(n, d, Rounding::Up);
    assert(q > 0) by (nonlinear_arith)
        requires
            q * d >= n,
            n > 0,
    ;
}

} // verus!
