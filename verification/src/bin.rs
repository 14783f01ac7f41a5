//! One bin: a segment of liquidity at a fixed price, and the two swaps that
//! trade against it.

use crate::error::DlmmError;
use crate::math::dlmm_math::{
    amount_in_spec,
    amount_out_spec,
    calculate_amount_in,
    calculate_amount_out,
    calculate_fee_exclusive,
    calculate_fee_inclusive,
    converted,
    fee_exclusive_spec,
    fee_inclusive_spec,
    lemma_fee_inclusive_bounds,
};
use crate::math::full_math::{
    lemma_rounded_div_bound,
    lemma_rounded_down_is_floor,
    lemma_rounded_up_is_ceiling,
};
use crate::math::q64x64_math::ONE;
use crate::math::Rounding;
use crate::FEE_PRECISION;
use vstd::arithmetic::div_mod::lemma_div_is_ordered;
use vstd::prelude::*;

verus! {

/// A bin of the pool.
#[derive(Debug)]
pub struct Bin {
    /// The place of the bin in the order of prices.
    pub id: i32,
    /// The reserve of asset A.
    pub amount_a: u64,
    /// The reserve of asset B.
    pub amount_b: u64,
    /// Asset B per unit of asset A, as a fixed-point number.
    pub price: u128,
    /// The liquidity shares issued against the bin.
    pub liquidity_supply: u128,
    /// The growth of each reward per share.
    pub rewards_growth_global: Vec<u128>,
    /// The growth of the fees in asset A per share.
    pub fee_amount_a_growth_global: u128,
    /// The growth of the fees in asset B per share.
    pub fee_amount_b_growth_global: u128,
}

/// What one swap against one bin moved: the input taken, fee included; the
/// output given; the fee; and the protocol's share of the fee.
pub type Fill = (u64, u64, u64, u64);

/// A fill with the protocol's share of its fee worked out.
pub open spec fn fill_of(amount_in: u64, amount_out: u64, fee: u64, protocol_fee_rate: u64) -> Result<
    Fill,
    DlmmError,
> {
    match fee_inclusive_spec(fee, protocol_fee_rate) {
        Ok(protocol_fee) => Ok((amount_in, amount_out, fee, protocol_fee)),
        Err(e) => Err(e),
    }
}

/// The fill of an exact-input swap against a reserve of `available` at
/// `price`. The fee is taken out of the input and the rest converted, rounded
/// down. Where the reserve cannot pay that, the whole reserve is paid for:
/// its price rounded up, and the fee put on top of it.
pub open spec fn exact_in_fill(
    available: u64,
    price: u128,
    amount_in: u64,
    a2b: bool,
    fee_rate: u64,
    protocol_fee_rate: u64,
) -> Result<Fill, DlmmError> {
    match fee_inclusive_spec(amount_in, fee_rate) {
        Err(e) => Err(e),
        Ok(fee) => match amount_out_spec((amount_in - fee) as u64, price, a2b) {
            Err(e) => Err(e),
            Ok(amount_out) => if amount_out <= available {
                fill_of(amount_in, amount_out, fee, protocol_fee_rate)
            } else {
                match amount_in_spec(available, price, a2b) {
                    Err(e) => Err(e),
                    Ok(net) => match fee_exclusive_spec(net, fee_rate) {
                        Err(e) => Err(e),
                        Ok(clipped_fee) => if net + clipped_fee > amount_in {
                            Err(DlmmError::InvariantViolation)
                        } else {
                            fill_of(
                                (net + clipped_fee) as u64,
                                available,
                                clipped_fee,
                                protocol_fee_rate,
                            )
                        },
                    },
                }
            },
        },
    }
}

/// The fill of an exact-output swap against a reserve of `available` at
/// `price`: the request is cut down to the reserve, its price rounded up, and
/// the fee put on top of it.
pub open spec fn exact_out_fill(
    available: u64,
    price: u128,
    amount_out: u64,
    a2b: bool,
    fee_rate: u64,
    protocol_fee_rate: u64,
) -> Result<Fill, DlmmError> {
    let granted = if available <= amount_out {
        available
    } else {
        amount_out
    };
    match amount_in_spec(granted, price, a2b) {
        Err(e) => Err(e),
        Ok(net) => match fee_exclusive_spec(net, fee_rate) {
            Err(e) => Err(e),
            Ok(fee) => if net + fee > u64::MAX {
                Err(DlmmError::MathOverflow)
            } else {
                fill_of((net + fee) as u64, granted, fee, protocol_fee_rate)
            },
        },
    }
}

/// A swap that has to be clipped to the reserve never asks for more than was
/// offered.
///
/// Where the output that `amount_in` buys is more than the reserve holds, the
/// price of the whole reserve is at most the input less its fee, and the fee
/// put on top of that price is at most the fee held in the input. So neither
/// of the two is refused, and together they stay within `amount_in`.
pub proof fn lemma_clipped_input_is_within_offer(
    available: u64,
    price: u128,
    amount_in: u64,
    a2b: bool,
    fee_rate: u64,
)
    requires
        fee_inclusive_spec(amount_in, fee_rate) is Ok,
        amount_out_spec(
            (amount_in - fee_inclusive_spec(amount_in, fee_rate)->Ok_0) as u64,
            price,
            a2b,
        ) is Ok,
        amount_out_spec(
            (amount_in - fee_inclusive_spec(amount_in, fee_rate)->Ok_0) as u64,
            price,
            a2b,
        )->Ok_0 > available,
    ensures
        amount_in_spec(available, price, a2b) is Ok,
        fee_exclusive_spec(amount_in_spec(available, price, a2b)->Ok_0, fee_rate) is Ok,
        amount_in_spec(available, price, a2b)->Ok_0 <= amount_in - fee_inclusive_spec(
            amount_in,
            fee_rate,
        )->Ok_0,
        fee_exclusive_spec(amount_in_spec(available, price, a2b)->Ok_0, fee_rate)->Ok_0
            <= fee_inclusive_spec(amount_in, fee_rate)->Ok_0,
{
    let fee = fee_inclusive_spec(amount_in, fee_rate)->Ok_0;
    if amount_in > 0 && fee_rate > 0 {
        lemma_fee_inclusive_bounds(amount_in, fee_rate);
    }
    let offered = (amount_in - fee) as nat;
    let out = amount_out_spec(offered as u64, price, a2b)->Ok_0;
    let one = ONE as nat;
    let rate = fee_rate as nat;
    let precision = FEE_PRECISION as nat;
    assert(offered > 0 && price > 0);
    // The reserve costs no more than the net input.
    let (paid, per) = converted(offered as u64, price, a2b);
    lemma_rounded_down_is_floor(paid, per);
    let (owed, unit) = converted(available, price, !a2b);
    assert(owed <= offered * unit) by (nonlinear_arith)
        requires
            out * per <= paid,
            out > available,
            a2b ==> paid == offered * (price as nat) && per == one && owed == (available as nat)
                * one && unit == price as nat,
            !a2b ==> paid == offered * one && per == price as nat && owed == (available as nat)
                * (price as nat) && unit == one,
            per > 0,
    ;
    lemma_rounded_div_bound(owed, unit, offered, Rounding::Up);
    let net = amount_in_spec(available, price, a2b)->Ok_0;
    assert(net <= offered);
    // The fee on top of it is no more than the fee that was held back.
    if net > 0 && fee_rate > 0 {
        lemma_rounded_up_is_ceiling((amount_in as nat) * rate, precision);
        assert(rate < precision) by (nonlinear_arith)
            requires
                fee * precision >= (amount_in as nat) * rate,
                fee < amount_in,
                rate <= precision,
                precision > 0,
        ;
        let rest = (precision - rate) as nat;
        assert((net as nat) * rate <= (fee as nat) * rest) by (nonlinear_arith)
            requires
                fee * precision >= (amount_in as nat) * rate,
                net <= amount_in - fee,
                rest == precision - rate,
                rate < precision,
        ;
        lemma_rounded_div_bound((net as nat) * rate, rest, fee as nat, Rounding::Up);
    }
}

/// An exact-input fill is never refused for asking more than was offered:
/// the check that guards the clipped branch cannot fail.
pub proof fn lemma_exact_in_fill_keeps_its_invariant(
    available: u64,
    price: u128,
    amount_in: u64,
    a2b: bool,
    fee_rate: u64,
    protocol_fee_rate: u64,
)
    ensures
        exact_in_fill(available, price, amount_in, a2b, fee_rate, protocol_fee_rate) != Err::<
            Fill,
            DlmmError,
        >(DlmmError::InvariantViolation),
{
    if let Ok(fee) = fee_inclusive_spec(amount_in, fee_rate) {
        if let Ok(amount_out) = amount_out_spec((amount_in - fee) as u64, price, a2b) {
            if amount_out > available {
                lemma_clipped_input_is_within_offer(available, price, amount_in, a2b, fee_rate);
            }
        }
    }
}

/// When an exact-input swap is owed success: with a price, fee rates of at
/// most 100%, an output that fits 64 bits at the bin's price, and room in the
/// reserve for the input.
pub proof fn lemma_exact_in_succeeds(
    bin: Bin,
    amount_in: u64,
    a2b: bool,
    fee_rate: u64,
    protocol_fee_rate: u64,
)
    requires
        bin.price != 0,
        fee_rate <= FEE_PRECISION,
        protocol_fee_rate <= FEE_PRECISION,
        amount_out_spec(amount_in, bin.price, a2b) is Ok,
        bin.reserve_in(a2b) + amount_in <= u64::MAX,
    ensures
        bin.swap_exact_amount_in_spec(amount_in, a2b, fee_rate, protocol_fee_rate) is Ok,
{
    let fee = fee_inclusive_spec(amount_in, fee_rate)->Ok_0;
    if amount_in > 0 && fee_rate > 0 {
        lemma_fee_inclusive_bounds(amount_in, fee_rate);
    }
    let offered = (amount_in - fee) as u64;
    if offered > 0 {
        let (paid, per) = converted(offered, bin.price, a2b);
        let (most, _) = converted(amount_in, bin.price, a2b);
        assert(paid <= most) by (nonlinear_arith)
            requires
                a2b ==> paid == (offered as nat) * (bin.price as nat) && most == (
                amount_in as nat) * (bin.price as nat),
                !a2b ==> paid == (offered as nat) * (ONE as nat) && most == (amount_in as nat) * (
                ONE as nat),
                offered <= amount_in,
        ;
        lemma_div_is_ordered(paid as int, most as int, per as int);
    }
    let amount_out = amount_out_spec(offered, bin.price, a2b)->Ok_0;
    if amount_out > bin.reserve_out(a2b) {
        lemma_clipped_input_is_within_offer(
            bin.reserve_out(a2b),
            bin.price,
            amount_in,
            a2b,
            fee_rate,
        );
    }
}

impl Default for Bin {
    /// The empty bin with id zero and no price.
    fn default() -> (bin: Self)
        ensures
            bin.id == 0,
            bin.amount_a == 0,
            bin.amount_b == 0,
            bin.price == 0,
            bin.liquidity_supply == 0,
            bin.rewards_growth_global@ == Seq::<u128>::empty(),
            bin.fee_amount_a_growth_global == 0,
            bin.fee_amount_b_growth_global == 0,
    {
        Self {
            id: 0,
            amount_a: 0,
            amount_b: 0,
            price: 0,
            liquidity_supply: 0,
            rewards_growth_global: Vec::new(),
            fee_amount_a_growth_global: 0,
            fee_amount_b_growth_global: 0,
        }
    }
}

impl Clone for Bin {
    /// A copy of the bin.
    fn clone(&self) -> (bin: Self)
        ensures
            bin.same_as(*self),
    {
        let rewards_growth_global = self.rewards_growth_global.clone();
        assert(rewards_growth_global@ =~= self.rewards_growth_global@);
        Bin {
            id: self.id,
            amount_a: self.amount_a,
            amount_b: self.amount_b,
            price: self.price,
            liquidity_supply: self.liquidity_supply,
            rewards_growth_global,
            fee_amount_a_growth_global: self.fee_amount_a_growth_global,
            fee_amount_b_growth_global: self.fee_amount_b_growth_global,
        }
    }
}

impl Bin {
    /// The reserve that a swap in the given direction pays out of.
    pub open spec fn reserve_out(self, a2b: bool) -> u64 {
        if a2b {
            self.amount_b
        } else {
            self.amount_a
        }
    }

    /// The reserve that a swap in the given direction pays into.
    pub open spec fn reserve_in(self, a2b: bool) -> u64 {
        if a2b {
            self.amount_a
        } else {
            self.amount_b
        }
    }

    /// The bin with its two reserves replaced.
    pub open spec fn with_reserves(self, a2b: bool, reserve_in: u64, reserve_out: u64) -> Bin {
        if a2b {
            Bin { amount_a: reserve_in, amount_b: reserve_out, ..self }
        } else {
            Bin { amount_a: reserve_out, amount_b: reserve_in, ..self }
        }
    }

    /// The bin after a fill: the input less its fee has gone into one
    /// reserve, the output has left the other. A reserve that would pass 64
    /// bits refuses the fill.
    pub open spec fn settled(self, a2b: bool, fill: Fill) -> Result<Bin, DlmmError> {
        let (amount_in, amount_out, fee, _) = fill;
        if self.reserve_in(a2b) + amount_in - fee > u64::MAX {
            Err(DlmmError::MathOverflow)
        } else {
            Ok(
                self.with_reserves(
                    a2b,
                    (self.reserve_in(a2b) + amount_in - fee) as u64,
                    (self.reserve_out(a2b) - amount_out) as u64,
                ),
            )
        }
    }

    /// What `swap_exact_amount_in` does: the bin afterwards and the fill.
    pub open spec fn swap_exact_amount_in_spec(
        self,
        amount_in: u64,
        a2b: bool,
        fee_rate: u64,
        protocol_fee_rate: u64,
    ) -> Result<(Bin, Fill), DlmmError> {
        match exact_in_fill(
            self.reserve_out(a2b),
            self.price,
            amount_in,
            a2b,
            fee_rate,
            protocol_fee_rate,
        ) {
            Err(e) => Err(e),
            Ok(fill) => match self.settled(a2b, fill) {
                Err(e) => Err(e),
                Ok(bin) => Ok((bin, fill)),
            },
        }
    }

    /// What `swap_exact_amount_out` does: the bin afterwards and the fill.
    pub open spec fn swap_exact_amount_out_spec(
        self,
        amount_out: u64,
        a2b: bool,
        fee_rate: u64,
        protocol_fee_rate: u64,
    ) -> Result<(Bin, Fill), DlmmError> {
        match exact_out_fill(
            self.reserve_out(a2b),
            self.price,
            amount_out,
            a2b,
            fee_rate,
            protocol_fee_rate,
        ) {
            Err(e) => Err(e),
            Ok(fill) => match self.settled(a2b, fill) {
                Err(e) => Err(e),
                Ok(bin) => Ok((bin, fill)),
            },
        }
    }

    /// Whether two bins hold the same values.
    pub open spec fn same_as(self, other: Bin) -> bool {
        &&& self.id == other.id
        &&& self.amount_a == other.amount_a
        &&& self.amount_b == other.amount_b
        &&& self.price == other.price
        &&& self.liquidity_supply == other.liquidity_supply
        &&& self.rewards_growth_global@ == other.rewards_growth_global@
        &&& self.fee_amount_a_growth_global == other.fee_amount_a_growth_global
        &&& self.fee_amount_b_growth_global == other.fee_amount_b_growth_global
    }

    /// Books a fill: the net input into one reserve, the output out of the
    /// other.
    fn settle(&mut self, a2b: bool, amount_in: u64, amount_out: u64, fee: u64) -> (r: Result<
        (),
        DlmmError,
    >)
        requires
            fee <= amount_in,
            amount_out <= old(self).reserve_out(a2b),
        ensures
            match old(self).settled(a2b, (amount_in, amount_out, fee, 0u64)) {
                Ok(bin) => r is Ok && *final(self) == bin,
                Err(e) => r == Err::<(), DlmmError>(e) && *final(self) == *old(self),
            },
    {
        let net: u64 = amount_in - fee;
        if a2b {
            let reserve: u64 = match self.amount_a.checked_add(net) {
                Some(sum) => sum,
                None => { return Err(DlmmError::MathOverflow); },
            };
            self.amount_a = reserve;
            self.amount_b = self.amount_b - amount_out;
        } else {
            let reserve: u64 = match self.amount_b.checked_add(net) {
                Some(sum) => sum,
                None => { return Err(DlmmError::MathOverflow); },
            };
            self.amount_a = self.amount_a - amount_out;
            self.amount_b = reserve;
        }
        Ok(())
    }

    /// Sells up to `amount_in` into the bin. Returns the input taken, the
    /// output given, the fee and the protocol's share of it. A failed swap
    /// leaves the bin as it was.
    pub fn swap_exact_amount_in(
        &mut self,
        amount_in: u64,
        a2b: bool,
        fee_rate: u64,
        protocol_fee_rate: u64,
    ) -> (r: Result<(u64, u64, u64, u64), DlmmError>)
        ensures
            match old(self).swap_exact_amount_in_spec(amount_in, a2b, fee_rate, protocol_fee_rate) {
                Ok((bin, fill)) => r == Ok::<Fill, DlmmError>(fill) && *final(self) == bin,
                Err(e) => r == Err::<Fill, DlmmError>(e) && *final(self) == *old(self),
            },
            r matches Ok(fill) ==> {
                &&& fill.0 <= amount_in
                &&& fill.1 <= old(self).reserve_out(a2b)
                &&& fill.3 <= fill.2 <= fill.0
                &&& (fill.2 == 0 <==> fill.0 == 0 || fee_rate == 0)
                &&& final(self).reserve_out(a2b) == old(self).reserve_out(a2b) - fill.1
                &&& final(self).reserve_in(a2b) == old(self).reserve_in(a2b) + fill.0 - fill.2
            },
            r matches Err(e) ==> e == DlmmError::InvalidInput || e == DlmmError::MathOverflow,
            old(self).price != 0 && fee_rate <= FEE_PRECISION && protocol_fee_rate <= FEE_PRECISION
                && amount_out_spec(amount_in, old(self).price, a2b) is Ok && old(self).reserve_in(
                a2b,
            ) + amount_in <= u64::MAX ==> r is Ok,
    {
        proof {
            lemma_exact_in_fill_keeps_its_invariant(
                self.reserve_out(a2b),
                self.price,
                amount_in,
                a2b,
                fee_rate,
                protocol_fee_rate,
            );
            if self.price != 0 && fee_rate <= FEE_PRECISION && protocol_fee_rate <= FEE_PRECISION
                && amount_out_spec(amount_in, self.price, a2b) is Ok && self.reserve_in(a2b)
                + amount_in <= u64::MAX {
                lemma_exact_in_succeeds(*self, amount_in, a2b, fee_rate, protocol_fee_rate);
            }
        }
        let available: u64 = if a2b {
            self.amount_b
        } else {
            self.amount_a
        };
        let fee_amount: u64 = calculate_fee_inclusive(amount_in, fee_rate)?;
        let amount_out: u64 = calculate_amount_out(amount_in - fee_amount, self.price, a2b)?;
        let (amount_in, amount_out, fee_amount): (u64, u64, u64) = if amount_out <= available {
            (amount_in, amount_out, fee_amount)
        } else {
            let amount_in_without_fee: u64 = calculate_amount_in(available, self.price, a2b)?;
            let fee_amount: u64 = calculate_fee_exclusive(amount_in_without_fee, fee_rate)?;
            if amount_in_without_fee as u128 + fee_amount as u128 > amount_in as u128 {
                return Err(DlmmError::InvariantViolation);
            }
            (amount_in_without_fee + fee_amount, available, fee_amount)
        };
        let protocol_fee: u64 = calculate_fee_inclusive(fee_amount, protocol_fee_rate)?;
        self.settle(a2b, amount_in, amount_out, fee_amount)?;
        Ok((amount_in, amount_out, fee_amount, protocol_fee))
    }

    /// Buys up to `amount_out` from the bin. Returns the input taken, the
    /// output given, the fee and the protocol's share of it. A failed swap
    /// leaves the bin as it was.
    pub fn swap_exact_amount_out(
        &mut self,
        amount_out: u64,
        a2b: bool,
        fee_rate: u64,
        protocol_fee_rate: u64,
    ) -> (r: Result<(u64, u64, u64, u64), DlmmError>)
        ensures
            match old(self).swap_exact_amount_out_spec(amount_out, a2b, fee_rate, protocol_fee_rate) {
                Ok((bin, fill)) => r == Ok::<Fill, DlmmError>(fill) && *final(self) == bin,
                Err(e) => r == Err::<Fill, DlmmError>(e) && *final(self) == *old(self),
            },
            r matches Ok(fill) ==> {
                &&& fill.1 <= amount_out
                &&& fill.1 <= old(self).reserve_out(a2b)
                &&& (fill.1 == amount_out || fill.1 == old(self).reserve_out(a2b))
                &&& fill.3 <= fill.2 <= fill.0
                &&& (fill.2 == 0 <==> fill.0 == 0 || fee_rate == 0)
                &&& final(self).reserve_out(a2b) == old(self).reserve_out(a2b) - fill.1
                &&& final(self).reserve_in(a2b) == old(self).reserve_in(a2b) + fill.0 - fill.2
            },
            r matches Err(e) ==> e == DlmmError::InvalidInput || e == DlmmError::MathOverflow,
    {
        let available: u64 = if a2b {
            self.amount_b
        } else {
            self.amount_a
        };
        let allow_amount_out: u64 = if available <= amount_out {
            available
        } else {
            amount_out
        };
        let amount_in_without_fee: u64 = calculate_amount_in(allow_amount_out, self.price, a2b)?;
        let fee_amount: u64 = calculate_fee_exclusive(amount_in_without_fee, fee_rate)?;
        let amount_in_with_fee: u64 = match amount_in_without_fee.checked_add(fee_amount) {
            Some(sum) => sum,
            None => { return Err(DlmmError::MathOverflow); },
        };
        let protocol_fee: u64 = calculate_fee_inclusive(fee_amount, protocol_fee_rate)?;
        self.settle(a2b, amount_in_with_fee, allow_amount_out, fee_amount)?;
        Ok((amount_in_with_fee, allow_amount_out, fee_amount, protocol_fee))
    }
}

} // verus!
