//! The pool: an ordered row of bins with an active bin and a fee state, and
//! the router that carries a swap from bin to bin.

use crate::bin::Bin;
use crate::config::VariableParameters;
use crate::error::DlmmError;
use crate::books::{
    bin_after_step,
    bin_is_filled,
    lemma_all_undone,
    lemma_booked_ids,
    lemma_nothing_booked,
    lemma_step_booked,
    lemma_step_undone,
    lemma_steps_follow_the_row,
    only_bin_touched,
    pool_is_settled,
    settled_total,
    steps_are_booked,
    steps_are_booked_from,
    swap_is_sound,
    swapped,
    total_amount_in,
    total_amount_out,
    total_fee_taken,
};
use crate::fee_model::{
    accumulated_volatility,
    lemma_variable_fee_fits,
    references_updated,
    total_fee,
    variable_fee,
    VARIABLE_FEE_SCALE,
};
use crate::math::BASIS_POINT_MAX;
use crate::row::{
    ascending,
    bins_up_to,
    first_swap_bin,
    following_bin,
    has_bin_with_id,
    last_with_its_id,
    lemma_adjacent_ascending,
    lemma_bins_up_to_splits,
    nth_bin,
    position,
};
use crate::route::{
    bins_ahead,
    concluded,
    cross_bin,
    fill_bin,
    lemma_route_ends,
    lemma_route_goes_on,
    route,
    swap_spec,
    Route,
};
use crate::MAX_FEE_RATE;
use std::collections::HashMap;
use vstd::prelude::*;

verus! {

/// What one bin contributed to a swap.
#[derive(Debug, Clone, Copy)]
pub struct BinSwap {
    /// The bin that was traded against.
    pub bin_id: i32,
    /// The input taken, fee included.
    pub amount_in: u64,
    /// The output given.
    pub amount_out: u64,
    /// The fee taken.
    pub fee: u64,
    /// The variable fee rate in effect.
    pub var_fee_rate: u64,
}

impl Default for BinSwap {
    /// The step that moved nothing.
    fn default() -> (step: Self)
        ensures
            step == (BinSwap { bin_id: 0, amount_in: 0, amount_out: 0, fee: 0, var_fee_rate: 0 }),
    {
        BinSwap { bin_id: 0, amount_in: 0, amount_out: 0, fee: 0, var_fee_rate: 0 }
    }
}

/// The outcome of a swap.
#[derive(Debug)]
pub struct SwapResult {
    /// The input taken over all bins, fees included.
    pub amount_in: u64,
    /// The output given over all bins.
    pub amount_out: u64,
    /// The fees taken over all bins.
    pub fee: u64,
    /// The referral's share of the fees.
    pub ref_fee: u64,
    /// The protocol's share of the fees.
    pub protocol_fee: u64,
    /// What each bin contributed, in the order of the visits.
    pub steps: Vec<BinSwap>,
    /// Whether the pool ran out of bins before the request was filled.
    pub is_exceed: bool,
}

/// A swap result as a mathematical value.
pub struct SwapResultView {
    pub amount_in: u64,
    pub amount_out: u64,
    pub fee: u64,
    pub ref_fee: u64,
    pub protocol_fee: u64,
    pub steps: Seq<BinSwap>,
    pub is_exceed: bool,
}

impl View for SwapResult {
    type V = SwapResultView;

    open spec fn view(&self) -> SwapResultView {
        SwapResultView {
            amount_in: self.amount_in,
            amount_out: self.amount_out,
            fee: self.fee,
            ref_fee: self.ref_fee,
            protocol_fee: self.protocol_fee,
            steps: self.steps@,
            is_exceed: self.is_exceed,
        }
    }
}

impl SwapResultView {
    /// The result of a swap that has not met a bin yet.
    pub open spec fn empty() -> SwapResultView {
        SwapResultView {
            amount_in: 0,
            amount_out: 0,
            fee: 0,
            ref_fee: 0,
            protocol_fee: 0,
            steps: Seq::empty(),
            is_exceed: false,
        }
    }

    /// The result with one more step: the step's amounts added to the
    /// totals, the step appended.
    pub open spec fn with_step(self, step: BinSwap) -> SwapResultView {
        SwapResultView {
            amount_in: (self.amount_in + step.amount_in) as u64,
            amount_out: (self.amount_out + step.amount_out) as u64,
            fee: (self.fee + step.fee) as u64,
            steps: self.steps.push(step),
            ..self
        }
    }

    /// Whether the totals can take one more step within 64 bits.
    pub open spec fn has_room_for(self, step: BinSwap) -> bool {
        &&& self.amount_in + step.amount_in <= u64::MAX
        &&& self.amount_out + step.amount_out <= u64::MAX
        &&& self.fee + step.fee <= u64::MAX
    }
}

impl Default for SwapResult {
    /// The result of a swap that has not met a bin yet.
    fn default() -> (result: Self)
        ensures
            result@ == SwapResultView::empty(),
    {
        SwapResult {
            amount_in: 0,
            amount_out: 0,
            fee: 0,
            ref_fee: 0,
            protocol_fee: 0,
            steps: Vec::new(),
            is_exceed: false,
        }
    }
}

impl Clone for SwapResult {
    /// A copy of the result.
    fn clone(&self) -> (result: Self)
        ensures
            result@ == self@,
    {
        let steps = self.steps.clone();
        assert(steps@ =~= self.steps@);
        SwapResult {
            amount_in: self.amount_in,
            amount_out: self.amount_out,
            fee: self.fee,
            ref_fee: self.ref_fee,
            protocol_fee: self.protocol_fee,
            steps,
            is_exceed: self.is_exceed,
        }
    }
}

impl SwapResult {
    /// Adds a step to the totals and to the list of steps. The totals have
    /// room for it.
    pub fn update_swap_result(&mut self, swap_step: BinSwap)
        requires
            old(self)@.has_room_for(swap_step),
        ensures
            final(self)@ == old(self)@.with_step(swap_step),
    {
        self.amount_in = self.amount_in + swap_step.amount_in;
        self.amount_out = self.amount_out + swap_step.amount_out;
        self.fee = self.fee + swap_step.fee;
        self.steps.push(swap_step);
    }
}

/// A pool of bins.
#[derive(Debug)]
pub struct Pool {
    /// The id of the bin at the current price.
    pub active_id: i32,
    /// The fee rate before the variable fee.
    pub base_fee_rate: u64,
    /// The volatility state and the fixed parameters.
    pub v_parameters: VariableParameters,
    /// The bins, in ascending order of their ids.
    pub bins: Vec<Bin>,
}

/// A pool as a mathematical value.
pub struct PoolView {
    pub active_id: i32,
    pub base_fee_rate: u64,
    pub v_parameters: VariableParameters,
    pub bins: Seq<Bin>,
}

impl View for Pool {
    type V = PoolView;

    open spec fn view(&self) -> PoolView {
        PoolView {
            active_id: self.active_id,
            base_fee_rate: self.base_fee_rate,
            v_parameters: self.v_parameters,
            bins: self.bins@,
        }
    }
}

impl Clone for Pool {
    /// A copy of the pool, with a copy of every bin in its place.
    fn clone(&self) -> (pool: Self)
        ensures
            pool.active_id == self.active_id,
            pool.base_fee_rate == self.base_fee_rate,
            pool.v_parameters == self.v_parameters,
            pool.bins@.len() == self.bins@.len(),
            forall|i: int|
                0 <= i < self.bins@.len() ==> (#[trigger] pool.bins@[i]).same_as(self.bins@[i]),
    {
        let mut bins: Vec<Bin> = Vec::new();
        let mut i: usize = 0;
        while i < self.bins.len()
            invariant
                i <= self.bins@.len(),
                bins@.len() == i,
                forall|j: int| 0 <= j < i ==> (#[trigger] bins@[j]).same_as(self.bins@[j]),
            decreases self.bins@.len() - i,
        {
            bins.push(self.bins[i].clone());
            i = i + 1;
        }
        Pool {
            active_id: self.active_id,
            base_fee_rate: self.base_fee_rate,
            v_parameters: self.v_parameters,
            bins,
        }
    }
}

impl Pool {
    /// Whether the pool is one that swaps are defined on: its bins ascend by
    /// id, so that no id occurs twice.
    pub open spec fn wf(&self) -> bool {
        ascending(self.bins@)
    }

    /// A pool of the given parts.
    pub fn new(active_id: i32, base_fee_rate: u64, v_parameters: VariableParameters, bins: Vec<Bin>) -> (pool:
        Self)
        ensures
            pool.active_id == active_id,
            pool.base_fee_rate == base_fee_rate,
            pool.v_parameters == v_parameters,
            pool.bins == bins,
    {
        Self { active_id, base_fee_rate, v_parameters, bins }
    }

    /// The bins by their ids. Of two bins with one id the later is kept.
    pub fn bins_map(&self) -> (map: HashMap<i32, Bin>)
        ensures
            forall|id: i32| #[trigger]
                map@.contains_key(id) <==> has_bin_with_id(self.bins@, self.bins@.len() as int, id),
            forall|i: int|
                0 <= i < self.bins@.len() && #[trigger] last_with_its_id(
                    self.bins@,
                    i,
                    self.bins@.len() as int,
                ) ==> map@.contains_key(self.bins@[i].id) && map@[self.bins@[i].id].same_as(
                    self.bins@[i],
                ),
            self.wf() ==> forall|i: int|
                0 <= i < self.bins@.len() ==> map@.contains_key((#[trigger] self.bins@[i]).id)
                    && map@[self.bins@[i].id].same_as(self.bins@[i]),
    {
        broadcast use vstd::std_specs::hash::group_hash_axioms;

        let mut map: HashMap<i32, Bin> = HashMap::new();
        let mut i: usize = 0;
        while i < self.bins.len()
            invariant
                i <= self.bins@.len(),
                forall|id: i32| #[trigger]
                    map@.contains_key(id) <==> has_bin_with_id(self.bins@, i as int, id),
                forall|j: int|
                    0 <= j < i && #[trigger] last_with_its_id(self.bins@, j, i as int)
                        ==> map@.contains_key(self.bins@[j].id) && map@[self.bins@[j].id].same_as(
                        self.bins@[j],
                    ),
            decreases self.bins@.len() - i,
        {
            let bin = self.bins[i].clone();
            let ghost earlier = map@;
            map.insert(bin.id, bin);
            proof {
                assert forall|id: i32| #[trigger]
                    map@.contains_key(id) <==> has_bin_with_id(self.bins@, i + 1, id) by {
                    if has_bin_with_id(self.bins@, i + 1, id) {
                        let k = choose|k: int| 0 <= k < i + 1 && (#[trigger] self.bins@[k]).id == id;
                        if k < i {
                            assert(has_bin_with_id(self.bins@, i as int, id));
                        }
                    }
                    if earlier.contains_key(id) {
                        assert(has_bin_with_id(self.bins@, i as int, id));
                        let k = choose|k: int| 0 <= k < i && (#[trigger] self.bins@[k]).id == id;
                        assert(0 <= k < i + 1);
                    }
                    if id == self.bins@[i as int].id {
                        assert(has_bin_with_id(self.bins@, i + 1, id));
                    }
                }
                assert forall|j: int|
                    0 <= j < i + 1 && #[trigger] last_with_its_id(
                        self.bins@,
                        j,
                        i + 1,
                    ) implies map@.contains_key(self.bins@[j].id) && map@[self.bins@[j].id].same_as(
                    self.bins@[j],
                ) by {
                    if j < i {
                        assert(self.bins@[i as int].id != self.bins@[j].id);
                        assert(last_with_its_id(self.bins@, j, i as int));
                    }
                }
            }
            i = i + 1;
        }
        proof {
            if self.wf() {
                assert forall|i: int| 0 <= i < self.bins@.len() implies map@.contains_key(
                    (#[trigger] self.bins@[i]).id,
                ) && map@[self.bins@[i].id].same_as(self.bins@[i]) by {
                    assert(last_with_its_id(self.bins@, i, self.bins@.len() as int));
                }
            }
        }
        map
    }

    /// Whether the bins ascend strictly by id.
    pub fn is_well_formed(&self) -> (ok: bool)
        ensures
            ok == self.wf(),
    {
        let mut i: usize = 1;
        while i < self.bins.len()
            invariant
                1 <= i,
                forall|k: int| 0 <= k < i - 1 && k + 1 < self.bins.len() ==> (
                #[trigger] self.bins[k]).id < self.bins[k + 1].id,
            decreases self.bins.len() - i,
        {
            if self.bins[i - 1].id >= self.bins[i].id {
                return false;
            }
            i = i + 1;
        }
        proof {
            lemma_adjacent_ascending(self.bins@);
        }
        true
    }

    /// Brings the volatility references up to `current_timestamp`, at the
    /// start of a swap. A timestamp that is not later than the last swap
    /// changes nothing; a failure changes nothing either.
    pub fn update_references(&mut self, current_timestamp: u64) -> (r: Result<(), DlmmError>)
        ensures
            match references_updated(
                old(self).v_parameters,
                old(self).active_id,
                current_timestamp,
            ) {
                Ok(v) => r is Ok && *final(self) == (Pool { v_parameters: v, ..*old(self) }),
                Err(e) => r == Err::<(), DlmmError>(e) && *final(self) == *old(self),
            },
            current_timestamp <= old(self).v_parameters.last_update_timestamp ==> r is Ok
                && *final(self) == *old(self),
    {
        let last: u64 = self.v_parameters.last_update_timestamp;
        if current_timestamp <= last {
            return Ok(());
        }
        let elapsed: u64 = current_timestamp - last;
        if elapsed >= self.v_parameters.bin_step_config.filter_period as u64 {
            if elapsed < self.v_parameters.bin_step_config.decay_period as u64 {
                let product: u64 = match (self.v_parameters.volatility_accumulator as u64).checked_mul(
                    self.v_parameters.bin_step_config.reduction_factor as u64,
                ) {
                    Some(p) => p,
                    None => { return Err(DlmmError::MathOverflow); },
                };
                let scaled: u64 = match product.checked_div(BASIS_POINT_MAX as u64) {
                    Some(q) => q,
                    None => { return Err(DlmmError::MathOverflow); },
                };
                if scaled > u32::MAX as u64 {
                    return Err(DlmmError::MathOverflow);
                }
                self.v_parameters.index_reference = self.active_id;
                self.v_parameters.volatility_reference = scaled as u32;
            } else {
                self.v_parameters.index_reference = self.active_id;
                self.v_parameters.volatility_reference = 0;
            }
        }
        Ok(())
    }

    /// Brings the volatility accumulator up to the active bin. This cannot
    /// fail.
    pub fn update_volatility_accumulator(&mut self) -> (r: Result<(), DlmmError>)
        ensures
            r is Ok,
            *final(self) == (Pool {
                v_parameters: VariableParameters {
                    volatility_accumulator: accumulated_volatility(
                        old(self).v_parameters,
                        old(self).active_id,
                    ),
                    ..old(self).v_parameters
                },
                ..*old(self)
            }),
            final(self).v_parameters.volatility_accumulator
                <= final(self).v_parameters.bin_step_config.max_volatility_accumulator,
    {
        let max_accumulator: u32 = self.v_parameters.bin_step_config.max_volatility_accumulator;
        let difference: i64 = self.v_parameters.index_reference as i64 - self.active_id as i64;
        let delta_id: u64 = if difference < 0 {
            (-difference) as u64
        } else {
            difference as u64
        };
        let moved: u64 = match delta_id.checked_mul(BASIS_POINT_MAX as u64) {
            Some(p) => p,
            None => { return Err(DlmmError::MathOverflow); },
        };
        let accumulator: u64 = match (self.v_parameters.volatility_reference as u64).checked_add(
            moved,
        ) {
            Some(sum) => sum,
            None => { return Err(DlmmError::MathOverflow); },
        };
        let capped: u64 = if accumulator <= max_accumulator as u64 {
            accumulator
        } else {
            max_accumulator as u64
        };
        self.v_parameters.volatility_accumulator = capped as u32;
        Ok(())
    }

    /// The variable fee rate at the pool's accumulator. This cannot fail.
    pub fn get_variable_fee(&self) -> (r: Result<u128, DlmmError>)
        ensures
            r == Ok::<u128, DlmmError>(
                variable_fee(
                    self.v_parameters.bin_step_config,
                    self.v_parameters.volatility_accumulator,
                ) as u128,
            ),
    {
        self.compute_variable_fee(self.v_parameters.volatility_accumulator)
    }

    /// The variable fee rate at the given accumulator. This cannot fail:
    /// every product on the way fits 128 bits.
    pub fn compute_variable_fee(&self, volatility_accumulator: u32) -> (r: Result<u128, DlmmError>)
        ensures
            r == Ok::<u128, DlmmError>(
                variable_fee(self.v_parameters.bin_step_config, volatility_accumulator) as u128,
            ),
    {
        if self.v_parameters.bin_step_config.variable_fee_control > 0 {
            let va: u128 = volatility_accumulator as u128;
            let bin_step: u128 = self.v_parameters.bin_step_config.bin_step as u128;
            let variable_fee_control: u128 =
                self.v_parameters.bin_step_config.variable_fee_control as u128;
            proof {
                lemma_variable_fee_fits(self.v_parameters.bin_step_config, volatility_accumulator);
            }
            let combined: u128 = match va.checked_mul(bin_step) {
                Some(p) => p,
                None => { return Err(DlmmError::MathOverflow); },
            };
            let square: u128 = match combined.checked_mul(combined) {
                Some(p) => p,
                None => { return Err(DlmmError::MathOverflow); },
            };
            let v_fee: u128 = match variable_fee_control.checked_mul(square) {
                Some(p) => p,
                None => { return Err(DlmmError::MathOverflow); },
            };
            let padded: u128 = match v_fee.checked_add(99_999_999_999) {
                Some(sum) => sum,
                None => { return Err(DlmmError::MathOverflow); },
            };
            let scaled_v_fee: u128 = match padded.checked_div(VARIABLE_FEE_SCALE) {
                Some(q) => q,
                None => { return Err(DlmmError::MathOverflow); },
            };
            return Ok(scaled_v_fee);
        }
        Ok(0)
    }

    /// The total fee rate, held at `MAX_FEE_RATE`, and the variable fee
    /// rate. Fails where the variable fee rate does not fit 64 bits.
    pub fn get_total_fee(&self) -> (r: Result<(u64, u64), DlmmError>)
        ensures
            r == total_fee(
                self.base_fee_rate,
                self.v_parameters.bin_step_config,
                self.v_parameters.volatility_accumulator,
            ),
            r matches Ok(rates) ==> rates.0 <= MAX_FEE_RATE,
    {
        proof {
            lemma_variable_fee_fits(
                self.v_parameters.bin_step_config,
                self.v_parameters.volatility_accumulator,
            );
        }
        let variable: u128 = self.get_variable_fee()?;
        if variable > u64::MAX as u128 {
            return Err(DlmmError::MathOverflow);
        }
        let total_fee_rate: u128 = match (self.base_fee_rate as u128).checked_add(variable) {
            Some(sum) => sum,
            None => { return Err(DlmmError::MathOverflow); },
        };
        let capped: u128 = if total_fee_rate <= MAX_FEE_RATE as u128 {
            total_fee_rate
        } else {
            MAX_FEE_RATE as u128
        };
        Ok((capped as u64, variable as u64))
    }

    /// Sells `amount_in` into the pool, bin after bin from the active one. A
    /// swap that fails leaves the pool as it was.
    pub fn swap_exact_amount_in(&mut self, amount_in: u64, a2b: bool, current_timestamp: u64) -> (r:
        Result<SwapResult, DlmmError>)
        requires
            old(self).wf(),
        ensures
            final(self).wf(),
            swapped(old(self)@, final(self)@, r, amount_in, a2b, true, current_timestamp),
            r matches Ok(result) ==> swap_is_sound(old(self)@, result@, amount_in, a2b, true),
            r matches Ok(result) ==> pool_is_settled(
                old(self)@,
                final(self)@,
                result@,
                a2b,
                current_timestamp,
            ),
            r matches Err(e) ==> e == DlmmError::InvalidInput || e == DlmmError::MathOverflow,
    {
        self.swap_in_pool(amount_in, a2b, true, current_timestamp)
    }

    /// Buys `amount_out` from the pool, bin after bin from the active one. A
    /// swap that fails leaves the pool as it was.
    pub fn swap_exact_amount_out(&mut self, amount_out: u64, a2b: bool, current_timestamp: u64) -> (r:
        Result<SwapResult, DlmmError>)
        requires
            old(self).wf(),
        ensures
            final(self).wf(),
            swapped(old(self)@, final(self)@, r, amount_out, a2b, false, current_timestamp),
            r matches Ok(result) ==> swap_is_sound(old(self)@, result@, amount_out, a2b, false),
            r matches Ok(result) ==> pool_is_settled(
                old(self)@,
                final(self)@,
                result@,
                a2b,
                current_timestamp,
            ),
            r matches Err(e) ==> e == DlmmError::InvalidInput || e == DlmmError::MathOverflow,
    {
        self.swap_in_pool(amount_out, a2b, false, current_timestamp)
    }

    /// Prices and fills the bin at `index` for `amount`: brings the
    /// accumulator up to the active bin, derives the fee rate, and swaps
    /// against the bin. Returns the step and the protocol's share of its fee.
    /// A failure leaves every bin as it was; the accumulator has moved all
    /// the same.
    pub fn swap_in_bin(&mut self, index: usize, amount: u64, a2b: bool, by_amount_in: bool) -> (r:
        Result<(BinSwap, u64), DlmmError>)
        requires
            index < old(self).bins.len(),
        ensures
            match fill_bin(old(self)@, index as int, amount, a2b, by_amount_in) {
                Ok((pool, step, protocol_fee)) => r == Ok::<(BinSwap, u64), DlmmError>(
                    (step, protocol_fee),
                ) && final(self)@ == pool,
                Err(e) => r == Err::<(BinSwap, u64), DlmmError>(e),
            },
            only_bin_touched(old(self)@, final(self)@, index as int),
            r matches Ok((step, protocol_fee)) ==> bin_is_filled(
                old(self)@,
                final(self)@,
                index as int,
                step,
                protocol_fee,
                amount,
                a2b,
                by_amount_in,
            ),
            r matches Err(e) ==> e == DlmmError::InvalidInput || e == DlmmError::MathOverflow,
            r is Err ==> final(self).bins@ == old(self).bins@,
    {
        proof {
            reveal(fill_bin);
        }
        let protocol_fee_rate: u64 = self.v_parameters.bin_step_config.protocol_fee_rate;
        let _ = self.update_volatility_accumulator()?;
        let (fee_rate, dy_fee_rate): (u64, u64) = self.get_total_fee()?;
        let ghost priced = self.bins@;
        let filled = if by_amount_in {
            self.bins[index].swap_exact_amount_in(amount, a2b, fee_rate, protocol_fee_rate)
        } else {
            self.bins[index].swap_exact_amount_out(amount, a2b, fee_rate, protocol_fee_rate)
        };
        assert(self.bins@ =~= priced.update(index as int, self.bins@[index as int]));
        let (amount_in, amount_out, fee, bin_protocol_fee): (u64, u64, u64, u64) = filled?;
        Ok(
            (
                BinSwap {
                    bin_id: self.bins[index].id,
                    amount_in,
                    amount_out,
                    fee,
                    var_fee_rate: dy_fee_rate,
                },
                bin_protocol_fee,
            ),
        )
    }

    /// Takes the fill that `step` records back out of the bin at `index`,
    /// which was `bin` before the fill.
    fn undo_step(&mut self, index: usize, step: BinSwap, a2b: bool, Ghost(bin): Ghost<Bin>)
        requires
            index < old(self).bins@.len(),
            step.fee <= step.amount_in,
            step.amount_out <= bin.reserve_out(a2b),
            bin.reserve_in(a2b) + step.amount_in - step.fee <= u64::MAX,
            old(self).bins@[index as int] == bin_after_step(bin, step, a2b),
        ensures
            final(self).bins@ == old(self).bins@.update(index as int, bin),
            final(self).active_id == old(self).active_id,
            final(self).base_fee_rate == old(self).base_fee_rate,
            final(self).v_parameters == old(self).v_parameters,
    {
        let net: u64 = step.amount_in - step.fee;
        let reserve_a: u64 = self.bins[index].amount_a;
        let reserve_b: u64 = self.bins[index].amount_b;
        if a2b {
            self.bins[index].amount_a = reserve_a - net;
            self.bins[index].amount_b = reserve_b + step.amount_out;
        } else {
            self.bins[index].amount_a = reserve_a + step.amount_out;
            self.bins[index].amount_b = reserve_b - net;
        }
        assert(self.bins@ =~= old(self).bins@.update(index as int, bin));
    }

    /// Prices and fills the bin at `index` as `swap_in_bin` does, and then
    /// makes sure that the totals in `totals` have room for the step. Where
    /// they have not, the fill is taken back out of the bin.
    fn cross(
        &mut self,
        index: usize,
        amount: u64,
        a2b: bool,
        by_amount_in: bool,
        totals: &SwapResult,
    ) -> (r: Result<(BinSwap, u64), DlmmError>)
        requires
            index < old(self).bins.len(),
        ensures
            match fill_bin(old(self)@, index as int, amount, a2b, by_amount_in) {
                Ok((pool, step, protocol_fee)) => if totals@.has_room_for(step) {
                    r == Ok::<(BinSwap, u64), DlmmError>((step, protocol_fee)) && final(self)@
                        == pool
                } else {
                    r == Err::<(BinSwap, u64), DlmmError>(DlmmError::MathOverflow)
                },
                Err(e) => r == Err::<(BinSwap, u64), DlmmError>(e),
            },
            only_bin_touched(old(self)@, final(self)@, index as int),
            r matches Ok((step, protocol_fee)) ==> totals@.has_room_for(step) && bin_is_filled(
                old(self)@,
                final(self)@,
                index as int,
                step,
                protocol_fee,
                amount,
                a2b,
                by_amount_in,
            ),
            r matches Err(e) ==> e == DlmmError::InvalidInput || e == DlmmError::MathOverflow,
            r is Err ==> final(self).bins@ == old(self).bins@,
    {
        let (step, protocol_fee): (BinSwap, u64) = self.swap_in_bin(
            index,
            amount,
            a2b,
            by_amount_in,
        )?;
        if step.amount_in > u64::MAX - totals.amount_in || step.amount_out > u64::MAX
            - totals.amount_out || step.fee > u64::MAX - totals.fee {
            self.undo_step(index, step, a2b, Ghost(old(self).bins@[index as int]));
            assert(self.bins@ =~= old(self).bins@);
            return Err(DlmmError::MathOverflow);
        }
        Ok((step, protocol_fee))
    }

    /// Takes a swap that has failed back out of the pool: the fills of its
    /// steps out of the bins, and the fee state and the active bin back to
    /// what they were.
    fn roll_back(
        &mut self,
        steps: &Vec<BinSwap>,
        start: Option<usize>,
        a2b: bool,
        active_id: i32,
        volatility_accumulator: u32,
        volatility_reference: u32,
        index_reference: i32,
        Ghost(origin): Ghost<Seq<Bin>>,
    )
        requires
            steps_are_booked(origin, old(self).bins@, steps@, position(start), a2b),
        ensures
            final(self).bins@ == origin,
            final(self).active_id == active_id,
            final(self).base_fee_rate == old(self).base_fee_rate,
            final(self).v_parameters == (VariableParameters {
                volatility_accumulator,
                volatility_reference,
                index_reference,
                ..old(self).v_parameters
            }),
    {
        let ghost first = position(start);
        let mut k: usize = 0;
        while k < steps.len()
            invariant
                k <= steps@.len(),
                first == position(start),
                self.active_id == old(self).active_id,
                self.base_fee_rate == old(self).base_fee_rate,
                self.v_parameters == old(self).v_parameters,
                steps_are_booked_from(origin, self.bins@, steps@, first, a2b, k as int),
            decreases steps@.len() - k,
        {
            proof {
                reveal(steps_are_booked_from);
            }
            assert(bins_ahead(first, origin.len(), a2b) > k);
            assert(self.bins.len() == origin.len());
            let index: usize = if a2b {
                start.unwrap() - k
            } else {
                start.unwrap() + k
            };
            let ghost undone = self.bins@;
            assert(index as int == nth_bin(first->Some_0, k as int, a2b));
            assert(steps@[k as int].fee <= steps@[k as int].amount_in);
            self.undo_step(index, steps[k], a2b, Ghost(origin[index as int]));
            proof {
                lemma_step_undone(origin, undone, steps@, first, a2b, k as int, self.bins@);
            }
            k = k + 1;
        }
        proof {
            lemma_all_undone(origin, self.bins@, steps@, first, a2b);
        }
        self.active_id = active_id;
        self.v_parameters.volatility_accumulator = volatility_accumulator;
        self.v_parameters.volatility_reference = volatility_reference;
        self.v_parameters.index_reference = index_reference;
    }

    /// Carries a swap across the pool: `amount` is an input to sell where
    /// `by_amount_in` holds, an output to buy where it does not. A swap that
    /// fails is taken back: the pool is left as it was.
    pub fn swap_in_pool(
        &mut self,
        amount: u64,
        a2b: bool,
        by_amount_in: bool,
        current_timestamp: u64,
    ) -> (r: Result<SwapResult, DlmmError>)
        requires
            old(self).wf(),
        ensures
            final(self).wf(),
            swapped(old(self)@, final(self)@, r, amount, a2b, by_amount_in, current_timestamp),
            r matches Ok(result) ==> swap_is_sound(old(self)@, result@, amount, a2b, by_amount_in),
            r matches Ok(result) ==> pool_is_settled(
                old(self)@,
                final(self)@,
                result@,
                a2b,
                current_timestamp,
            ),
            r matches Err(e) ==> e == DlmmError::InvalidInput || e == DlmmError::MathOverflow,
    {
        let ghost origin = self.bins@;
        if self.bins.len() == 0 {
            proof {
                lemma_nothing_booked(
                    origin,
                    first_swap_bin(origin, self.active_id, a2b),
                    a2b,
                );
            }
            return Ok(
                SwapResult {
                    amount_in: 0,
                    amount_out: 0,
                    fee: 0,
                    ref_fee: 0,
                    protocol_fee: 0,
                    steps: Vec::new(),
                    is_exceed: true,
                },
            );
        }
        let active_id: i32 = self.active_id;
        let volatility_accumulator: u32 = self.v_parameters.volatility_accumulator;
        let volatility_reference: u32 = self.v_parameters.volatility_reference;
        let index_reference: i32 = self.v_parameters.index_reference;
        self.update_references(current_timestamp)?;
        let (start, _) = self.find_first_swap_bin_index(self.active_id, a2b);
        let mut op_next_bin_idx: Option<usize> = start;
        let mut remaining_amount: u64 = amount;
        let mut swap_result = SwapResult::default();
        let mut protocol_fee_acc: u64 = 0;
        let ghost len = self.bins@.len();
        let ghost first = position(start);
        let ghost begun = Route {
            pool: self@,
            result: SwapResultView::empty(),
            remaining: amount,
            cursor: first,
        };
        let ghost goal = swap_spec(old(self)@, amount, a2b, by_amount_in, current_timestamp);
        assert(goal == match route(begun, a2b, by_amount_in) {
            Ok(end) => Ok::<(PoolView, SwapResultView), DlmmError>(concluded(end, current_timestamp)),
            Err(e) => Err::<(PoolView, SwapResultView), DlmmError>(e),
        });
        proof {
            lemma_nothing_booked(origin, first, a2b);
            lemma_bins_up_to_splits(origin, self.active_id);
        }

        while remaining_amount > 0 && op_next_bin_idx.is_some()
            invariant
                self.bins@.len() == len,
                origin == old(self).bins@,
                origin.len() == len,
                ascending(origin),
                first == position(start),
                first == first_swap_bin(origin, old(self).active_id, a2b),
                op_next_bin_idx matches Some(i) ==> i < len,
                !swap_result.is_exceed,
                swap_result.ref_fee == 0,
                goal == swap_spec(old(self)@, amount, a2b, by_amount_in, current_timestamp),
                goal == match route(begun, a2b, by_amount_in) {
                    Ok(end) => Ok::<(PoolView, SwapResultView), DlmmError>(
                        concluded(end, current_timestamp),
                    ),
                    Err(e) => Err::<(PoolView, SwapResultView), DlmmError>(e),
                },
                route(
                    Route {
                        pool: self@,
                        result: SwapResultView { protocol_fee: protocol_fee_acc, ..swap_result@ },
                        remaining: remaining_amount,
                        cursor: position(op_next_bin_idx),
                    },
                    a2b,
                    by_amount_in,
                ) == route(begun, a2b, by_amount_in),
                swap_result.steps@.len() + bins_ahead(position(op_next_bin_idx), len, a2b)
                    == bins_ahead(first, len, a2b),
                steps_are_booked(origin, self.bins@, swap_result.steps@, first, a2b),
                settled_total(swap_result@, by_amount_in) + remaining_amount == amount,
                swap_result.amount_in == total_amount_in(swap_result.steps@),
                swap_result.amount_out == total_amount_out(swap_result.steps@),
                swap_result.fee == total_fee_taken(swap_result.steps@),
                protocol_fee_acc <= swap_result.fee <= swap_result.amount_in,
                self.base_fee_rate == old(self).base_fee_rate,
                self.v_parameters.bin_step_config == old(self).v_parameters.bin_step_config,
                self.v_parameters.last_update_timestamp == old(
                    self,
                ).v_parameters.last_update_timestamp,
                active_id == old(self).active_id,
                volatility_accumulator == old(self).v_parameters.volatility_accumulator,
                volatility_reference == old(self).v_parameters.volatility_reference,
                index_reference == old(self).v_parameters.index_reference,
                swap_result.steps@.len() > 0 ==> self.v_parameters.volatility_accumulator
                    <= self.v_parameters.bin_step_config.max_volatility_accumulator,
                self.active_id == if swap_result.steps@.len() == 0 {
                    old(self).active_id
                } else if remaining_amount > 0 && op_next_bin_idx is Some {
                    origin[op_next_bin_idx->Some_0 as int].id
                } else if swap_result.steps@.len() == 1 {
                    old(self).active_id
                } else {
                    swap_result.steps@.last().bin_id
                },
            decreases bins_ahead(position(op_next_bin_idx), len, a2b),
        {
            let current_bin_idx: usize = op_next_bin_idx.unwrap();
            let next_bin_idx: Option<usize> = if a2b {
                if current_bin_idx > 0 {
                    Some(current_bin_idx - 1)
                } else {
                    None
                }
            } else if current_bin_idx < self.bins.len() - 1 {
                Some(current_bin_idx + 1)
            } else {
                None
            };
            let ghost before = Route {
                pool: self@,
                result: SwapResultView { protocol_fee: protocol_fee_acc, ..swap_result@ },
                remaining: remaining_amount,
                cursor: position(op_next_bin_idx),
            };
            let ghost steps_before = swap_result.steps@;
            let ghost bins_before = self.bins@;
            proof {
                lemma_route_goes_on(before, a2b, by_amount_in);
            }
            assert(current_bin_idx as int == nth_bin(
                first->Some_0,
                steps_before.len() as int,
                a2b,
            ));
            op_next_bin_idx = next_bin_idx;
            let (step_result, bin_protocol_fee): (BinSwap, u64) = match self.cross(
                current_bin_idx,
                remaining_amount,
                a2b,
                by_amount_in,
                &swap_result,
            ) {
                Ok(filled) => filled,
                Err(e) => {
                    assert(cross_bin(before, current_bin_idx as int, a2b, by_amount_in) == Err::<
                        Route,
                        DlmmError,
                    >(e));
                    self.roll_back(
                        &swap_result.steps,
                        start,
                        a2b,
                        active_id,
                        volatility_accumulator,
                        volatility_reference,
                        index_reference,
                        Ghost(origin),
                    );
                    return Err(e);
                },
            };
            proof {
                lemma_step_booked(
                    origin,
                    bins_before,
                    steps_before,
                    first,
                    a2b,
                    step_result,
                    self.bins@,
                );
                lemma_booked_ids(
                    origin,
                    self.bins@,
                    steps_before.push(step_result),
                    first,
                    a2b,
                );
            }
            if by_amount_in {
                remaining_amount = remaining_amount.saturating_sub(step_result.amount_in);
            } else {
                remaining_amount = remaining_amount.saturating_sub(step_result.amount_out);
            }
            protocol_fee_acc = protocol_fee_acc.saturating_add(bin_protocol_fee);
            swap_result.update_swap_result(step_result);
            if remaining_amount > 0 {
                if let Some(next_idx) = op_next_bin_idx {
                    self.active_id = self.bins[next_idx].id;
                }
            }
            proof {
                let after = Route {
                    pool: self@,
                    result: SwapResultView { protocol_fee: protocol_fee_acc, ..swap_result@ },
                    remaining: remaining_amount,
                    cursor: position(op_next_bin_idx),
                };
                assert(cross_bin(before, current_bin_idx as int, a2b, by_amount_in) == Ok::<
                    Route,
                    DlmmError,
                >(after));
                assert(swap_result.steps@.drop_last() =~= steps_before);
            }
        }
        proof {
            lemma_route_ends(
                Route {
                    pool: self@,
                    result: SwapResultView { protocol_fee: protocol_fee_acc, ..swap_result@ },
                    remaining: remaining_amount,
                    cursor: position(op_next_bin_idx),
                },
                a2b,
                by_amount_in,
            );
        }
        if remaining_amount > 0 {
            swap_result.is_exceed = true;
        }
        swap_result.protocol_fee = protocol_fee_acc;
        self.v_parameters.last_update_timestamp = current_timestamp;
        proof {
            lemma_booked_ids(origin, self.bins@, swap_result.steps@, first, a2b);
            lemma_steps_follow_the_row(origin, self.bins@, swap_result.steps@, first, a2b);
        }
        Ok(swap_result)
    }

    /// Finds the bin that a swap in the given direction starts at, and the
    /// one that follows it, by bisection.
    pub fn find_first_swap_bin_index(&self, current_bin_index: i32, a2b: bool) -> (r: (
        Option<usize>,
        Option<usize>,
    ))
        requires
            self.wf(),
        ensures
            position(r.0) == first_swap_bin(self.bins@, current_bin_index, a2b),
            position(r.1) == (match r.0 {
                Some(start) => following_bin(self.bins@.len(), start as int, a2b),
                None => None,
            }),
            r.0 matches Some(start) ==> start < self.bins.len(),
    {
        if self.bins.len() == 0 {
            return (None, None);
        }
        proof {
            lemma_bins_up_to_splits(self.bins@, current_bin_index);
        }
        let ghost below = bins_up_to(self.bins@, current_bin_index);
        if a2b {
            let mut left: usize = 0;
            let mut right: usize = self.bins.len() - 1;
            while left <= right
                invariant
                    a2b,
                    right < self.bins.len(),
                    left <= right + 1,
                    left <= below,
                    below <= right + 1,
                    left > 0 ==> left < below,
                    below <= self.bins.len(),
                    below == bins_up_to(self.bins@, current_bin_index),
                    forall|i: int| 0 <= i < below ==> (#[trigger] self.bins[i]).id <= current_bin_index,
                    forall|i: int|
                        below <= i < self.bins.len() ==> (#[trigger] self.bins[i]).id
                            > current_bin_index,
                decreases right + 1 - left,
            {
                let mid: usize = left + ((right - left) / 2);
                if self.bins[mid].id <= current_bin_index {
                    if mid == self.bins.len() - 1 || self.bins[mid + 1].id > current_bin_index {
                        let next_idx: Option<usize> = if mid > 0 {
                            Some(mid - 1)
                        } else {
                            None
                        };
                        return (Some(mid), next_idx);
                    } else {
                        left = mid + 1;
                    }
                } else if mid == 0 {
                    return (None, None);
                } else {
                    right = mid - 1;
                }
            }
            (None, None)
        } else {
            let mut left: usize = 0;
            let mut right: usize = self.bins.len() - 1;
            while left <= right
                invariant
                    !a2b,
                    right < self.bins.len(),
                    left <= right + 1,
                    left <= below,
                    right + 1 < self.bins.len() ==> below <= right,
                    below <= self.bins.len(),
                    below == bins_up_to(self.bins@, current_bin_index),
                    forall|i: int| 0 <= i < below ==> (#[trigger] self.bins[i]).id <= current_bin_index,
                    forall|i: int|
                        below <= i < self.bins.len() ==> (#[trigger] self.bins[i]).id
                            > current_bin_index,
                decreases right + 1 - left,
            {
                let mid: usize = left + ((right - left) / 2);
                if self.bins[mid].id > current_bin_index {
                    if mid == 0 || self.bins[mid - 1].id <= current_bin_index {
                        let next_idx: Option<usize> = if mid >= self.bins.len() - 1 {
                            None
                        } else {
                            Some(mid + 1)
                        };
                        return (Some(mid), next_idx);
                    } else {
                        right = mid - 1;
                    }
                } else {
                    left = mid + 1;
                }
            }
            (None, None)
        }
    }
}

} // verus!
