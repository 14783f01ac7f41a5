//! The dynamic fee: a volatility accumulator that follows the distance the
//! price has moved and fades with time, and the fee rate derived from it.

use crate::config::{BinStepConfig, VariableParameters};
use crate::error::DlmmError;
use crate::math::BASIS_POINT_MAX;
use crate::MAX_FEE_RATE;
use vstd::prelude::*;

verus! {

/// The divisor of the variable fee.
pub const VARIABLE_FEE_SCALE: u128 = 100_000_000_000;

/// The accumulator after a decay: the share `reduction_factor / 10000` of
/// it, truncated.
pub open spec fn decayed_volatility(v: VariableParameters) -> nat {
    (v.volatility_accumulator as nat) * (v.bin_step_config.reduction_factor as nat) / (
    BASIS_POINT_MAX as nat)
}

/// The volatility state at the start of a swap at time `now`, in a pool
/// whose active bin is `active_id`.
///
/// Nothing changes unless `now` is later than the last swap, and by at least
/// the filter period. Then the active bin becomes the baseline, and the
/// reference is the decayed accumulator within the decay period and zero
/// after it. A decayed accumulator that does not fit 32 bits is refused. The
/// time of the last swap is not touched here.
pub open spec fn references_updated(v: VariableParameters, active_id: i32, now: u64) -> Result<
    VariableParameters,
    DlmmError,
> {
    if now <= v.last_update_timestamp {
        Ok(v)
    } else {
        let elapsed = now - v.last_update_timestamp;
        if elapsed < v.bin_step_config.filter_period {
            Ok(v)
        } else if elapsed < v.bin_step_config.decay_period {
            if decayed_volatility(v) > u32::MAX {
                Err(DlmmError::MathOverflow)
            } else {
                Ok(
                    VariableParameters {
                        index_reference: active_id,
                        volatility_reference: decayed_volatility(v) as u32,
                        ..v
                    },
                )
            }
        } else {
            Ok(VariableParameters { index_reference: active_id, volatility_reference: 0, ..v })
        }
    }
}

/// The distance between two bin ids.
pub open spec fn id_distance(a: i32, b: i32) -> nat {
    if a >= b {
        (a - b) as nat
    } else {
        (b - a) as nat
    }
}

/// The accumulator for a pool whose active bin is `active_id`: the reference
/// plus 10000 for every bin between the baseline and the active bin, and no
/// more than the configured ceiling.
pub open spec fn accumulated_volatility(v: VariableParameters, active_id: i32) -> u32 {
    let raw = v.volatility_reference as nat + id_distance(v.index_reference, active_id) * (
    BASIS_POINT_MAX as nat);
    if raw <= v.bin_step_config.max_volatility_accumulator {
        raw as u32
    } else {
        v.bin_step_config.max_volatility_accumulator
    }
}

/// The variable fee rate at an accumulator of `volatility_accumulator`:
/// `ceil(variable_fee_control * (accumulator * bin_step)^2 / 10^11)`, and
/// zero where the control is zero.
pub open spec fn variable_fee(config: BinStepConfig, volatility_accumulator: u32) -> nat {
    if config.variable_fee_control > 0 {
        let combined = (volatility_accumulator as nat) * (config.bin_step as nat);
        ((config.variable_fee_control as nat) * (combined * combined) + 99_999_999_999) / (
        VARIABLE_FEE_SCALE as nat)
    } else {
        0
    }
}

/// The total fee rate and the variable fee rate: base plus variable, and no
/// more than `MAX_FEE_RATE`. A variable fee that does not fit 64 bits is
/// refused.
pub open spec fn total_fee(base_fee_rate: u64, config: BinStepConfig, volatility_accumulator: u32) -> Result<
    (u64, u64),
    DlmmError,
> {
    let variable = variable_fee(config, volatility_accumulator);
    if variable > u64::MAX {
        Err(DlmmError::MathOverflow)
    } else if base_fee_rate + variable <= MAX_FEE_RATE {
        Ok(((base_fee_rate + variable) as u64, variable as u64))
    } else {
        Ok((MAX_FEE_RATE, variable as u64))
    }
}

/// The variable fee fits 128 bits, and so does every product on the way to
/// it.
pub proof fn lemma_variable_fee_fits(config: BinStepConfig, volatility_accumulator: u32)
    ensures
        (volatility_accumulator as nat) * (config.bin_step as nat) < 0x1_0000_0000_0000nat,
        ((volatility_accumulator as nat) * (config.bin_step as nat)) * ((
        volatility_accumulator as nat) * (config.bin_step as nat))
            < 0x1_0000_0000_0000_0000_0000_0000nat,
        (config.variable_fee_control as nat) * (((volatility_accumulator as nat) * (
        config.bin_step as nat)) * ((volatility_accumulator as nat) * (config.bin_step as nat)))
            + 99_999_999_999 <= u128::MAX,
        variable_fee(config, volatility_accumulator) < 0x1_0000_0000_0000_0000_0000_0000nat,
{
    let va = volatility_accumulator as nat;
    let step = config.bin_step as nat;
    let control = config.variable_fee_control as nat;
    let combined = va * step;
    assert(combined <= 0xffff_ffffnat * 0xffffnat) by (nonlinear_arith)
        requires
            combined == va * step,
            va <= 0xffff_ffffnat,
            step <= 0xffffnat,
    ;
    let square = combined * combined;
    assert(square <= 0xffff_ffff_ffffnat * 0xffff_ffff_ffffnat) by (nonlinear_arith)
        requires
            square == combined * combined,
            combined <= 0xffff_ffff_ffffnat,
    ;
    assert(control * square <= 0xffff_ffffnat * 0xffff_ffff_ffff_ffff_ffff_ffffnat)
        by (nonlinear_arith)
        requires
            control <= 0xffff_ffffnat,
            square <= 0xffff_ffff_ffff_ffff_ffff_ffffnat,
    ;
}

/// With a reduction factor of at most 100% the decayed accumulator is no
/// larger than the accumulator, so that the start of a swap never fails.
pub proof fn lemma_decay_shrinks(v: VariableParameters)
    requires
        v.bin_step_config.reduction_factor <= BASIS_POINT_MAX,
    ensures
        decayed_volatility(v) <= v.volatility_accumulator,
        forall|active_id: i32, now: u64| (#[trigger] references_updated(v, active_id, now)) is Ok,
{
    let va = v.volatility_accumulator as nat;
    let factor = v.bin_step_config.reduction_factor as nat;
    assert(va * factor / 10_000 <= va) by (nonlinear_arith)
        requires
            factor <= 10_000,
    ;
}

/// A timestamp that is not later than the last swap changes nothing.
pub proof fn lemma_references_unchanged_without_progress(
    v: VariableParameters,
    active_id: i32,
    now: u64,
)
    requires
        now <= v.last_update_timestamp,
    ensures
        references_updated(v, active_id, now) == Ok::<VariableParameters, DlmmError>(v),
{
}

/// Updating the references a second time, at a time that is not later than
/// the first, changes nothing more: provided that the second time does not
/// fall inside the decay period when the first fell behind it, in which case
/// the second update would bring back a reference that the first had
/// dropped.
pub proof fn lemma_references_update_is_idempotent(
    v: VariableParameters,
    active_id: i32,
    first: u64,
    second: u64,
)
    requires
        second <= first,
        references_updated(v, active_id, first) is Ok,
        !(second > v.last_update_timestamp && v.bin_step_config.filter_period <= second
            - v.last_update_timestamp < v.bin_step_config.decay_period <= first
            - v.last_update_timestamp && decayed_volatility(v) != 0),
    ensures
        references_updated(references_updated(v, active_id, first)->Ok_0, active_id, second)
            == references_updated(v, active_id, first),
{
}

/// The accumulator never passes its ceiling.
pub proof fn lemma_accumulated_volatility_is_capped(v: VariableParameters, active_id: i32)
    ensures
        accumulated_volatility(v, active_id) <= v.bin_step_config.max_volatility_accumulator,
{
}

} // verus!
