//! The fee parameters of a pool: the fixed ones of its bin step and the ones
//! that follow the market.

use vstd::prelude::*;

verus! {

/// The parameters that a pool keeps for life.
#[derive(Debug, Clone, Copy)]
pub struct BinStepConfig {
    /// The price ratio of two adjacent bins, in basis points.
    pub bin_step: u16,
    /// The factor of the base fee.
    pub base_factor: u16,
    /// Seconds below which the volatility baseline is left alone.
    pub filter_period: u16,
    /// Seconds from which the volatility baseline is forgotten.
    pub decay_period: u16,
    /// The share of the accumulator that survives a decay, in basis points.
    pub reduction_factor: u16,
    /// The weight of the variable fee; zero switches it off.
    pub variable_fee_control: u32,
    /// The ceiling of the volatility accumulator.
    pub max_volatility_accumulator: u32,
    /// The protocol's share of a fee, in parts of `FEE_PRECISION`.
    pub protocol_fee_rate: u64,
}

impl BinStepConfig {
    /// A configuration of the given parameters.
    pub fn new(
        bin_step: u16,
        base_factor: u16,
        filter_period: u16,
        decay_period: u16,
        reduction_factor: u16,
        variable_fee_control: u32,
        max_volatility_accumulator: u32,
        protocol_fee_rate: u64,
    ) -> (config: Self)
        ensures
            config == (BinStepConfig {
                bin_step,
                base_factor,
                filter_period,
                decay_period,
                reduction_factor,
                variable_fee_control,
                max_volatility_accumulator,
                protocol_fee_rate,
            }),
    {
        Self {
            bin_step,
            base_factor,
            filter_period,
            decay_period,
            reduction_factor,
            variable_fee_control,
            max_volatility_accumulator,
            protocol_fee_rate,
        }
    }
}

/// The volatility state of a pool.
#[derive(Debug, Clone, Copy)]
pub struct VariableParameters {
    /// The current measure of price movement.
    pub volatility_accumulator: u32,
    /// The part of the accumulator carried over from earlier swaps.
    pub volatility_reference: u32,
    /// The bin id that price movement is measured from.
    pub index_reference: i32,
    /// The time of the last swap.
    pub last_update_timestamp: u64,
    /// The fixed parameters.
    pub bin_step_config: BinStepConfig,
}

impl VariableParameters {
    /// The state of a pool that has seen no movement yet.
    pub fn new(bin_step_config: BinStepConfig, index_reference: i32, last_update_timestamp: u64) -> (v:
        Self)
        ensures
            v == (VariableParameters {
                volatility_accumulator: 0,
                volatility_reference: 0,
                index_reference,
                last_update_timestamp,
                bin_step_config,
            }),
    {
        Self {
            volatility_accumulator: 0,
            volatility_reference: 0,
            index_reference,
            last_update_timestamp,
            bin_step_config,
        }
    }
}

} // verus!
