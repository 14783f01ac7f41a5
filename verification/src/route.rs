//! The router as a mathematical function: what a swap does to a pool, one
//! bin crossing after another.

use crate::bin::{Bin, Fill};
use crate::config::VariableParameters;
use crate::error::DlmmError;
use crate::fee_model::{accumulated_volatility, references_updated, total_fee};
use crate::pool::{BinSwap, PoolView, SwapResultView};
use crate::row::{first_swap_bin, following_bin};
use vstd::prelude::*;

verus! {

/// A swap under way.
pub struct Route {
    /// The pool as the bins crossed so far have left it.
    pub pool: PoolView,
    /// What the bins crossed so far have contributed.
    pub result: SwapResultView,
    /// The part of the request that is still open.
    pub remaining: u64,
    /// The index of the bin to cross next, if there is one.
    pub cursor: Option<int>,
}

/// The sum of two amounts, held at the largest 64-bit number.
pub open spec fn capped_sum(a: u64, b: u64) -> u64 {
    if a + b > u64::MAX {
        u64::MAX
    } else {
        (a + b) as u64
    }
}

/// The difference of two amounts, held at zero.
pub open spec fn floored_difference(a: u64, b: u64) -> u64 {
    if a < b {
        0
    } else {
        (a - b) as u64
    }
}

/// One swap against one bin, of either kind.
pub open spec fn bin_swap(
    bin: Bin,
    amount: u64,
    a2b: bool,
    by_amount_in: bool,
    fee_rate: u64,
    protocol_fee_rate: u64,
) -> Result<(Bin, Fill), DlmmError> {
    if by_amount_in {
        bin.swap_exact_amount_in_spec(amount, a2b, fee_rate, protocol_fee_rate)
    } else {
        bin.swap_exact_amount_out_spec(amount, a2b, fee_rate, protocol_fee_rate)
    }
}

/// The pricing and the filling of the bin at `index`: the pool afterwards,
/// the step, and the protocol's share of the step's fee.
///
/// The accumulator is brought up to the active bin and the fee rate derived
/// from it; then the bin is swapped against for `amount`.
#[verifier::opaque]
pub open spec fn fill_bin(pool: PoolView, index: int, amount: u64, a2b: bool, by_amount_in: bool) -> Result<
    (PoolView, BinSwap, u64),
    DlmmError,
> {
    let volatility = accumulated_volatility(pool.v_parameters, pool.active_id);
    let v_parameters = VariableParameters { volatility_accumulator: volatility, ..pool.v_parameters };
    match total_fee(pool.base_fee_rate, pool.v_parameters.bin_step_config, volatility) {
        Err(e) => Err(e),
        Ok((fee_rate, var_fee_rate)) => match bin_swap(
            pool.bins[index],
            amount,
            a2b,
            by_amount_in,
            fee_rate,
            pool.v_parameters.bin_step_config.protocol_fee_rate,
        ) {
            Err(e) => Err(e),
            Ok((bin, fill)) => Ok(
                (
                    PoolView { v_parameters, bins: pool.bins.update(index, bin), ..pool },
                    BinSwap {
                        bin_id: bin.id,
                        amount_in: fill.0,
                        amount_out: fill.1,
                        fee: fill.2,
                        var_fee_rate,
                    },
                    fill.3,
                ),
            ),
        },
    }
}

/// The part of a request that a step settles: its input where the request
/// names an input, its output where it names an output.
pub open spec fn settled_amount(step: BinSwap, by_amount_in: bool) -> u64 {
    if by_amount_in {
        step.amount_in
    } else {
        step.amount_out
    }
}

/// The crossing of the bin at `index`.
///
/// The bin is priced and filled for all that is still open. The fill becomes
/// a step of the result and is taken off the open amount. Where some amount
/// is still open and a bin follows, that bin becomes the active one. A total
/// that would pass 64 bits refuses the swap.
pub open spec fn cross_bin(r: Route, index: int, a2b: bool, by_amount_in: bool) -> Result<
    Route,
    DlmmError,
> {
    match fill_bin(r.pool, index, r.remaining, a2b, by_amount_in) {
        Err(e) => Err(e),
        Ok((pool, step, protocol_fee)) => {
            let remaining = floored_difference(r.remaining, settled_amount(step, by_amount_in));
            let next = following_bin(pool.bins.len(), index, a2b);
            if !r.result.has_room_for(step) {
                Err(DlmmError::MathOverflow)
            } else {
                Ok(
                    Route {
                        pool: PoolView {
                            active_id: if remaining > 0 && next is Some {
                                pool.bins[next->Some_0].id
                            } else {
                                pool.active_id
                            },
                            ..pool
                        },
                        result: SwapResultView {
                            protocol_fee: capped_sum(r.result.protocol_fee, protocol_fee),
                            ..r.result.with_step(step)
                        },
                        remaining,
                        cursor: next,
                    },
                )
            }
        },
    }
}

/// The number of bins from the cursor to the end of the row in the direction
/// of the swap: the bins that the swap can still reach.
pub open spec fn bins_ahead(cursor: Option<int>, len: nat, a2b: bool) -> nat {
    match cursor {
        Some(index) if 0 <= index < len => if a2b {
            (index + 1) as nat
        } else {
            (len - index) as nat
        },
        _ => 0,
    }
}

/// The swap carried to its end: bins are crossed until nothing is open or no
/// bin is left. A swap that ends with an amount still open is marked as
/// having exceeded the pool.
#[verifier::opaque]
pub open spec fn route(r: Route, a2b: bool, by_amount_in: bool) -> Result<Route, DlmmError>
    decreases bins_ahead(r.cursor, r.pool.bins.len(), a2b),
    via route_terminates
{
    if r.remaining == 0 {
        Ok(r)
    } else if bins_ahead(r.cursor, r.pool.bins.len(), a2b) == 0 {
        Ok(Route { result: SwapResultView { is_exceed: true, ..r.result }, ..r })
    } else {
        match cross_bin(r, r.cursor->Some_0, a2b, by_amount_in) {
            Err(e) => Err(e),
            Ok(next) => route(next, a2b, by_amount_in),
        }
    }
}

/// Each crossing leaves one bin less ahead.
#[via_fn]
proof fn route_terminates(r: Route, a2b: bool, by_amount_in: bool) {
    if r.remaining != 0 && bins_ahead(r.cursor, r.pool.bins.len(), a2b) != 0 {
        let index = r.cursor->Some_0;
        if cross_bin(r, index, a2b, by_amount_in) is Ok {
            lemma_cross_bin_moves_on(r, index, a2b, by_amount_in);
        }
    }
}

/// A crossing keeps the row's length and moves the cursor to the bin that
/// follows, so that one bin less lies ahead.
pub proof fn lemma_cross_bin_moves_on(r: Route, index: int, a2b: bool, by_amount_in: bool)
    requires
        0 <= index < r.pool.bins.len(),
        cross_bin(r, index, a2b, by_amount_in) is Ok,
    ensures
        ({
            let next = cross_bin(r, index, a2b, by_amount_in)->Ok_0;
            &&& next.pool.bins.len() == r.pool.bins.len()
            &&& next.cursor == following_bin(r.pool.bins.len(), index, a2b)
            &&& bins_ahead(next.cursor, next.pool.bins.len(), a2b) < bins_ahead(
                Some(index),
                r.pool.bins.len(),
                a2b,
            )
        }),
{
    reveal(fill_bin);
}

/// A route with an amount open and a bin ahead crosses that bin and goes on
/// from there.
pub proof fn lemma_route_goes_on(r: Route, a2b: bool, by_amount_in: bool)
    requires
        r.remaining > 0,
        bins_ahead(r.cursor, r.pool.bins.len(), a2b) > 0,
    ensures
        route(r, a2b, by_amount_in) == match cross_bin(r, r.cursor->Some_0, a2b, by_amount_in) {
            Err(e) => Err(e),
            Ok(next) => route(next, a2b, by_amount_in),
        },
{
    reveal(route);
}

/// A route with nothing open, or with no bin ahead, is at its end.
pub proof fn lemma_route_ends(r: Route, a2b: bool, by_amount_in: bool)
    requires
        r.remaining == 0 || bins_ahead(r.cursor, r.pool.bins.len(), a2b) == 0,
    ensures
        route(r, a2b, by_amount_in) == Ok::<Route, DlmmError>(
            Route {
                result: SwapResultView { is_exceed: r.result.is_exceed || r.remaining > 0, ..r.result },
                ..r
            },
        ),
{
    reveal(route);
}

/// The pool and the result at the end of a route, with `now` recorded as the
/// time of the last swap.
pub open spec fn concluded(end: Route, now: u64) -> (PoolView, SwapResultView) {
    (
        PoolView {
            v_parameters: VariableParameters { last_update_timestamp: now, ..end.pool.v_parameters },
            ..end.pool
        },
        end.result,
    )
}

/// What a swap does: the pool afterwards and the result.
///
/// An empty pool is left as it is, and the request is marked as having
/// exceeded it. Otherwise the volatility references are brought up to `now`,
/// the swap is routed from its first bin, and `now` is recorded as the time of
/// the last swap.
pub open spec fn swap_spec(pool: PoolView, amount: u64, a2b: bool, by_amount_in: bool, now: u64) -> Result<
    (PoolView, SwapResultView),
    DlmmError,
> {
    if pool.bins.len() == 0 {
        Ok((pool, SwapResultView { is_exceed: true, ..SwapResultView::empty() }))
    } else {
        match references_updated(pool.v_parameters, pool.active_id, now) {
            Err(e) => Err(e),
            Ok(v_parameters) => match route(
                Route {
                    pool: PoolView { v_parameters, ..pool },
                    result: SwapResultView::empty(),
                    remaining: amount,
                    cursor: first_swap_bin(pool.bins, pool.active_id, a2b),
                },
                a2b,
                by_amount_in,
            ) {
                Err(e) => Err(e),
                Ok(end) => Ok(concluded(end, now)),
            },
        }
    }
}

/// A swap on a pool without bins, whatever is asked for, leaves the pool as
/// it is and returns an empty result that is marked as having exceeded the
/// pool.
pub proof fn lemma_empty_pool_is_exceeded(
    pool: PoolView,
    amount: u64,
    a2b: bool,
    by_amount_in: bool,
    now: u64,
)
    requires
        pool.bins.len() == 0,
    ensures
        swap_spec(pool, amount, a2b, by_amount_in, now) == Ok::<
            (PoolView, SwapResultView),
            DlmmError,
        >(
            (
                pool,
                SwapResultView {
                    amount_in: 0,
                    amount_out: 0,
                    fee: 0,
                    ref_fee: 0,
                    protocol_fee: 0,
                    steps: Seq::empty(),
                    is_exceed: true,
                },
            ),
        ),
{
}

} // verus!
