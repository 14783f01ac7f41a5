//! The books of a swap: what its steps have done to the bins, what its
//! totals add up to, and what holds of every swap that has succeeded.

use crate::bin::Bin;
use crate::config::VariableParameters;
use crate::error::DlmmError;
use crate::pool::{BinSwap, PoolView, SwapResult, SwapResultView};
use crate::route::{bins_ahead, settled_amount, swap_spec};
use crate::row::{ascending, first_swap_bin, nth_bin, visited};
use vstd::prelude::*;

verus! {

/// The inputs of the steps, added up.
pub open spec fn total_amount_in(steps: Seq<BinSwap>) -> nat
    decreases steps.len(),
{
    if steps.len() == 0 {
        0
    } else {
        total_amount_in(steps.drop_last()) + (steps.last().amount_in as nat)
    }
}

/// The outputs of the steps, added up.
pub open spec fn total_amount_out(steps: Seq<BinSwap>) -> nat
    decreases steps.len(),
{
    if steps.len() == 0 {
        0
    } else {
        total_amount_out(steps.drop_last()) + (steps.last().amount_out as nat)
    }
}

/// The fees of the steps, added up.
pub open spec fn total_fee_taken(steps: Seq<BinSwap>) -> nat
    decreases steps.len(),
{
    if steps.len() == 0 {
        0
    } else {
        total_fee_taken(steps.drop_last()) + (steps.last().fee as nat)
    }
}

/// The part of a request that a result has settled: its input where the
/// request names an input, its output where it names an output.
pub open spec fn settled_total(result: SwapResultView, by_amount_in: bool) -> u64 {
    if by_amount_in {
        result.amount_in
    } else {
        result.amount_out
    }
}

/// A call of a swap did what `swap_spec` says: where that fails it failed
/// with the same error and left the pool as it was, and else it returned that
/// result and left that pool.
pub open spec fn swapped(
    before: PoolView,
    after: PoolView,
    outcome: Result<SwapResult, DlmmError>,
    amount: u64,
    a2b: bool,
    by_amount_in: bool,
    now: u64,
) -> bool {
    match swap_spec(before, amount, a2b, by_amount_in, now) {
        Ok((pool, result)) => outcome is Ok && outcome->Ok_0@ == result && after == pool,
        Err(e) => outcome is Err && outcome->Err_0 == e && after == before,
    }
}

/// What holds of the result of every successful swap on a pool whose bins
/// ascend.
///
/// The steps are the bins from the first one on, one after another in the
/// direction of the swap, so that no bin is visited twice and there are no
/// more steps than bins. The totals are the sums over the steps. The swap
/// settles no more than was asked for. It is marked as having exceeded the
/// pool exactly where it settles less, and then every bin ahead of the start
/// has been tried; on a pool without bins it is so marked whatever was asked
/// for, nothing included.
pub open spec fn swap_is_sound(
    before: PoolView,
    result: SwapResultView,
    amount: u64,
    a2b: bool,
    by_amount_in: bool,
) -> bool {
    let first = first_swap_bin(before.bins, before.active_id, a2b);
    let reachable = bins_ahead(first, before.bins.len(), a2b);
    &&& result.steps.len() <= reachable <= before.bins.len()
    &&& forall|k: int|
        0 <= k < result.steps.len() ==> (#[trigger] result.steps[k]).bin_id
            == before.bins[nth_bin(first->Some_0, k, a2b)].id
    &&& forall|j: int, k: int|
        0 <= j < k < result.steps.len() ==> if a2b {
            result.steps[j].bin_id > result.steps[k].bin_id
        } else {
            result.steps[j].bin_id < result.steps[k].bin_id
        }
    &&& result.amount_in == total_amount_in(result.steps)
    &&& result.amount_out == total_amount_out(result.steps)
    &&& result.fee == total_fee_taken(result.steps)
    &&& result.protocol_fee <= result.fee <= result.amount_in
    &&& result.ref_fee == 0
    &&& settled_total(result, by_amount_in) <= amount
    &&& result.is_exceed <==> settled_total(result, by_amount_in) < amount || before.bins.len() == 0
    &&& result.is_exceed ==> result.steps.len() == reachable
}

/// A bin after the fill that a step records: the input less its fee has gone
/// into one reserve, the output has left the other, and nothing else has
/// changed.
pub open spec fn bin_after_step(bin: Bin, step: BinSwap, a2b: bool) -> Bin {
    bin.with_reserves(
        a2b,
        (bin.reserve_in(a2b) + step.amount_in - step.fee) as u64,
        (bin.reserve_out(a2b) - step.amount_out) as u64,
    )
}

/// Whether nothing but the accumulator and the bin at `index` differs between
/// two states of a pool.
pub open spec fn only_bin_touched(before: PoolView, after: PoolView, index: int) -> bool {
    &&& after.bins.len() == before.bins.len()
    &&& after.active_id == before.active_id
    &&& after.base_fee_rate == before.base_fee_rate
    &&& after.v_parameters == (VariableParameters {
        volatility_accumulator: after.v_parameters.volatility_accumulator,
        ..before.v_parameters
    })
    &&& forall|i: int|
        0 <= i < before.bins.len() && i != index ==> #[trigger] after.bins[i] == before.bins[i]
}

/// What holds once the bin at `index` has been priced and filled for
/// `amount`, with `step` and `protocol_fee` as the outcome: the step names
/// the bin and settles no more than the amount; its fee lies within its
/// input, and the protocol's share within the fee; the bin could pay the
/// output and take the net input, and has done so; and the accumulator is
/// within its ceiling.
pub open spec fn bin_is_filled(
    before: PoolView,
    after: PoolView,
    index: int,
    step: BinSwap,
    protocol_fee: u64,
    amount: u64,
    a2b: bool,
    by_amount_in: bool,
) -> bool {
    &&& step.bin_id == before.bins[index].id
    &&& settled_amount(step, by_amount_in) <= amount
    &&& protocol_fee <= step.fee <= step.amount_in
    &&& step.amount_out <= before.bins[index].reserve_out(a2b)
    &&& before.bins[index].reserve_in(a2b) + step.amount_in - step.fee <= u64::MAX
    &&& after.bins[index] == bin_after_step(before.bins[index], step, a2b)
    &&& after.v_parameters.volatility_accumulator
        <= after.v_parameters.bin_step_config.max_volatility_accumulator
}

/// Whether `bins` is the row `origin` with the fills of `steps` booked, but
/// for the first `undone` of them: each step belongs to the bin in its place
/// on the way from `first`, and its fill is one that the bin could pay and
/// take; the bins of the first `undone` steps are as they were, the bins of
/// the others have taken and paid their fills, and so is every bin that no
/// step belongs to.
#[verifier::opaque]
pub open spec fn steps_are_booked_from(
    origin: Seq<Bin>,
    bins: Seq<Bin>,
    steps: Seq<BinSwap>,
    first: Option<int>,
    a2b: bool,
    undone: int,
) -> bool {
    &&& bins.len() == origin.len()
    &&& steps.len() <= bins_ahead(first, origin.len(), a2b)
    &&& forall|k: int|
        0 <= k < steps.len() ==> {
            let index = nth_bin(first->Some_0, k, a2b);
            &&& (#[trigger] steps[k]).bin_id == origin[index].id
            &&& steps[k].fee <= steps[k].amount_in
            &&& steps[k].amount_out <= origin[index].reserve_out(a2b)
            &&& origin[index].reserve_in(a2b) + steps[k].amount_in - steps[k].fee <= u64::MAX
            &&& bins[index] == if k < undone {
                origin[index]
            } else {
                bin_after_step(origin[index], steps[k], a2b)
            }
        }
    &&& forall|i: int|
        0 <= i < origin.len() && !visited(first, steps.len(), i, a2b) ==> #[trigger] bins[i]
            == origin[i]
}

/// Whether `bins` is the row `origin` with the fills of all `steps` booked.
pub open spec fn steps_are_booked(
    origin: Seq<Bin>,
    bins: Seq<Bin>,
    steps: Seq<BinSwap>,
    first: Option<int>,
    a2b: bool,
) -> bool {
    steps_are_booked_from(origin, bins, steps, first, a2b, 0)
}

/// Nothing is booked on a row before its first step.
pub proof fn lemma_nothing_booked(origin: Seq<Bin>, first: Option<int>, a2b: bool)
    ensures
        steps_are_booked(origin, origin, Seq::<BinSwap>::empty(), first, a2b),
{
    reveal(steps_are_booked_from);
}

/// Booking one more step, on the bin that follows the steps so far, keeps
/// the books.
pub proof fn lemma_step_booked(
    origin: Seq<Bin>,
    bins: Seq<Bin>,
    steps: Seq<BinSwap>,
    first: Option<int>,
    a2b: bool,
    step: BinSwap,
    filled: Seq<Bin>,
)
    requires
        steps_are_booked(origin, bins, steps, first, a2b),
        steps.len() < bins_ahead(first, origin.len(), a2b),
        step.bin_id == bins[nth_bin(first->Some_0, steps.len() as int, a2b)].id,
        step.fee <= step.amount_in,
        step.amount_out <= bins[nth_bin(first->Some_0, steps.len() as int, a2b)].reserve_out(a2b),
        bins[nth_bin(first->Some_0, steps.len() as int, a2b)].reserve_in(a2b) + step.amount_in
            - step.fee <= u64::MAX,
        filled.len() == bins.len(),
        filled[nth_bin(first->Some_0, steps.len() as int, a2b)] == bin_after_step(
            bins[nth_bin(first->Some_0, steps.len() as int, a2b)],
            step,
            a2b,
        ),
        forall|i: int|
            0 <= i < bins.len() && i != nth_bin(first->Some_0, steps.len() as int, a2b)
                ==> #[trigger] filled[i] == bins[i],
    ensures
        steps_are_booked(origin, filled, steps.push(step), first, a2b),
        bins[nth_bin(first->Some_0, steps.len() as int, a2b)] == origin[nth_bin(
            first->Some_0,
            steps.len() as int,
            a2b,
        )],
{
    reveal(steps_are_booked_from);
    let at = nth_bin(first->Some_0, steps.len() as int, a2b);
    let longer = steps.push(step);
    assert(!visited(first, steps.len(), at, a2b));
    assert(bins[at] == origin[at]);
    assert forall|k: int| 0 <= k < longer.len() implies {
        let index = nth_bin(first->Some_0, k, a2b);
        &&& (#[trigger] longer[k]).bin_id == origin[index].id
        &&& longer[k].fee <= longer[k].amount_in
        &&& longer[k].amount_out <= origin[index].reserve_out(a2b)
        &&& origin[index].reserve_in(a2b) + longer[k].amount_in - longer[k].fee <= u64::MAX
        &&& filled[index] == bin_after_step(origin[index], longer[k], a2b)
    } by {
        let index = nth_bin(first->Some_0, k, a2b);
        if k < steps.len() {
            assert(longer[k] == steps[k]);
            assert(steps[k].fee <= steps[k].amount_in);
            assert(index != at);
            assert(filled[index] == bins[index]);
        }
    }
    assert forall|i: int|
        0 <= i < origin.len() && !visited(first, longer.len(), i, a2b) implies #[trigger] filled[i]
        == origin[i] by {
        assert(!visited(first, steps.len(), i, a2b));
        assert(i != at);
        assert(filled[i] == bins[i]);
    }
}

/// Booking changes no id, so that an ascending row stays ascending.
pub proof fn lemma_booked_ids(
    origin: Seq<Bin>,
    bins: Seq<Bin>,
    steps: Seq<BinSwap>,
    first: Option<int>,
    a2b: bool,
)
    requires
        steps_are_booked(origin, bins, steps, first, a2b),
    ensures
        bins.len() == origin.len(),
        forall|i: int| 0 <= i < origin.len() ==> (#[trigger] bins[i]).id == origin[i].id,
        ascending(origin) ==> ascending(bins),
{
    reveal(steps_are_booked_from);
    assert forall|i: int| 0 <= i < origin.len() implies (#[trigger] bins[i]).id
        == origin[i].id by {
        if visited(first, steps.len(), i, a2b) {
            let k = if a2b {
                first->Some_0 - i
            } else {
                i - first->Some_0
            };
            assert(steps[k].fee <= steps[k].amount_in);
            assert(nth_bin(first->Some_0, k, a2b) == i);
        }
    }
    if ascending(origin) {
        assert forall|i: int, j: int| 0 <= i < j < bins.len() implies bins[i].id < bins[j].id by {
            assert(origin[i].id < origin[j].id);
        }
    }
}

/// Putting the bin of step `k` back to what it was undoes one step more.
pub proof fn lemma_step_undone(
    origin: Seq<Bin>,
    bins: Seq<Bin>,
    steps: Seq<BinSwap>,
    first: Option<int>,
    a2b: bool,
    k: int,
    restored: Seq<Bin>,
)
    requires
        steps_are_booked_from(origin, bins, steps, first, a2b, k),
        0 <= k < steps.len(),
        restored == bins.update(
            nth_bin(first->Some_0, k, a2b),
            origin[nth_bin(first->Some_0, k, a2b)],
        ),
    ensures
        steps_are_booked_from(origin, restored, steps, first, a2b, k + 1),
{
    reveal(steps_are_booked_from);
    let at = nth_bin(first->Some_0, k, a2b);
    assert forall|j: int| 0 <= j < steps.len() implies {
        let index = nth_bin(first->Some_0, j, a2b);
        &&& (#[trigger] steps[j]).bin_id == origin[index].id
        &&& steps[j].fee <= steps[j].amount_in
        &&& steps[j].amount_out <= origin[index].reserve_out(a2b)
        &&& origin[index].reserve_in(a2b) + steps[j].amount_in - steps[j].fee <= u64::MAX
        &&& restored[index] == if j < k + 1 {
            origin[index]
        } else {
            bin_after_step(origin[index], steps[j], a2b)
        }
    } by {
        let index = nth_bin(first->Some_0, j, a2b);
        if j != k {
            assert(index != at);
        }
    }
    assert forall|i: int|
        0 <= i < origin.len() && !visited(first, steps.len(), i, a2b) implies #[trigger] restored[i]
        == origin[i] by {
        assert(i != at);
        assert(bins[i] == origin[i]);
    }
}

/// With every step undone the row is what it was.
pub proof fn lemma_all_undone(
    origin: Seq<Bin>,
    bins: Seq<Bin>,
    steps: Seq<BinSwap>,
    first: Option<int>,
    a2b: bool,
)
    requires
        steps_are_booked_from(origin, bins, steps, first, a2b, steps.len() as int),
    ensures
        bins == origin,
{
    reveal(steps_are_booked_from);
    assert forall|i: int| 0 <= i < origin.len() implies bins[i] == origin[i] by {
        if visited(first, steps.len(), i, a2b) {
            let j = if a2b {
                first->Some_0 - i
            } else {
                i - first->Some_0
            };
            assert(steps[j].fee <= steps[j].amount_in);
            assert(nth_bin(first->Some_0, j, a2b) == i);
        }
    }
    assert(bins =~= origin);
}

/// What holds of the pool after every successful swap on a pool whose bins
/// ascend.
///
/// The fee parameters and the row of bins are the same but for the reserves
/// of the visited bins, each of which has taken the net input and given the
/// output of its step. The time of the swap is recorded, unless the pool has
/// no bins. The accumulator is within its ceiling once a bin has been priced.
/// The active bin is the last one visited where the swap went beyond its
/// first bin, and is unchanged where it did not.
pub open spec fn pool_is_settled(
    before: PoolView,
    after: PoolView,
    result: SwapResultView,
    a2b: bool,
    now: u64,
) -> bool {
    let first = first_swap_bin(before.bins, before.active_id, a2b);
    &&& after.bins.len() == before.bins.len()
    &&& after.base_fee_rate == before.base_fee_rate
    &&& after.v_parameters.bin_step_config == before.v_parameters.bin_step_config
    &&& before.bins.len() == 0 ==> after == before
    &&& before.bins.len() > 0 ==> after.v_parameters.last_update_timestamp == now
    &&& result.steps.len() > 0 ==> after.v_parameters.volatility_accumulator
        <= after.v_parameters.bin_step_config.max_volatility_accumulator
    &&& after.active_id == if result.steps.len() <= 1 {
        before.active_id
    } else {
        result.steps.last().bin_id
    }
    &&& steps_are_booked(before.bins, after.bins, result.steps, first, a2b)
}

/// Booked steps name the bins of the row one after another from the first,
/// so that on an ascending row their ids descend, selling A for B, or
/// ascend, selling B for A: no bin is visited twice.
pub proof fn lemma_steps_follow_the_row(
    origin: Seq<Bin>,
    bins: Seq<Bin>,
    steps: Seq<BinSwap>,
    first: Option<int>,
    a2b: bool,
)
    requires
        ascending(origin),
        steps_are_booked(origin, bins, steps, first, a2b),
    ensures
        steps.len() <= bins_ahead(first, origin.len(), a2b) <= origin.len(),
        forall|k: int|
            0 <= k < steps.len() ==> (#[trigger] steps[k]).bin_id == origin[nth_bin(
                first->Some_0,
                k,
                a2b,
            )].id,
        forall|j: int, k: int|
            0 <= j < k < steps.len() ==> if a2b {
                steps[j].bin_id > steps[k].bin_id
            } else {
                steps[j].bin_id < steps[k].bin_id
            },
{
    reveal(steps_are_booked_from);
    assert forall|j: int, k: int| 0 <= j < k < steps.len() implies if a2b {
        steps[j].bin_id > steps[k].bin_id
    } else {
        steps[j].bin_id < steps[k].bin_id
    } by {
        let start = first->Some_0;
        assert(steps[j].bin_id == origin[nth_bin(start, j, a2b)].id);
        assert(steps[k].bin_id == origin[nth_bin(start, k, a2b)].id);
        if a2b {
            assert(origin[start - k].id < origin[start - j].id);
        } else {
            assert(origin[start + j].id < origin[start + k].id);
        }
    }
}

} // verus!
