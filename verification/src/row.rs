//! The row of bins: its order, the bin that a swap starts at, and the way
//! from there.

use crate::bin::Bin;
use vstd::prelude::*;

verus! {

/// Whether one of the first `count` bins has the id `id`.
pub open spec fn has_bin_with_id(bins: Seq<Bin>, count: int, id: i32) -> bool {
    exists|k: int| 0 <= k < count && (#[trigger] bins[k]).id == id
}

/// Whether none of the bins after bin `i` and before `count` has the id of
/// bin `i`.
pub open spec fn last_with_its_id(bins: Seq<Bin>, i: int, count: int) -> bool {
    forall|j: int| i < j < count ==> (#[trigger] bins[j]).id != bins[i].id
}

/// Whether the ids of the bins ascend strictly.
pub open spec fn ascending(bins: Seq<Bin>) -> bool {
    forall|i: int, j: int| 0 <= i < j < bins.len() ==> bins[i].id < bins[j].id
}

/// The number of bins at the front of the row whose id is at most
/// `active_id`: in an ascending row, the number of all such bins.
pub open spec fn bins_up_to(bins: Seq<Bin>, active_id: i32) -> nat
    decreases bins.len(),
{
    if bins.len() == 0 {
        0
    } else if bins.last().id <= active_id {
        bins.len()
    } else {
        bins_up_to(bins.drop_last(), active_id)
    }
}

/// The index of the bin that a swap starts at: selling A for B, the highest
/// bin at or below the active id; selling B for A, the lowest bin above it.
pub open spec fn first_swap_bin(bins: Seq<Bin>, active_id: i32, a2b: bool) -> Option<int> {
    let below = bins_up_to(bins, active_id);
    if a2b {
        if below == 0 {
            None
        } else {
            Some(below - 1)
        }
    } else {
        if below == bins.len() {
            None
        } else {
            Some(below as int)
        }
    }
}

/// An index of the row, as the number that it is.
pub open spec fn position(index: Option<usize>) -> Option<int> {
    match index {
        Some(i) => Some(i as int),
        None => None,
    }
}

/// The index of the bin that follows bin `index` in the direction of a swap:
/// the next lower one selling A for B, the next higher one selling B for A.
pub open spec fn following_bin(len: nat, index: int, a2b: bool) -> Option<int> {
    if a2b {
        if index > 0 {
            Some(index - 1)
        } else {
            None
        }
    } else {
        if index + 1 < len {
            Some(index + 1)
        } else {
            None
        }
    }
}

/// In an ascending row the bins at or below an id are those in front of
/// `bins_up_to`.
pub proof fn lemma_bins_up_to_splits(bins: Seq<Bin>, active_id: i32)
    requires
        ascending(bins),
    ensures
        bins_up_to(bins, active_id) <= bins.len(),
        forall|i: int| 0 <= i < bins_up_to(bins, active_id) ==> (#[trigger] bins[i]).id <= active_id,
        forall|i: int|
            bins_up_to(bins, active_id) <= i < bins.len() ==> (#[trigger] bins[i]).id > active_id,
    decreases bins.len(),
{
    if bins.len() == 0 {
    } else if bins.last().id <= active_id {
        assert forall|i: int| 0 <= i < bins.len() implies (#[trigger] bins[i]).id <= active_id by {
            if i < bins.len() - 1 {
                assert(bins[i].id < bins[bins.len() - 1].id);
            }
        }
    } else {
        let front = bins.drop_last();
        assert forall|i: int, j: int| 0 <= i < j < front.len() implies front[i].id
            < front[j].id by {
            assert(bins[i].id < bins[j].id);
        }
        lemma_bins_up_to_splits(front, active_id);
        assert forall|i: int| 0 <= i < bins_up_to(bins, active_id) implies (#[trigger] bins[i]).id
            <= active_id by {
            assert(front[i].id <= active_id);
        }
        assert forall|i: int| bins_up_to(bins, active_id) <= i < bins.len() implies (
        #[trigger] bins[i]).id > active_id by {
            if i < bins.len() - 1 {
                assert(front[i].id > active_id);
            }
        }
    }
}

/// The index of the bin that a swap visits as its `k`-th after the first,
/// having started at `first`.
pub open spec fn nth_bin(first: int, k: int, a2b: bool) -> int {
    if a2b {
        first - k
    } else {
        first + k
    }
}

/// Whether the bin at `index` is among the first `count` bins that a swap
/// visits, having started at `first`.
pub open spec fn visited(first: Option<int>, count: nat, index: int, a2b: bool) -> bool {
    match first {
        None => false,
        Some(start) => if a2b {
            start - count < index <= start
        } else {
            start <= index < start + count
        },
    }
}

/// A row whose neighbours ascend ascends throughout.
pub proof fn lemma_adjacent_ascending(bins: Seq<Bin>)
    requires
        forall|k: int| 0 <= k && k + 1 < bins.len() ==> (#[trigger] bins[k]).id < bins[k + 1].id,
    ensures
        ascending(bins),
{
    assert forall|i: int, j: int| 0 <= i < j < bins.len() implies bins[i].id < bins[j].id by {
        lemma_ascending_between(bins, i, j);
    }
}

/// In a row whose neighbours ascend, an earlier bin lies below a later one.
proof fn lemma_ascending_between(bins: Seq<Bin>, i: int, j: int)
    requires
        forall|k: int| 0 <= k && k + 1 < bins.len() ==> (#[trigger] bins[k]).id < bins[k + 1].id,
        0 <= i < j < bins.len(),
    ensures
        bins[i].id < bins[j].id,
    decreases j - i,
{
    if i + 1 < j {
        lemma_ascending_between(bins, i, j - 1);
    }
    assert(bins[j - 1].id < bins[j - 1 + 1].id);
}

} // verus!
