//! Properties of the scan, proved once for every series.

use vstd::prelude::*;

use crate::price::Direction;
use crate::price::f64_lt;
use crate::scan::TurningPoint;
use crate::scan::latest_above;
use crate::scan::latest_below;
use crate::scan::spec_resistance_ilocs;
use crate::scan::spec_support_ilocs;
use crate::scan::state_at;

verus! {

/// Degenerate lengths: a series of length 0 or 1 has no step pair to compare,
/// so every output entry is unset.
pub proof fn lemma_degenerate_all_unset(prices: Seq<u64>, j: int)
    requires
        prices.len() <= 1,
        0 <= j < prices.len(),
    ensures
        spec_support_ilocs(prices)[j] is None,
        spec_resistance_ilocs(prices)[j] is None,
{
}

/// Determinism: the scan result is a mathematical function of the series
/// alone, so any two results that satisfy the scanner's contract for equal
/// inputs are bit-identical, whatever order or interleaving of calls produced
/// them.
pub proof fn lemma_scan_deterministic(
    prices: Seq<u64>,
    support_a: Seq<Option<usize>>,
    resistance_a: Seq<Option<usize>>,
    support_b: Seq<Option<usize>>,
    resistance_b: Seq<Option<usize>>,
)
    requires
        support_a == spec_support_ilocs(prices),
        resistance_a == spec_resistance_ilocs(prices),
        support_b == spec_support_ilocs(prices),
        resistance_b == spec_resistance_ilocs(prices),
    ensures
        support_a == support_b,
        resistance_a == resistance_b,
{
}

proof fn lemma_monotone_state(prices: Seq<u64>, i: int)
    requires
        1 <= i <= prices.len(),
        forall|k: int| 0 <= k < prices.len() - 1 ==> f64_lt(#[trigger] prices[k], prices[k + 1]),
    ensures
        state_at(prices, i).supports.len() == 0,
        state_at(prices, i).resistances.len() == 0,
        state_at(prices, i).prev_dir != Direction::Down,
    decreases i,
{
    if i <= 1 {
    } else {
        lemma_monotone_state(prices, i - 1);
        assert(f64_lt(prices[i - 2], prices[i - 1]));
    }
}

/// A strictly increasing series never reverses direction, so no turning point
/// is ever confirmed and every support and resistance result stays unset.
pub proof fn lemma_monotone_all_unset(prices: Seq<u64>, j: int)
    requires
        forall|k: int| 0 <= k < prices.len() - 1 ==> f64_lt(#[trigger] prices[k], prices[k + 1]),
        0 <= j < prices.len(),
    ensures
        spec_support_ilocs(prices)[j] is None,
        spec_resistance_ilocs(prices)[j] is None,
{
    lemma_monotone_state(prices, j + 1);
}

/// The backward search yields the most recently confirmed qualifying entry:
/// the returned step belongs to a ledger entry priced strictly below the
/// reference, and every entry confirmed after that one fails the comparison.
/// The returned value is the position of that entry in the ledger.
pub proof fn lemma_latest_below_most_recent(
    ledger: Seq<TurningPoint>,
    reference: u64,
    s: usize,
) -> (t: int)
    requires
        latest_below(ledger, reference) == Some(s),
    ensures
        0 <= t < ledger.len(),
        ledger[t].iloc == s,
        f64_lt(ledger[t].price, reference),
        forall|u: int| t < u < ledger.len() ==> !f64_lt((#[trigger] ledger[u]).price, reference),
    decreases ledger.len(),
{
    if ledger.len() == 0 {
        0
    } else if f64_lt(ledger.last().price, reference) {
        ledger.len() - 1
    } else {
        let t = lemma_latest_below_most_recent(ledger.drop_last(), reference, s);
        assert(ledger.drop_last()[t] == ledger[t]);
        assert forall|u: int| t < u < ledger.len() implies !f64_lt(
            (#[trigger] ledger[u]).price,
            reference,
        ) by {
            if u < ledger.len() - 1 {
                assert(ledger.drop_last()[u] == ledger[u]);
            }
        }
        t
    }
}

/// As `lemma_latest_below_most_recent`, for the resistance search.
pub proof fn lemma_latest_above_most_recent(
    ledger: Seq<TurningPoint>,
    reference: u64,
    s: usize,
) -> (t: int)
    requires
        latest_above(ledger, reference) == Some(s),
    ensures
        0 <= t < ledger.len(),
        ledger[t].iloc == s,
        f64_lt(reference, ledger[t].price),
        forall|u: int| t < u < ledger.len() ==> !f64_lt(reference, (#[trigger] ledger[u]).price),
    decreases ledger.len(),
{
    if ledger.len() == 0 {
        0
    } else if f64_lt(reference, ledger.last().price) {
        ledger.len() - 1
    } else {
        let t = lemma_latest_above_most_recent(ledger.drop_last(), reference, s);
        assert(ledger.drop_last()[t] == ledger[t]);
        assert forall|u: int| t < u < ledger.len() implies !f64_lt(
            reference,
            (#[trigger] ledger[u]).price,
        ) by {
            if u < ledger.len() - 1 {
                assert(ledger.drop_last()[u] == ledger[u]);
            }
        }
        t
    }
}

/// An unset search result is complete: no ledger entry at all qualifies.
pub proof fn lemma_latest_below_none(ledger: Seq<TurningPoint>, reference: u64)
    requires
        latest_below(ledger, reference) is None,
    ensures
        forall|t: int| 0 <= t < ledger.len() ==> !f64_lt((#[trigger] ledger[t]).price, reference),
    decreases ledger.len(),
{
    if ledger.len() > 0 {
        lemma_latest_below_none(ledger.drop_last(), reference);
        assert forall|t: int| 0 <= t < ledger.len() implies !f64_lt(
            (#[trigger] ledger[t]).price,
            reference,
        ) by {
            if t < ledger.len() - 1 {
                assert(ledger.drop_last()[t] == ledger[t]);
            }
        }
    }
}

/// As `lemma_latest_below_none`, for the resistance search.
pub proof fn lemma_latest_above_none(ledger: Seq<TurningPoint>, reference: u64)
    requires
        latest_above(ledger, reference) is None,
    ensures
        forall|t: int| 0 <= t < ledger.len() ==> !f64_lt(reference, (#[trigger] ledger[t]).price),
    decreases ledger.len(),
{
    if ledger.len() > 0 {
        lemma_latest_above_none(ledger.drop_last(), reference);
        assert forall|t: int| 0 <= t < ledger.len() implies !f64_lt(
            reference,
            (#[trigger] ledger[t]).price,
        ) by {
            if t < ledger.len() - 1 {
                assert(ledger.drop_last()[t] == ledger[t]);
            }
        }
    }
}

proof fn lemma_ledger_integrity(prices: Seq<u64>, i: int)
    requires
        prices.len() <= usize::MAX,
        1 <= i <= prices.len(),
    ensures
        forall|t: int|
            0 <= t < state_at(prices, i).supports.len() ==> {
                let tp = #[trigger] state_at(prices, i).supports[t];
                tp.iloc < i - 1 && tp.price == prices[tp.iloc as int]
            },
        forall|t: int|
            0 <= t < state_at(prices, i).resistances.len() ==> {
                let tp = #[trigger] state_at(prices, i).resistances[t];
                tp.iloc < i - 1 && tp.price == prices[tp.iloc as int]
            },
    decreases i,
{
    if i <= 1 {
    } else {
        lemma_ledger_integrity(prices, i - 1);
    }
}

/// The shape of every set result: a support result at position `j` references
/// a strictly earlier step whose recorded price lies strictly below the
/// reference price `prices[j]` that resolved it.
pub proof fn lemma_support_result_valid(prices: Seq<u64>, j: int, s: usize)
    requires
        prices.len() <= usize::MAX,
        0 <= j < prices.len(),
        spec_support_ilocs(prices)[j] == Some(s),
    ensures
        s < j,
        f64_lt(prices[s as int], prices[j]),
{
    lemma_ledger_integrity(prices, j + 1);
    let ledger = state_at(prices, j + 1).supports;
    let t = lemma_latest_below_most_recent(ledger, prices[j], s);
    assert(ledger[t].price == prices[ledger[t].iloc as int]);
}

/// As `lemma_support_result_valid`, for resistance: the referenced price lies
/// strictly above the reference.
pub proof fn lemma_resistance_result_valid(prices: Seq<u64>, j: int, s: usize)
    requires
        prices.len() <= usize::MAX,
        0 <= j < prices.len(),
        spec_resistance_ilocs(prices)[j] == Some(s),
    ensures
        s < j,
        f64_lt(prices[j], prices[s as int]),
{
    lemma_ledger_integrity(prices, j + 1);
    let ledger = state_at(prices, j + 1).resistances;
    let t = lemma_latest_above_most_recent(ledger, prices[j], s);
    assert(ledger[t].price == prices[ledger[t].iloc as int]);
}

} // verus!
