//! The turning-point scan over one price series.
//!
//! A single forward pass walks the series, tracking the last non-flat
//! direction. When the direction reverses from Down to Up, the step before the
//! reversal is a confirmed local low and joins the support ledger; an Up to
//! Down reversal confirms a local high into the resistance ledger. At every
//! step the result for the previous position is resolved first, against the
//! ledgers as they stand, by a backward search for the most recently confirmed
//! turning point still on the correct side of the reference price.

use vstd::prelude::*;

use crate::price::Direction;
use crate::price::direction_of;
use crate::price::f64_lt;
use crate::price::get_direction;
use crate::price::price_lt;

verus! {

/// A confirmed local extreme: the time step at which it occurred and the price
/// there, as a double's bit pattern.
#[derive(Clone, Copy, PartialEq, Eq, Structural, Debug)]
pub struct TurningPoint {
    pub iloc: usize,
    pub price: u64,
}

/// The state carried across one series scan: the two ledgers of confirmed
/// turning points, in confirmation order, and the last non-flat direction
/// seen so far.
pub struct ScanState {
    pub supports: Seq<TurningPoint>,
    pub resistances: Seq<TurningPoint>,
    pub prev_dir: Direction,
}

/// The scan starts with empty ledgers and no trend direction.
pub open spec fn initial_state() -> ScanState {
    ScanState { supports: Seq::empty(), resistances: Seq::empty(), prev_dir: Direction::Flat }
}

/// One step of the scan: `prev` and `cur` are the prices at `prev_iloc` and
/// `prev_iloc + 1`. A reversal from a Down trend to an Up step confirms a
/// support at `prev_iloc`; a reversal from Up to Down confirms a resistance.
/// A non-flat step direction becomes the tracked trend; a flat step leaves it
/// unchanged.
pub open spec fn step_state(st: ScanState, prev: u64, cur: u64, prev_iloc: usize) -> ScanState {
    let d = direction_of(prev, cur);
    ScanState {
        supports: if d == Direction::Up && st.prev_dir == Direction::Down {
            st.supports.push(TurningPoint { iloc: prev_iloc, price: prev })
        } else {
            st.supports
        },
        resistances: if d == Direction::Down && st.prev_dir == Direction::Up {
            st.resistances.push(TurningPoint { iloc: prev_iloc, price: prev })
        } else {
            st.resistances
        },
        prev_dir: if d == Direction::Flat {
            st.prev_dir
        } else {
            d
        },
    }
}

/// The scan state on entry to step `iloc` of the series, i.e. after the steps
/// at positions `1 .. iloc` have been taken.
pub open spec fn state_at(prices: Seq<u64>, iloc: int) -> ScanState
    decreases iloc,
{
    if iloc <= 1 {
        initial_state()
    } else {
        step_state(
            state_at(prices, iloc - 1),
            prices[iloc - 2],
            prices[iloc - 1],
            (iloc - 2) as usize,
        )
    }
}

/// The most recently confirmed ledger entry whose price lies strictly below
/// the reference price, searching from the newest entry backward; `None` when
/// no entry qualifies.
pub open spec fn latest_below(ledger: Seq<TurningPoint>, reference: u64) -> Option<usize>
    decreases ledger.len(),
{
    if ledger.len() == 0 {
        None
    } else if f64_lt(ledger.last().price, reference) {
        Some(ledger.last().iloc)
    } else {
        latest_below(ledger.drop_last(), reference)
    }
}

/// The most recently confirmed ledger entry whose price lies strictly above
/// the reference price, searching from the newest entry backward.
pub open spec fn latest_above(ledger: Seq<TurningPoint>, reference: u64) -> Option<usize>
    decreases ledger.len(),
{
    if ledger.len() == 0 {
        None
    } else if f64_lt(reference, ledger.last().price) {
        Some(ledger.last().iloc)
    } else {
        latest_above(ledger.drop_last(), reference)
    }
}

/// The support result for every position of a series: position `j` is resolved
/// against the support ledger as it stands on entry to step `j + 1`, with the
/// price at `j` as the reference. For the last position this is the ledger
/// after the whole loop, resolved against the last price itself.
pub open spec fn spec_support_ilocs(prices: Seq<u64>) -> Seq<Option<usize>> {
    Seq::new(prices.len(), |j: int| latest_below(state_at(prices, j + 1).supports, prices[j]))
}

/// The resistance result for every position of a series, symmetric to
/// `spec_support_ilocs`.
pub open spec fn spec_resistance_ilocs(prices: Seq<u64>) -> Seq<Option<usize>> {
    Seq::new(prices.len(), |j: int| latest_above(state_at(prices, j + 1).resistances, prices[j]))
}

/// Search a ledger from its newest entry backward for the first entry priced
/// strictly below the reference, returning its time step.
pub fn find_latest_below(ledger: &Vec<TurningPoint>, reference: u64) -> (r: Option<usize>)
    ensures
        r == latest_below(ledger@, reference),
{
    let mut k: usize = ledger.len();
    proof {
        assert(ledger@.take(k as int) =~= ledger@);
    }
    while k > 0
        invariant
            k <= ledger.len(),
            latest_below(ledger@, reference) == latest_below(ledger@.take(k as int), reference),
        decreases k,
    {
        k = k - 1;
        proof {
            assert(ledger@.take(k + 1).drop_last() =~= ledger@.take(k as int));
            assert(ledger@.take(k + 1).last() == ledger@[k as int]);
        }
        let tp = ledger[k];
        if price_lt(tp.price, reference) {
            return Some(tp.iloc);
        }
    }
    None
}

/// Search a ledger from its newest entry backward for the first entry priced
/// strictly above the reference, returning its time step.
pub fn find_latest_above(ledger: &Vec<TurningPoint>, reference: u64) -> (r: Option<usize>)
    ensures
        r == latest_above(ledger@, reference),
{
    let mut k: usize = ledger.len();
    proof {
        assert(ledger@.take(k as int) =~= ledger@);
    }
    while k > 0
        invariant
            k <= ledger.len(),
            latest_above(ledger@, reference) == latest_above(ledger@.take(k as int), reference),
        decreases k,
    {
        k = k - 1;
        proof {
            assert(ledger@.take(k + 1).drop_last() =~= ledger@.take(k as int));
            assert(ledger@.take(k + 1).last() == ledger@[k as int]);
        }
        let tp = ledger[k];
        if price_lt(reference, tp.price) {
            return Some(tp.iloc);
        }
    }
    None
}

/// Scan one price series (as double bit patterns) and return, for every
/// position, the optional time step of the current support and of the current
/// resistance.
pub fn support_resistance_series_ilocs(prices: &Vec<u64>) -> (r: (
    Vec<Option<usize>>,
    Vec<Option<usize>>,
))
    ensures
        r.0@ == spec_support_ilocs(prices@),
        r.1@ == spec_resistance_ilocs(prices@),
        r.0.len() == prices.len(),
        r.1.len() == prices.len(),
{
    let n = prices.len();
    let mut support_out: Vec<Option<usize>> = Vec::new();
    let mut resistance_out: Vec<Option<usize>> = Vec::new();
    if n == 0 {
        proof {
            assert(support_out@ =~= spec_support_ilocs(prices@));
            assert(resistance_out@ =~= spec_resistance_ilocs(prices@));
        }
        return (support_out, resistance_out);
    }
    let mut supports: Vec<TurningPoint> = Vec::new();
    let mut resistances: Vec<TurningPoint> = Vec::new();
    let mut prev_dir = Direction::Flat;
    let mut iloc: usize = 1;
    while iloc < n
        invariant
            1 <= iloc <= n,
            n == prices.len(),
            supports@ == state_at(prices@, iloc as int).supports,
            resistances@ == state_at(prices@, iloc as int).resistances,
            prev_dir == state_at(prices@, iloc as int).prev_dir,
            support_out.len() == iloc - 1,
            resistance_out.len() == iloc - 1,
            forall|j: int|
                0 <= j < iloc - 1 ==> support_out@[j] == spec_support_ilocs(prices@)[j],
            forall|j: int|
                0 <= j < iloc - 1 ==> resistance_out@[j] == spec_resistance_ilocs(prices@)[j],
        decreases n - iloc,
    {
        let prev_price = prices[iloc - 1];
        let price = prices[iloc];
        let direction = get_direction(prev_price, price);

        // resolve position iloc - 1 before the ledgers change
        support_out.push(find_latest_below(&supports, prev_price));
        resistance_out.push(find_latest_above(&resistances, prev_price));

        // reversal detection: a confirmed extreme joins its ledger
        if direction == Direction::Up && prev_dir == Direction::Down {
            supports.push(TurningPoint { iloc: iloc - 1, price: prev_price });
        } else if direction == Direction::Down && prev_dir == Direction::Up {
            resistances.push(TurningPoint { iloc: iloc - 1, price: prev_price });
        }
        if !(direction == Direction::Flat) {
            prev_dir = direction;
        }
        iloc = iloc + 1;
        proof {
            assert(state_at(prices@, iloc as int) == step_state(
                state_at(prices@, iloc - 1),
                prices@[iloc - 2],
                prices@[iloc - 1],
                (iloc - 2) as usize,
            ));
        }
    }
    // the last position resolves against the ledgers after the whole loop,
    // with its own price as the reference
    let last_price = prices[n - 1];
    support_out.push(find_latest_below(&supports, last_price));
    resistance_out.push(find_latest_above(&resistances, last_price));
    proof {
        assert(support_out@ =~= spec_support_ilocs(prices@));
        assert(resistance_out@ =~= spec_resistance_ilocs(prices@));
    }
    (support_out, resistance_out)
}

} // verus!

