//! The per-column fan-out of the series scan over a price matrix.
//!
//! A matrix is a row count and a vector of columns, one independent series per
//! column, all of the same length. The scan of a matrix is a pure per-column
//! map: column `j` of each output is exactly the series scan of column `j` of
//! the input, so the result is a mathematical function of the input alone and
//! no execution order over columns can change it.

use vstd::prelude::*;

use crate::scan::spec_resistance_ilocs;
use crate::scan::spec_support_ilocs;
use crate::scan::support_resistance_series_ilocs;

verus! {

/// A price matrix: independent columns sharing one row count, each price a
/// double's bit pattern.
pub struct PriceMatrix {
    pub n_rows: usize,
    pub columns: Vec<Vec<u64>>,
}

impl PriceMatrix {
    /// Every column holds exactly `n_rows` prices.
    pub open spec fn wf(self) -> bool {
        forall|j: int|
            0 <= j < self.columns@.len() ==> (#[trigger] self.columns@[j])@.len() == self.n_rows
    }

    /// Runtime check of well-formedness, for callers outside the library.
    pub fn check_well_formed(&self) -> (b: bool)
        ensures
            b == self.wf(),
    {
        let k = self.columns.len();
        let mut j: usize = 0;
        while j < k
            invariant
                j <= k,
                k == self.columns@.len(),
                forall|i: int|
                    0 <= i < j ==> (#[trigger] self.columns@[i])@.len() == self.n_rows,
            decreases k - j,
        {
            if self.columns[j].len() != self.n_rows {
                return false;
            }
            j = j + 1;
        }
        true
    }
}

/// A matrix of optional time-step results, of the same shape as the price
/// matrix it was scanned from.
pub struct IlocMatrix {
    pub n_rows: usize,
    pub columns: Vec<Vec<Option<usize>>>,
}

impl IlocMatrix {
    /// Every column holds exactly `n_rows` results.
    pub open spec fn wf(self) -> bool {
        forall|j: int|
            0 <= j < self.columns@.len() ==> (#[trigger] self.columns@[j])@.len() == self.n_rows
    }

    /// Runtime check of well-formedness, for callers outside the library.
    pub fn check_well_formed(&self) -> (b: bool)
        ensures
            b == self.wf(),
    {
        let k = self.columns.len();
        let mut j: usize = 0;
        while j < k
            invariant
                j <= k,
                k == self.columns@.len(),
                forall|i: int|
                    0 <= i < j ==> (#[trigger] self.columns@[i])@.len() == self.n_rows,
            decreases k - j,
        {
            if self.columns[j].len() != self.n_rows {
                return false;
            }
            j = j + 1;
        }
        true
    }
}

/// Scan every column of a price matrix and return the support and resistance
/// matrices, of the same shape. Column `j` of each output is the series scan
/// of column `j` of the input, so columns are fully independent of one
/// another.
pub fn support_resistance_ilocs(prices: &PriceMatrix) -> (r: (IlocMatrix, IlocMatrix))
    requires
        prices.wf(),
    ensures
        r.0.wf(),
        r.1.wf(),
        r.0.n_rows == prices.n_rows,
        r.1.n_rows == prices.n_rows,
        r.0.columns@.len() == prices.columns@.len(),
        r.1.columns@.len() == prices.columns@.len(),
        forall|j: int|
            0 <= j < prices.columns@.len() ==> (#[trigger] r.0.columns@[j])@
                == spec_support_ilocs(prices.columns@[j]@),
        forall|j: int|
            0 <= j < prices.columns@.len() ==> (#[trigger] r.1.columns@[j])@
                == spec_resistance_ilocs(prices.columns@[j]@),
{
    let k = prices.columns.len();
    let mut support_columns: Vec<Vec<Option<usize>>> = Vec::new();
    let mut resistance_columns: Vec<Vec<Option<usize>>> = Vec::new();
    let mut j: usize = 0;
    while j < k
        invariant
            j <= k,
            k == prices.columns@.len(),
            prices.wf(),
            support_columns@.len() == j,
            resistance_columns@.len() == j,
            forall|i: int|
                0 <= i < j ==> (#[trigger] support_columns@[i])@
                    == spec_support_ilocs(prices.columns@[i]@),
            forall|i: int|
                0 <= i < j ==> (#[trigger] resistance_columns@[i])@
                    == spec_resistance_ilocs(prices.columns@[i]@),
            forall|i: int|
                0 <= i < j ==> (#[trigger] support_columns@[i])@.len() == prices.n_rows,
            forall|i: int|
                0 <= i < j ==> (#[trigger] resistance_columns@[i])@.len() == prices.n_rows,
        decreases k - j,
    {
        let column = &prices.columns[j];
        let (support_column, resistance_column) = support_resistance_series_ilocs(column);
        support_columns.push(support_column);
        resistance_columns.push(resistance_column);
        j = j + 1;
    }
    (
        IlocMatrix { n_rows: prices.n_rows, columns: support_columns },
        IlocMatrix { n_rows: prices.n_rows, columns: resistance_columns },
    )
}

} // verus!
