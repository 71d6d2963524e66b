//! Support and resistance scanning for price series.
//!
//! Prices are handled as the bit patterns of IEEE-754 doubles (`u64`), so that
//! the ordering comparisons the scan depends on are stated and verified as
//! plain integer logic. The host boundary converts real doubles to and from
//! these bit patterns.

pub mod laws;
pub mod matrix;
pub mod price;
pub mod scan;
pub mod sentinel;
