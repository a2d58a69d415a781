//! Statistical decision engines for a query-execution pipeline: an online
//! mean/variance estimator over exact integer arithmetic, a batch-windowed
//! convergence test for adaptive early stopping, and a staleness-aware cache
//! policy with exponential backoff and outlier-triggered reset.

use vstd::prelude::*;

pub mod cache;
pub mod controller;
pub mod moments;
pub mod policy;
pub mod rational;
pub mod registry;

verus! {

/// Failures of the statistical core.
#[derive(Clone, Copy, Debug, PartialEq, Eq)]
pub enum CoreError {
    /// A statistic was requested before enough observations were absorbed.
    InsufficientData,
    /// Progress was reported for an operator instance that was never created.
    UnknownOperator,
}

} // verus!
