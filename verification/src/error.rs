//! Error kinds of the benchmark run.

use vstd::prelude::*;

verus! {

/// What can abort a benchmark run. None of these is recovered locally:
/// each is surfaced to the caller as the run's outcome.
#[derive(Clone, Copy, Debug, PartialEq, Eq, Structural)]
pub enum BenchError {
    /// The location addresses neither an object nor a non-empty prefix,
    /// or listing it failed.
    ResolutionError,
    /// The resolved objects do not all share one size.
    SizeMismatchError,
    /// The requested layout yields zero blocks or zero groups, or a size
    /// is not evenly divisible where exact division is required.
    InvalidLayoutError,
    /// A single range-get failed; terminal for the whole run.
    FetchFailure,
}

impl BenchError {
    /// A short stable label for the error, for reporting at the boundary.
    pub fn label(&self) -> (r: &'static str)
        ensures
            r@ == self.spec_label(),
    {
        match self {
            BenchError::ResolutionError => "resolution error",
            BenchError::SizeMismatchError => "size mismatch",
            BenchError::InvalidLayoutError => "invalid layout",
            BenchError::FetchFailure => "fetch failure",
        }
    }

    pub open spec fn spec_label(&self) -> Seq<char> {
        match self {
            BenchError::ResolutionError => "resolution error"@,
            BenchError::SizeMismatchError => "size mismatch"@,
            BenchError::InvalidLayoutError => "invalid layout"@,
            BenchError::FetchFailure => "fetch failure"@,
        }
    }
}

} // verus!
