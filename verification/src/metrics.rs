//! Turning a finished scheduler run into the benchmark's result record.

use vstd::prelude::*;

use crate::error::BenchError;

verus! {

/// Whole bytes per second for a byte count moved in `elapsed_us`
/// microseconds; zero when no time was measured, and saturating at the
/// largest representable rate.
pub open spec fn spec_bytes_per_second(total_bytes: u64, elapsed_us: u64) -> int {
    if elapsed_us == 0 {
        0
    } else if (total_bytes * 1_000_000) / (elapsed_us as int) > u64::MAX {
        u64::MAX as int
    } else {
        (total_bytes * 1_000_000) / (elapsed_us as int)
    }
}

/// One benchmark run's summary record. Emitted once on success and then
/// discarded; never emitted for a failed run.
#[derive(Clone, Copy, Debug, PartialEq, Eq, Structural)]
pub struct BenchmarkResult {
    /// How many objects the run spanned.
    pub num_objects: usize,
    /// How many blocks (block pattern) or groups (columnar pattern) each
    /// object was split into.
    pub unit_count: usize,
    /// Requested concurrency window.
    pub parallel_downloads: usize,
    /// Aggregate bytes fetched.
    pub total_bytes: u64,
    /// Wall-clock duration of the scheduler run, in microseconds.
    pub elapsed_us: u64,
    /// Whole bytes per second over the run.
    pub bytes_per_second: u64,
}

/// Wraps a scheduler outcome into the run's result record: on success the
/// record carries the aggregate bytes, the elapsed time and the derived
/// throughput; on failure no record exists and the error is the run's
/// outcome.
pub fn report(
    outcome: Result<u64, BenchError>,
    elapsed_us: u64,
    num_objects: usize,
    unit_count: usize,
    parallel_downloads: usize,
) -> (r: Result<BenchmarkResult, BenchError>)
    ensures
        (r is Ok) <==> (outcome is Ok),
        outcome is Ok ==> r == Result::<BenchmarkResult, BenchError>::Ok(
            BenchmarkResult {
                num_objects,
                unit_count,
                parallel_downloads,
                total_bytes: outcome->Ok_0,
                elapsed_us,
                bytes_per_second: spec_bytes_per_second(outcome->Ok_0, elapsed_us) as u64,
            },
        ),
        outcome is Err ==> r == Result::<BenchmarkResult, BenchError>::Err(outcome->Err_0),
{
    match outcome {
        Ok(total_bytes) => {
            let bytes_per_second: u64 = if elapsed_us == 0 {
                0
            } else {
                let wide: u128 = (total_bytes as u128) * 1_000_000;
                let rate: u128 = wide / (elapsed_us as u128);
                proof {
                    assert((total_bytes * 1_000_000) / (elapsed_us as int) == rate);
                }
                if rate > u64::MAX as u128 {
                    u64::MAX
                } else {
                    rate as u64
                }
            };
            Ok(
                BenchmarkResult {
                    num_objects,
                    unit_count,
                    parallel_downloads,
                    total_bytes,
                    elapsed_us,
                    bytes_per_second,
                },
            )
        },
        Err(e) => Err(e),
    }
}

} // verus!
