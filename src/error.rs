//! The errors that the library surfaces.
use vstd::prelude::*;

verus! {

/// What can go wrong before or around a search. A candidate whose
/// derivation fails is skipped and never becomes one of these.
#[derive(Clone, Copy, Debug, PartialEq, Eq, Structural)]
pub enum SearchError {
    /// Text that is not a hexadecimal key below 2^256.
    InvalidKey,
    /// A range whose start lies above its end.
    InvalidRange,
    /// A duration, target time or batch size of zero.
    InvalidDuration,
    /// An allocation over an empty worker list.
    NoWorkers,
    /// A throughput of zero, which cannot be planned or allocated for.
    ZeroThroughput,
    /// A benchmarking worker did not finish normally.
    BenchmarkFailure,
}

} // verus!
