//! The aggregate statistics that a running profiler hands out.

use vstd::prelude::*;

verus! {

/// Stats from heap profiling.
#[derive(Clone, Debug, PartialEq, Eq)]
#[non_exhaustive]
pub struct HeapStats {
    /// Number of blocks (a.k.a. allocations) allocated over the entire run.
    pub total_blocks: u64,
    /// Number of bytes allocated over the entire run.
    pub total_bytes: u64,
    /// Number of blocks (a.k.a. allocations) currently allocated.
    pub curr_blocks: usize,
    /// Number of bytes currently allocated.
    pub curr_bytes: usize,
    /// Number of blocks (a.k.a. allocations) allocated at the global peak,
    /// i.e. when `curr_bytes` peaked.
    pub max_blocks: usize,
    /// Number of bytes allocated at the global peak, i.e. when `curr_bytes`
    /// peaked.
    pub max_bytes: usize,
}

/// Stats from ad hoc profiling.
#[derive(Clone, Debug, PartialEq, Eq)]
#[non_exhaustive]
pub struct AdHocStats {
    /// Number of events recorded for the entire run.
    pub total_events: u64,
    /// Number of units recorded for the entire run.
    pub total_units: u64,
}

} // verus!
