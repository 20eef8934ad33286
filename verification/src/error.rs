//! The ways in which the profiler can be misused, each with its diagnostic.

use vstd::prelude::*;
use vstd::string::StringExecFns;

verus! {

/// A misuse of the profiler's lifecycle. A caller that cannot go on reports
/// `message()` as it stands.
#[derive(Clone, Copy, Debug, PartialEq, Eq)]
pub enum LifecycleError {
    /// Heap stats were asked for while no profiler was running.
    HeapStatsNotRunning,
    /// Ad hoc stats were asked for while no profiler was running.
    AdHocStatsNotRunning,
    /// A profiler was created while another one was running.
    AlreadyRunning,
    /// Heap stats were asked for during ad hoc profiling.
    HeapStatsWhileAdHoc,
    /// Ad hoc stats were asked for during heap profiling.
    AdHocStatsWhileHeap,
    /// Heap stats were asked for after an assertion of this profiler failed.
    HeapStatsAfterAssert,
    /// Ad hoc stats were asked for after an assertion of this profiler failed.
    AdHocStatsAfterAssert,
    /// An assertion was made while no profiler was running.
    AssertNotRunning,
    /// An assertion was made by a profiler that is not in testing mode.
    AssertNotTesting,
    /// An assertion was made after an earlier one of this profiler failed.
    AssertAfterAssert,
}

impl LifecycleError {
    /// The diagnostic of each misuse.
    pub open spec fn text(self) -> Seq<char> {
        match self {
            LifecycleError::HeapStatsNotRunning =>
                "dhat: getting heap stats when no profiler is running"@,
            LifecycleError::AdHocStatsNotRunning =>
                "dhat: getting ad hoc stats when no profiler is running"@,
            LifecycleError::AlreadyRunning =>
                "dhat: creating a profiler while a profiler is already running"@,
            LifecycleError::HeapStatsWhileAdHoc =>
                "dhat: getting heap stats while doing ad hoc profiling"@,
            LifecycleError::AdHocStatsWhileHeap =>
                "dhat: getting ad hoc stats while doing heap profiling"@,
            LifecycleError::HeapStatsAfterAssert =>
                "dhat: getting heap stats after the profiler has asserted"@,
            LifecycleError::AdHocStatsAfterAssert =>
                "dhat: getting ad hoc stats after the profiler has asserted"@,
            LifecycleError::AssertNotRunning => "dhat: asserting when no profiler is running"@,
            LifecycleError::AssertNotTesting => "dhat: asserting while not in testing mode"@,
            LifecycleError::AssertAfterAssert =>
                "dhat: asserting after the profiler has asserted"@,
        }
    }

    /// The diagnostic of this misuse.
    pub fn message(&self) -> (s: String)
        ensures
            s@ == self.text(),
    {
        let text = match self {
            LifecycleError::HeapStatsNotRunning =>
                "dhat: getting heap stats when no profiler is running",
            LifecycleError::AdHocStatsNotRunning =>
                "dhat: getting ad hoc stats when no profiler is running",
            LifecycleError::AlreadyRunning =>
                "dhat: creating a profiler while a profiler is already running",
            LifecycleError::HeapStatsWhileAdHoc =>
                "dhat: getting heap stats while doing ad hoc profiling",
            LifecycleError::AdHocStatsWhileHeap =>
                "dhat: getting ad hoc stats while doing heap profiling",
            LifecycleError::HeapStatsAfterAssert =>
                "dhat: getting heap stats after the profiler has asserted",
            LifecycleError::AdHocStatsAfterAssert =>
                "dhat: getting ad hoc stats after the profiler has asserted",
            LifecycleError::AssertNotRunning => "dhat: asserting when no profiler is running",
            LifecycleError::AssertNotTesting => "dhat: asserting while not in testing mode",
            LifecycleError::AssertAfterAssert => "dhat: asserting after the profiler has asserted",
        };
        String::from_str(text)
    }
}

} // verus!
