//! The re-entry guard. Recording an allocation may itself allocate; while a
//! thread's flag is set, the allocations it makes are the profiler's own and
//! are passed on without being recorded.

use vstd::prelude::*;

verus! {

/// One acquisition of a thread's flag. The caller keeps the flag, one per
/// thread, and hands it to `new` and to `release`.
#[derive(Debug)]
pub struct IgnoreAllocs {
    /// Whether the flag was already set when this guard was made, that is,
    /// whether this is a nested call inside the profiler's own bookkeeping.
    pub was_already_ignoring_allocs: bool,
}

impl IgnoreAllocs {
    /// Sets the flag and remembers what it was.
    pub fn new(flag: &mut bool) -> (guard: IgnoreAllocs)
        ensures
            guard.was_already_ignoring_allocs == *old(flag),
            *final(flag),
    {
        let was_already_ignoring_allocs = *flag;
        *flag = true;
        IgnoreAllocs { was_already_ignoring_allocs }
    }

    /// Ends the acquisition: the outermost guard clears the flag, a nested one
    /// leaves it as it is. To be called on every way out, also when unwinding.
    pub fn release(self, flag: &mut bool)
        ensures
            *final(flag) == (self.was_already_ignoring_allocs && *old(flag)),
    {
        if !self.was_already_ignoring_allocs {
            *flag = false;
        }
    }
}

} // verus!
