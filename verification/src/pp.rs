//! Per-call-stack records ("program points", PPs) and the counters they share
//! with the process-wide heap record.

use vstd::prelude::*;

verus! {

/// The four running counters that both the whole heap and each PP keep, as
/// mathematical integers.
pub struct Counts {
    pub curr_blocks: int,
    pub curr_bytes: int,
    pub max_blocks: int,
    pub max_bytes: int,
}

impl Counts {
    /// Adds `blocks` and `bytes` to the current counts; a new peak (ties
    /// count) is recorded in the max counts.
    pub open spec fn grow(self, blocks: int, bytes: int) -> Counts {
        let curr_blocks = self.curr_blocks + blocks;
        let curr_bytes = self.curr_bytes + bytes;
        if curr_bytes >= self.max_bytes {
            Counts { curr_blocks, curr_bytes, max_blocks: curr_blocks, max_bytes: curr_bytes }
        } else {
            Counts { curr_blocks, curr_bytes, max_blocks: self.max_blocks, max_bytes: self.max_bytes }
        }
    }

    /// The counts after a block of `size` bytes is allocated.
    pub open spec fn after_alloc(self, size: int) -> Counts {
        self.grow(1, size)
    }

    /// The counts after a live block of `old_size` bytes becomes `new_size` bytes.
    pub open spec fn after_realloc(self, old_size: int, new_size: int) -> Counts {
        self.grow(0, new_size - old_size)
    }

    /// The counts after a live block of `size` bytes is freed. The max counts
    /// stay as they are.
    pub open spec fn after_dealloc(self, size: int) -> Counts {
        Counts {
            curr_blocks: self.curr_blocks - 1,
            curr_bytes: self.curr_bytes - size,
            max_blocks: self.max_blocks,
            max_bytes: self.max_bytes,
        }
    }
}

/// A change in size. Used for `realloc`.
#[derive(Clone, Copy, Debug)]
pub struct Delta {
    pub shrinking: bool,
    pub size: usize,
}

impl Delta {
    /// The number of bytes the change adds; negative when shrinking.
    pub open spec fn signed(self) -> int {
        if self.shrinking {
            -(self.size as int)
        } else {
            self.size as int
        }
    }

    /// The change from `old_size` to `new_size`.
    pub fn new(old_size: usize, new_size: usize) -> (d: Delta)
        ensures
            d.shrinking == (new_size < old_size),
            d.signed() == new_size - old_size,
    {
        if new_size < old_size {
            Delta { shrinking: true, size: old_size - new_size }
        } else {
            Delta { shrinking: false, size: new_size - old_size }
        }
    }

    /// `n` changed by this delta.
    pub fn apply(self, n: usize) -> (r: usize)
        requires
            0 <= n + self.signed() <= usize::MAX,
        ensures
            r == n + self.signed(),
    {
        if self.shrinking {
            n - self.size
        } else {
            n + self.size
        }
    }
}

/// What a PP keeps when heap profiling.
#[derive(Clone, Copy, Debug)]
pub struct HeapPpInfo {
    /// The current number of blocks and bytes allocated by this PP.
    pub curr_blocks: usize,
    pub curr_bytes: usize,
    /// The number of blocks and bytes at the PP max, i.e. when this PP's
    /// `curr_bytes` peaks.
    pub max_blocks: usize,
    pub max_bytes: usize,
    /// The number of blocks and bytes at the global max, i.e. when the whole
    /// heap's `curr_bytes` peaks.
    pub at_tgmax_blocks: usize,
    pub at_tgmax_bytes: usize,
    /// Total lifetimes of all blocks allocated by this PP, in nanoseconds.
    /// Includes blocks explicitly freed and blocks implicitly freed at
    /// termination.
    pub total_lifetimes_duration: u128,
}

impl HeapPpInfo {
    /// The four running counters of the PP.
    pub open spec fn counts(self) -> Counts {
        Counts {
            curr_blocks: self.curr_blocks as int,
            curr_bytes: self.curr_bytes as int,
            max_blocks: self.max_blocks as int,
            max_bytes: self.max_bytes as int,
        }
    }

    /// This record with its four running counters replaced.
    pub open spec fn with_counts(self, c: Counts) -> HeapPpInfo {
        HeapPpInfo {
            curr_blocks: c.curr_blocks as usize,
            curr_bytes: c.curr_bytes as usize,
            max_blocks: c.max_blocks as usize,
            max_bytes: c.max_bytes as usize,
            at_tgmax_blocks: self.at_tgmax_blocks,
            at_tgmax_bytes: self.at_tgmax_bytes,
            total_lifetimes_duration: self.total_lifetimes_duration,
        }
    }

    /// This record with the current counts copied into the at-global-max ones.
    pub open spec fn snapshot(self) -> HeapPpInfo {
        HeapPpInfo {
            at_tgmax_blocks: self.curr_blocks,
            at_tgmax_bytes: self.curr_bytes,
            ..self
        }
    }
}

/// The aggregate record of one call stack.
#[derive(Clone, Copy, Debug)]
pub struct PpInfo {
    /// The total number of blocks and bytes allocated by this PP. For ad hoc
    /// profiling these are events and units.
    pub total_blocks: u64,
    pub total_bytes: u64,
    /// Present exactly when heap profiling.
    pub heap: Option<HeapPpInfo>,
}

impl PpInfo {
    /// The PP's invariant: its totals bound its peak, its peak bounds its
    /// current bytes, and every block whose lifetime has been added is no
    /// longer current.
    pub open spec fn wf(self) -> bool {
        self.heap matches Some(h) ==> {
            &&& h.curr_bytes <= h.max_bytes <= self.total_bytes
            &&& h.curr_blocks <= self.total_blocks
            &&& h.total_lifetimes_duration <= (self.total_blocks - h.curr_blocks) * u64::MAX
        }
    }

    /// The arguments on which `update_counts_for_alloc` stays within the
    /// machine's integers. `delta` is `None` for a fresh block of `size` bytes,
    /// and the change in size for a block that now has `size` bytes.
    pub open spec fn alloc_fits(self, size: usize, delta: Option<Delta>) -> bool {
        &&& self.heap is Some
        &&& self.total_blocks < u64::MAX
        &&& self.total_bytes + size <= u64::MAX
        &&& match delta {
            Some(d) => d.signed() <= size && 0 <= self.heap->0.curr_bytes + d.signed()
                <= usize::MAX,
            None => self.heap->0.curr_blocks < usize::MAX && self.heap->0.curr_bytes + size
                <= usize::MAX,
        }
    }

    /// The record after one more block of `size` bytes, fresh (`delta` is
    /// `None`) or resized by `delta`.
    pub open spec fn after_alloc(self, size: usize, delta: Option<Delta>) -> PpInfo {
        let h = self.heap->0;
        let c = match delta {
            Some(d) => h.counts().grow(0, d.signed()),
            None => h.counts().grow(1, size as int),
        };
        PpInfo {
            total_blocks: (self.total_blocks + 1) as u64,
            total_bytes: (self.total_bytes + size) as u64,
            heap: Some(h.with_counts(c)),
        }
    }

    /// The record after one of its blocks, of `size` bytes and alive for
    /// `alloc_duration` nanoseconds, is freed.
    pub open spec fn after_dealloc(self, size: usize, alloc_duration: u64) -> PpInfo {
        let h = self.heap->0;
        PpInfo {
            total_blocks: self.total_blocks,
            total_bytes: self.total_bytes,
            heap: Some(
                HeapPpInfo {
                    total_lifetimes_duration: (h.total_lifetimes_duration
                        + alloc_duration) as u128,
                    ..h.with_counts(h.counts().after_dealloc(size as int))
                },
            ),
        }
    }

    /// The record after one more ad hoc event of the given weight.
    pub open spec fn after_ad_hoc_event(self, weight: usize) -> PpInfo {
        PpInfo {
            total_blocks: (self.total_blocks + 1) as u64,
            total_bytes: (self.total_bytes + weight) as u64,
            heap: self.heap,
        }
    }

    /// Counting a block that fits keeps the PP's invariant.
    pub proof fn lemma_after_alloc_wf(self, size: usize, delta: Option<Delta>)
        requires
            self.wf(),
            self.alloc_fits(size, delta),
        ensures
            self.after_alloc(size, delta).wf(),
    {
        let h = self.heap->0;
        let after = self.after_alloc(size, delta).heap->0;
        assert((self.total_blocks - h.curr_blocks) * u64::MAX <= (self.total_blocks + 1
            - after.curr_blocks) * u64::MAX) by (nonlinear_arith)
            requires
                self.total_blocks - h.curr_blocks <= self.total_blocks + 1 - after.curr_blocks,
        ;
    }

    /// Freeing one of the PP's blocks keeps the PP's invariant, and the sum of
    /// the lifetimes within 128 bits.
    pub proof fn lemma_after_dealloc_wf(self, size: usize, alloc_duration: u64)
        requires
            self.wf(),
            self.heap is Some,
            self.heap->0.curr_blocks >= 1,
            self.heap->0.curr_bytes >= size,
        ensures
            self.heap->0.total_lifetimes_duration + alloc_duration <= u128::MAX,
            self.after_dealloc(size, alloc_duration).wf(),
    {
        let h = self.heap->0;
        let t = self.total_blocks;
        assert((t - h.curr_blocks) * u64::MAX + u64::MAX == (t - (h.curr_blocks - 1)) * u64::MAX)
            by (nonlinear_arith);
        assert((t - (h.curr_blocks - 1)) * u64::MAX <= u64::MAX * u64::MAX) by (nonlinear_arith)
            requires
                0 <= t - (h.curr_blocks - 1) <= u64::MAX,
        ;
    }

    /// A fresh record for heap profiling: all zero.
    pub fn new_heap() -> (pp: PpInfo)
        ensures
            pp == Self::zero(true),
            pp.wf(),
    {
        PpInfo {
            total_blocks: 0,
            total_bytes: 0,
            heap: Some(
                HeapPpInfo {
                    curr_blocks: 0,
                    curr_bytes: 0,
                    max_blocks: 0,
                    max_bytes: 0,
                    at_tgmax_blocks: 0,
                    at_tgmax_bytes: 0,
                    total_lifetimes_duration: 0,
                },
            ),
        }
    }

    /// A fresh record for ad hoc profiling: all zero, no heap part.
    pub fn new_ad_hoc() -> (pp: PpInfo)
        ensures
            pp == Self::zero(false),
            pp.wf(),
    {
        PpInfo { total_blocks: 0, total_bytes: 0, heap: None }
    }

    /// The all-zero record, with a heap part or without.
    pub open spec fn zero(heap: bool) -> PpInfo {
        PpInfo {
            total_blocks: 0,
            total_bytes: 0,
            heap: if heap {
                Some(
                    HeapPpInfo {
                        curr_blocks: 0,
                        curr_bytes: 0,
                        max_blocks: 0,
                        max_bytes: 0,
                        at_tgmax_blocks: 0,
                        at_tgmax_bytes: 0,
                        total_lifetimes_duration: 0,
                    },
                )
            } else {
                None
            },
        }
    }

    /// Counts one more block of `size` bytes against this PP.
    pub fn update_counts_for_alloc(&mut self, size: usize, delta: Option<Delta>)
        requires
            old(self).wf(),
            old(self).alloc_fits(size, delta),
        ensures
            *final(self) == old(self).after_alloc(size, delta),
            final(self).wf(),
    {
        self.total_blocks += 1;
        self.total_bytes += size as u64;

        let mut h = self.heap.unwrap();
        if let Some(delta) = delta {
            // realloc: the number of blocks is unchanged
            h.curr_bytes = delta.apply(h.curr_bytes);
        } else {
            // alloc
            h.curr_blocks += 1;
            h.curr_bytes += size;
        }

        // The use of `>=` not `>` means that if there are multiple equal peaks
        // we record the latest one.
        if h.curr_bytes >= h.max_bytes {
            h.max_blocks = h.curr_blocks;
            h.max_bytes = h.curr_bytes;
        }
        self.heap = Some(h);
        proof {
            old(self).lemma_after_alloc_wf(size, delta);
        }
    }

    /// Takes one freed block of `size` bytes off this PP's current counts and
    /// adds its lifetime.
    pub fn update_counts_for_dealloc(&mut self, size: usize, alloc_duration: u64)
        requires
            old(self).wf(),
            old(self).heap is Some,
            old(self).heap->0.curr_blocks >= 1,
            old(self).heap->0.curr_bytes >= size,
        ensures
            *final(self) == old(self).after_dealloc(size, alloc_duration),
            final(self).wf(),
    {
        let mut h = self.heap.unwrap();
        proof {
            old(self).lemma_after_dealloc_wf(size, alloc_duration);
        }
        h.curr_blocks -= 1;
        h.curr_bytes -= size;
        h.total_lifetimes_duration += alloc_duration as u128;
        self.heap = Some(h);
    }

    /// Counts one more ad hoc event of the given weight against this PP.
    pub fn update_counts_for_ad_hoc_event(&mut self, weight: usize)
        requires
            old(self).heap is None,
            old(self).total_blocks < u64::MAX,
            old(self).total_bytes + weight <= u64::MAX,
        ensures
            *final(self) == old(self).after_ad_hoc_event(weight),
            final(self).wf(),
    {
        self.total_blocks += 1;
        self.total_bytes += weight as u64;
    }
}

} // verus!
