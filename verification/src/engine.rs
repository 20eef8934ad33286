//! The statistics engine: how each event changes the state of a running
//! profiler.

use crate::backtrace::{new_backtrace_inner, Backtrace};
use crate::error::LifecycleError;
use crate::globals::{
    elapsed, lemma_get_pp_info_stacks, lemma_insert_block, lemma_pp_share,
    lemma_pp_without_blocks, lemma_remove_block, lemma_same_stacks, Globals, GlobalsView,
};
use crate::maps::{LiveBlock, TrimMap};
use crate::pp::{Delta, PpInfo};
use crate::stats::{AdHocStats, HeapStats};
use vstd::prelude::*;

verus! {

impl GlobalsView {
    /// What a caller can test of the arguments of a `realloc` before it is
    /// counted: the new address is free, and the counters stay within the
    /// machine's integers.
    pub open spec fn realloc_fits(self, old_ptr: usize, old_size: usize, new_ptr: usize, new_size: usize)
        -> bool {
        let h = self.heap->0;
        if h.live_blocks.contains_key(old_ptr) {
            &&& new_ptr == old_ptr || !h.live_blocks.contains_key(new_ptr)
            &&& self.total_blocks < u64::MAX
            &&& self.total_bytes + new_size <= u64::MAX
            &&& h.curr_bytes - old_size + new_size <= usize::MAX
        } else {
            &&& !h.live_blocks.contains_key(new_ptr)
            &&& self.has_room(new_size)
        }
    }

    /// The arguments of a `realloc` that can be counted: they fit, and the old
    /// size is the one the block has.
    pub open spec fn can_realloc(self, old_ptr: usize, old_size: usize, new_ptr: usize, new_size: usize)
        -> bool {
        &&& self.realloc_fits(old_ptr, old_size, new_ptr, new_size)
        &&& self.heap->0.live_blocks.contains_key(old_ptr) ==> self.heap->0.sizes[old_ptr]
            == old_size
    }

    /// The arguments of a `dealloc` that can be counted: the size is the one
    /// the block has.
    pub open spec fn can_dealloc(self, ptr: usize, size: usize) -> bool {
        let h = self.heap->0;
        h.live_blocks.contains_key(ptr) ==> h.sizes[ptr] == size
    }

    /// The stats of a heap profiling run.
    pub open spec fn heap_stats(self) -> HeapStats {
        HeapStats {
            total_blocks: self.total_blocks,
            total_bytes: self.total_bytes,
            curr_blocks: self.heap->0.curr_blocks,
            curr_bytes: self.heap->0.curr_bytes,
            max_blocks: self.heap->0.max_blocks,
            max_bytes: self.heap->0.max_bytes,
        }
    }

    /// The stats of an ad hoc profiling run.
    pub open spec fn ad_hoc_stats(self) -> AdHocStats {
        AdHocStats { total_events: self.total_blocks, total_units: self.total_bytes }
    }

    /// The state after a fresh block of `size` bytes at `ptr` has been counted
    /// against the PP of the stack `bt`.
    pub open spec fn count_alloc(self, bt: Seq<usize>, ptr: usize, size: usize, now: u64)
        -> GlobalsView {
        let idx = self.pp_index(bt);
        self.get_pp_info(bt, PpInfo::zero(true)).record_block(
            ptr,
            size,
            idx,
            now,
        ).update_counts_for_alloc(idx, size, None, now)
    }

    /// Counting a fresh block keeps the state's invariant.
    pub proof fn lemma_count_alloc_wf(self, bt: Seq<usize>, ptr: usize, size: usize, now: u64)
        requires
            self.wf(),
            self.heap is Some,
            self.has_room(size),
            !self.heap->0.live_blocks.contains_key(ptr),
        ensures
            self.count_alloc(bt, ptr, size, now).wf(),
            self.get_pp_info(bt, PpInfo::zero(true)).pp_infos[self.pp_index(bt) as int].alloc_fits(
                size,
                None,
            ),
            self.get_pp_info(bt, PpInfo::zero(true)).pp_infos[self.pp_index(bt) as int].wf(),
    {
        let idx = self.pp_index(bt);
        let g1 = self.get_pp_info(bt, PpInfo::zero(true));
        let g2 = g1.record_block(ptr, size, idx, now);
        let g3 = g2.update_counts_for_alloc(idx, size, None, now);
        let h = self.heap->0;
        let h2 = g2.heap->0;
        let h3 = g3.heap->0;
        let block = LiveBlock { pp_info_idx: idx, allocation_instant: now };
        lemma_get_pp_info_stacks(self, bt, PpInfo::zero(true));
        lemma_same_stacks(g1, g3);
        lemma_insert_block(h, ptr, block, size);
        lemma_pp_share(h, idx);
        if !self.backtraces.contains_key(bt) {
            lemma_pp_without_blocks(h, idx);
        }
        let pp = g1.pp_infos[idx as int];
        pp.lemma_after_alloc_wf(size, None);
        assert forall|i: int| 0 <= i < g3.pp_infos.len() implies {
            &&& (#[trigger] g3.pp_infos[i]).wf()
            &&& g3.pp_infos[i].total_blocks <= g3.total_blocks
            &&& g3.pp_infos[i].total_bytes <= g3.total_bytes
            &&& g3.pp_infos[i].heap is Some <==> g3.heap is Some
            &&& g3.pp_infos[i].heap->0.curr_bytes == h3.pp_live_bytes(i as usize)
            &&& g3.pp_infos[i].heap->0.curr_blocks == h3.pp_live_blocks(i as usize)
        } by {
            assert(h3.pp_live_bytes(i as usize) == h2.pp_live_bytes(i as usize));
            assert(h3.pp_live_blocks(i as usize) == h2.pp_live_blocks(i as usize));
            if i != idx && i >= self.pp_infos.len() {
                lemma_pp_without_blocks(h, i as usize);
            }
        }
    }

    /// The state after the live block at `old_ptr`, now of `new_size` bytes at
    /// `new_ptr`, has been counted against its PP.
    pub open spec fn count_realloc(
        self,
        old_ptr: usize,
        old_size: usize,
        new_ptr: usize,
        new_size: usize,
        now: u64,
    ) -> GlobalsView {
        let idx = self.heap->0.live_blocks[old_ptr].pp_info_idx;
        self.forget_block(old_ptr).record_block(new_ptr, new_size, idx, now).update_counts_for_alloc(
            idx,
            new_size,
            Some(
                Delta {
                    shrinking: new_size < old_size,
                    size: if new_size < old_size {
                        (old_size - new_size) as usize
                    } else {
                        (new_size - old_size) as usize
                    },
                },
            ),
            now,
        )
    }

    /// Counting a resized block keeps the state's invariant.
    pub proof fn lemma_count_realloc_wf(
        self,
        old_ptr: usize,
        old_size: usize,
        new_ptr: usize,
        new_size: usize,
        now: u64,
    )
        requires
            self.wf(),
            self.heap is Some,
            self.heap->0.live_blocks.contains_key(old_ptr),
            self.can_realloc(old_ptr, old_size, new_ptr, new_size),
        ensures
            self.count_realloc(old_ptr, old_size, new_ptr, new_size, now).wf(),
            self.pp_infos[self.heap->0.live_blocks[old_ptr].pp_info_idx as int].wf(),
            self.pp_infos[self.heap->0.live_blocks[old_ptr].pp_info_idx as int].alloc_fits(
                new_size,
                Some(
                    Delta {
                        shrinking: new_size < old_size,
                        size: if new_size < old_size {
                            (old_size - new_size) as usize
                        } else {
                            (new_size - old_size) as usize
                        },
                    },
                ),
            ),
            0 <= self.heap->0.curr_bytes - old_size + new_size,
    {
        let h = self.heap->0;
        let idx = h.live_blocks[old_ptr].pp_info_idx;
        let delta = Delta {
            shrinking: new_size < old_size,
            size: if new_size < old_size {
                (old_size - new_size) as usize
            } else {
                (new_size - old_size) as usize
            },
        };
        let g1 = self.forget_block(old_ptr);
        let g2 = g1.record_block(new_ptr, new_size, idx, now);
        let g3 = g2.update_counts_for_alloc(idx, new_size, Some(delta), now);
        let h1 = g1.heap->0;
        let h2 = g2.heap->0;
        let h3 = g3.heap->0;
        let block = LiveBlock { pp_info_idx: idx, allocation_instant: now };
        lemma_same_stacks(self, g3);
        lemma_pp_share(h, idx);
        lemma_remove_block(h, old_ptr);
        lemma_insert_block(h1, new_ptr, block, new_size);
        let pp = self.pp_infos[idx as int];
        pp.lemma_after_alloc_wf(new_size, Some(delta));
        assert forall|i: int| 0 <= i < g3.pp_infos.len() implies {
            &&& (#[trigger] g3.pp_infos[i]).wf()
            &&& g3.pp_infos[i].total_blocks <= g3.total_blocks
            &&& g3.pp_infos[i].total_bytes <= g3.total_bytes
            &&& g3.pp_infos[i].heap is Some <==> g3.heap is Some
            &&& g3.pp_infos[i].heap->0.curr_bytes == h3.pp_live_bytes(i as usize)
            &&& g3.pp_infos[i].heap->0.curr_blocks == h3.pp_live_blocks(i as usize)
        } by {
            assert(h2.pp_live_bytes(i as usize) == h1.pp_live_bytes(i as usize) + (if i == idx {
                new_size as int
            } else {
                0
            }));
            assert(h1.pp_live_bytes(i as usize) == h.pp_live_bytes(i as usize) - (if i == idx {
                old_size as int
            } else {
                0
            }));
            assert(h2.pp_live_blocks(i as usize) == h1.pp_live_blocks(i as usize) + (if i == idx {
                1int
            } else {
                0
            }));
            assert(h1.pp_live_blocks(i as usize) == h.pp_live_blocks(i as usize) - (if i == idx {
                1int
            } else {
                0
            }));
        }
    }

    /// The state after the live block at `ptr`, of `size` bytes, has been
    /// taken off the counts.
    pub open spec fn count_dealloc(self, ptr: usize, size: usize, now: u64) -> GlobalsView {
        let live = self.heap->0.live_blocks;
        self.forget_block(ptr).check_for_global_peak().update_counts_for_dealloc(
            live[ptr].pp_info_idx,
            size,
            elapsed(now, live[ptr].allocation_instant),
        )
    }

    /// Taking a freed block off the counts keeps the state's invariant.
    pub proof fn lemma_count_dealloc_wf(self, ptr: usize, size: usize, now: u64)
        requires
            self.wf(),
            self.heap is Some,
            self.heap->0.live_blocks.contains_key(ptr),
            self.can_dealloc(ptr, size),
        ensures
            self.count_dealloc(ptr, size, now).wf(),
            self.heap->0.curr_blocks >= 1,
            self.heap->0.curr_bytes >= size,
            self.pp_infos[self.heap->0.live_blocks[ptr].pp_info_idx as int].wf(),
            self.pp_infos[self.heap->0.live_blocks[ptr].pp_info_idx as int].heap->0.curr_blocks
                >= 1,
            self.pp_infos[self.heap->0.live_blocks[ptr].pp_info_idx as int].heap->0.curr_bytes
                >= size,
    {
        let h = self.heap->0;
        let idx = h.live_blocks[ptr].pp_info_idx;
        let g1 = self.forget_block(ptr);
        let g2 = g1.check_for_global_peak();
        let g3 = g2.update_counts_for_dealloc(idx, size, elapsed(now, h.live_blocks[ptr].allocation_instant));
        let h3 = g3.heap->0;
        lemma_same_stacks(self, g3);
        lemma_pp_share(h, idx);
        lemma_remove_block(h, ptr);
        let pp2 = g2.pp_infos[idx as int];
        pp2.lemma_after_dealloc_wf(size, elapsed(now, h.live_blocks[ptr].allocation_instant));
        assert forall|i: int| 0 <= i < g3.pp_infos.len() implies {
            &&& (#[trigger] g3.pp_infos[i]).wf()
            &&& g3.pp_infos[i].total_blocks <= g3.total_blocks
            &&& g3.pp_infos[i].total_bytes <= g3.total_bytes
            &&& g3.pp_infos[i].heap is Some <==> g3.heap is Some
            &&& g3.pp_infos[i].heap->0.curr_bytes == h3.pp_live_bytes(i as usize)
            &&& g3.pp_infos[i].heap->0.curr_blocks == h3.pp_live_blocks(i as usize)
        } by {
            let h1 = g1.heap->0;
            assert(h1.pp_live_bytes(i as usize) == h.pp_live_bytes(i as usize) - (if i == idx {
                size as int
            } else {
                0
            }));
            assert(h1.pp_live_blocks(i as usize) == h.pp_live_blocks(i as usize) - (if i == idx {
                1int
            } else {
                0
            }));
        }
    }

    /// Copying the current counts at a peak keeps the state's invariant.
    pub proof fn lemma_check_for_global_peak_wf(self)
        requires
            self.wf(),
        ensures
            self.check_for_global_peak().wf(),
    {
        lemma_same_stacks(self, self.check_for_global_peak());
    }

    /// Working out the marks for trimming keeps the state's invariant.
    pub proof fn lemma_with_frames_to_trim_wf(self, stack: Seq<usize>)
        requires
            self.wf(),
        ensures
            self.with_frames_to_trim(stack).wf(),
    {
        lemma_same_stacks(self, self.with_frames_to_trim(stack));
    }

    /// Counting an ad hoc event keeps the state's invariant.
    pub proof fn lemma_on_ad_hoc_event_wf(self, stack: Seq<usize>, weight: usize)
        requires
            self.wf(),
            self.heap is None,
            self.has_room(weight),
        ensures
            self.on_ad_hoc_event(stack, weight).wf(),
    {
        let bt = self.backtrace_of(stack);
        let g = self.with_frames_to_trim(stack);
        let g1 = g.get_pp_info(bt, PpInfo::zero(false));
        lemma_same_stacks(self, g);
        lemma_get_pp_info_stacks(g, bt, PpInfo::zero(false));
        lemma_same_stacks(g1, self.on_ad_hoc_event(stack, weight));
    }
}

impl Globals {
    /// Captures the backtrace of the full call stack `stack` according to
    /// this state's settings. The first backtrace of a run is also what the
    /// marks for trimming are worked out from.
    pub fn new_backtrace(&mut self, stack: &Vec<usize>) -> (bt: Backtrace)
        ensures
            final(self)@ == old(self)@.with_frames_to_trim(stack@),
            bt@ == old(self)@.backtrace_of(stack@),
            bt.unresolved(),
    {
        if self.frames_to_trim.is_none() {
            // This is the first backtrace from profiling. Work out what we
            // will be trimming from the top and bottom of all backtraces. No
            // frame trimming for this backtrace.
            let nothing = TrimMap::new();
            let first = new_backtrace_inner(stack, None, &nothing);
            self.frames_to_trim = Some(first.get_frames_to_trim(&self.start_bt));
        }
        new_backtrace_inner(stack, self.trim_backtraces, self.frames_to_trim.as_ref().unwrap())
    }

    /// Gets the index of the PP for this backtrace, creating the PP as
    /// `fresh` if necessary.
    pub fn get_pp_info(&mut self, bt: Backtrace, fresh: PpInfo) -> (idx: usize)
        ensures
            final(self)@ == old(self)@.get_pp_info(bt@, fresh),
            idx == old(self)@.pp_index(bt@),
    {
        let ips = bt.ips();
        match self.backtraces.get(&ips) {
            Some(idx) => idx,
            None => {
                let idx = self.pp_infos.len();
                self.pp_infos.push(fresh);
                self.backtraces.insert(ips, idx);
                idx
            },
        }
    }

    /// Records the block of `size` bytes at `ptr` as live.
    pub fn record_block(&mut self, ptr: usize, size: usize, pp_info_idx: usize, now: u64)
        requires
            old(self)@.heap is Some,
            !old(self)@.heap->0.live_blocks.contains_key(ptr),
        ensures
            final(self)@ == old(self)@.record_block(ptr, size, pp_info_idx, now),
    {
        let mut h = self.heap.take().unwrap();
        let _ = h.live_blocks.insert(ptr, LiveBlock { pp_info_idx, allocation_instant: now });
        h.sizes = Ghost(h.sizes@.insert(ptr, size));
        self.heap = Some(h);
    }

    /// Counts one more block of `size` bytes against the PP `pp_info_idx` and
    /// the whole heap.
    pub fn update_counts_for_alloc(
        &mut self,
        pp_info_idx: usize,
        size: usize,
        delta: Option<Delta>,
        now: u64,
    )
        requires
            old(self)@.heap is Some,
            pp_info_idx < old(self)@.pp_infos.len(),
            old(self)@.pp_infos[pp_info_idx as int].wf(),
            old(self)@.pp_infos[pp_info_idx as int].alloc_fits(size, delta),
            old(self)@.total_blocks < u64::MAX,
            old(self)@.total_bytes + size <= u64::MAX,
            match delta {
                Some(d) => 0 <= old(self)@.heap->0.curr_bytes + d.signed() <= usize::MAX,
                None => old(self)@.heap->0.curr_blocks < usize::MAX && old(
                    self,
                )@.heap->0.curr_bytes + size <= usize::MAX,
            },
        ensures
            final(self)@ == old(self)@.update_counts_for_alloc(pp_info_idx, size, delta, now),
    {
        self.total_blocks += 1;
        self.total_bytes += size as u64;

        let mut h = self.heap.take().unwrap();
        if let Some(delta) = delta {
            // realloc: the number of blocks is unchanged
            h.curr_bytes = delta.apply(h.curr_bytes);
        } else {
            // alloc
            h.curr_blocks += 1;
            h.curr_bytes += size;
        }

        // The use of `>=` not `>` means that if there are multiple equal peaks
        // we record the latest one, like `check_for_global_peak` does.
        if h.curr_bytes >= h.max_bytes {
            h.max_blocks = h.curr_blocks;
            h.max_bytes = h.curr_bytes;
            h.tgmax_instant = now;
        }
        self.heap = Some(h);

        let mut pp = self.pp_infos[pp_info_idx];
        pp.update_counts_for_alloc(size, delta);
        self.pp_infos.set(pp_info_idx, pp);
    }

    /// Takes one freed block of `size` bytes off the current counts of the PP
    /// `pp_info_idx` and of the whole heap.
    pub fn update_counts_for_dealloc(&mut self, pp_info_idx: usize, size: usize, alloc_duration: u64)
        requires
            old(self)@.heap is Some,
            old(self)@.heap->0.curr_blocks >= 1,
            old(self)@.heap->0.curr_bytes >= size,
            pp_info_idx < old(self)@.pp_infos.len(),
            old(self)@.pp_infos[pp_info_idx as int].wf(),
            old(self)@.pp_infos[pp_info_idx as int].heap is Some,
            old(self)@.pp_infos[pp_info_idx as int].heap->0.curr_blocks >= 1,
            old(self)@.pp_infos[pp_info_idx as int].heap->0.curr_bytes >= size,
        ensures
            final(self)@ == old(self)@.update_counts_for_dealloc(pp_info_idx, size, alloc_duration),
    {
        let mut h = self.heap.take().unwrap();
        h.curr_blocks -= 1;
        h.curr_bytes -= size;
        self.heap = Some(h);

        let mut pp = self.pp_infos[pp_info_idx];
        pp.update_counts_for_dealloc(size, alloc_duration);
        self.pp_infos.set(pp_info_idx, pp);
    }

    /// Counts one more ad hoc event of the given weight against the PP
    /// `pp_info_idx` and the whole run.
    pub fn update_counts_for_ad_hoc_event(&mut self, pp_info_idx: usize, weight: usize)
        requires
            old(self)@.heap is None,
            pp_info_idx < old(self)@.pp_infos.len(),
            old(self)@.pp_infos[pp_info_idx as int].heap is None,
            old(self)@.pp_infos[pp_info_idx as int].total_blocks < u64::MAX,
            old(self)@.pp_infos[pp_info_idx as int].total_bytes + weight <= u64::MAX,
            old(self)@.total_blocks < u64::MAX,
            old(self)@.total_bytes + weight <= u64::MAX,
        ensures
            final(self)@ == old(self)@.update_counts_for_ad_hoc_event(pp_info_idx, weight),
    {
        self.total_blocks += 1;
        self.total_bytes += weight as u64;

        let mut pp = self.pp_infos[pp_info_idx];
        pp.update_counts_for_ad_hoc_event(weight);
        self.pp_infos.set(pp_info_idx, pp);
    }

    /// If we are at peak memory, updates `at_tgmax_{blocks,bytes}` in every
    /// PP. This is somewhat expensive, so it is not done on every allocation
    /// but upon a deallocation (when we might be coming down from a global
    /// peak) and at termination (when we might be at a global peak).
    pub fn check_for_global_peak(&mut self)
        ensures
            final(self)@ == old(self)@.check_for_global_peak(),
    {
        let at_peak = match &self.heap {
            Some(h) => h.curr_bytes == h.max_bytes,
            None => false,
        };
        if at_peak {
            // It's a peak. (If there are multiple equal peaks we record the
            // latest one.) Record it in every PP.
            let ghost before = self.pp_infos@;
            let ghost g = self@;
            let n = self.pp_infos.len();
            let mut i: usize = 0;
            while i < n
                invariant
                    0 <= i <= n,
                    n == before.len(),
                    self.pp_infos@.len() == n,
                    forall|j: int|
                        0 <= j < i ==> #[trigger] self.pp_infos@[j] == g.check_for_global_peak().pp_infos[j],
                    forall|j: int| i <= j < n ==> #[trigger] self.pp_infos@[j] == before[j],
                    before == g.pp_infos,
                    g.at_global_peak(),
                    self@ == (GlobalsView { pp_infos: self.pp_infos@, ..g }),
                decreases n - i,
            {
                let mut pp = self.pp_infos[i];
                if let Some(mut h) = pp.heap {
                    h.at_tgmax_blocks = h.curr_blocks;
                    h.at_tgmax_bytes = h.curr_bytes;
                    pp.heap = Some(h);
                }
                self.pp_infos.set(i, pp);
                i += 1;
            }
        }
    }

    /// The current heap stats; during ad hoc profiling there are none.
    pub fn get_heap_stats(&self) -> (r: Result<HeapStats, LifecycleError>)
        ensures
            r == (if self@.heap is Some {
                Ok::<HeapStats, LifecycleError>(self@.heap_stats())
            } else {
                Err(LifecycleError::HeapStatsWhileAdHoc)
            }),
    {
        match &self.heap {
            Some(heap) => Ok(
                HeapStats {
                    total_blocks: self.total_blocks,
                    total_bytes: self.total_bytes,
                    curr_blocks: heap.curr_blocks,
                    curr_bytes: heap.curr_bytes,
                    max_blocks: heap.max_blocks,
                    max_bytes: heap.max_bytes,
                },
            ),
            None => Err(LifecycleError::HeapStatsWhileAdHoc),
        }
    }

    /// The current ad hoc stats; during heap profiling there are none.
    pub fn get_ad_hoc_stats(&self) -> (r: Result<AdHocStats, LifecycleError>)
        ensures
            r == (if self@.heap is None {
                Ok::<AdHocStats, LifecycleError>(self@.ad_hoc_stats())
            } else {
                Err(LifecycleError::AdHocStatsWhileHeap)
            }),
    {
        match &self.heap {
            None => Ok(AdHocStats { total_events: self.total_blocks, total_units: self.total_bytes }),
            Some(_) => Err(LifecycleError::AdHocStatsWhileHeap),
        }
    }

    /// Records that a block of `size` bytes has been allocated at `ptr`, at the
    /// time `now`, with `stack` the full call stack of the allocation.
    pub fn on_alloc(&mut self, ptr: usize, size: usize, stack: &Vec<usize>, now: u64)
        requires
            old(self)@.wf(),
            old(self)@.heap is Some,
            old(self)@.has_room(size),
            !old(self)@.heap->0.live_blocks.contains_key(ptr),
        ensures
            final(self)@ == old(self)@.on_alloc(ptr, size, stack@, now),
            final(self)@.wf(),
    {
        let bt = self.new_backtrace(stack);
        proof {
            old(self)@.lemma_with_frames_to_trim_wf(stack@);
            self@.lemma_count_alloc_wf(bt@, ptr, size, now);
        }
        let pp_info_idx = self.get_pp_info(bt, PpInfo::new_heap());
        self.record_block(ptr, size, pp_info_idx, now);
        self.update_counts_for_alloc(pp_info_idx, size, None, now);
    }

    /// Records that the block of `old_size` bytes at `old_ptr` has become a
    /// block of `new_size` bytes at `new_ptr`. A block that is not recorded as
    /// live must have been allocated before profiling began, and counts as
    /// freshly allocated.
    pub fn on_realloc(
        &mut self,
        old_ptr: usize,
        old_size: usize,
        new_ptr: usize,
        new_size: usize,
        stack: &Vec<usize>,
        now: u64,
    )
        requires
            old(self)@.wf(),
            old(self)@.heap is Some,
            old(self)@.can_realloc(old_ptr, old_size, new_ptr, new_size),
        ensures
            final(self)@ == old(self)@.on_realloc(old_ptr, old_size, new_ptr, new_size, stack@, now),
            final(self)@.wf(),
    {
        let delta = Delta::new(old_size, new_size);
        proof {
            self@.lemma_check_for_global_peak_wf();
        }
        if delta.shrinking {
            // Total bytes is coming down from a possible peak.
            self.check_for_global_peak();
        }
        let ghost g = self@;

        // Remove the record of the existing live block and get its PP.
        let mut h = self.heap.take().unwrap();
        let live_block = h.live_blocks.remove(old_ptr);
        match live_block {
            Some(live_block) => {
                proof {
                    g.lemma_count_realloc_wf(old_ptr, old_size, new_ptr, new_size, now);
                }
                h.sizes = Ghost(h.sizes@.remove(old_ptr));
                self.heap = Some(h);
                self.record_block(new_ptr, new_size, live_block.pp_info_idx, now);
                self.update_counts_for_alloc(live_block.pp_info_idx, new_size, Some(delta), now);
            },
            None => {
                self.heap = Some(h);
                assert(self@ =~~= g);
                self.on_alloc(new_ptr, new_size, stack, now);
            },
        }
    }

    /// Records that the block of `size` bytes at `ptr` has been freed at the
    /// time `now`. A block that is not recorded as live must have been
    /// allocated before profiling began, and is ignored.
    pub fn on_dealloc(&mut self, ptr: usize, size: usize, now: u64)
        requires
            old(self)@.wf(),
            old(self)@.heap is Some,
            old(self)@.can_dealloc(ptr, size),
        ensures
            final(self)@ == old(self)@.on_dealloc(ptr, size, now),
            final(self)@.wf(),
    {
        let ghost g = self@;
        let mut h = self.heap.take().unwrap();
        let live_block = h.live_blocks.remove(ptr);
        match live_block {
            Some(LiveBlock { pp_info_idx, allocation_instant }) => {
                proof {
                    g.lemma_count_dealloc_wf(ptr, size, now);
                }
                h.sizes = Ghost(h.sizes@.remove(ptr));
                self.heap = Some(h);

                // Total bytes is coming down from a possible peak.
                self.check_for_global_peak();

                let alloc_duration = if now >= allocation_instant {
                    now - allocation_instant
                } else {
                    0
                };
                self.update_counts_for_dealloc(pp_info_idx, size, alloc_duration);
            },
            None => {
                self.heap = Some(h);
                assert(self@ =~~= g);
            },
        }
    }

    /// Records an ad hoc event of the given weight, with `stack` the full call
    /// stack of the event.
    pub fn on_ad_hoc_event(&mut self, stack: &Vec<usize>, weight: usize)
        requires
            old(self)@.wf(),
            old(self)@.heap is None,
            old(self)@.has_room(weight),
        ensures
            final(self)@ == old(self)@.on_ad_hoc_event(stack@, weight),
            final(self)@.wf(),
    {
        proof {
            self@.lemma_on_ad_hoc_event_wf(stack@, weight);
        }
        let bt = self.new_backtrace(stack);
        let pp_info_idx = self.get_pp_info(bt, PpInfo::new_ad_hoc());
        self.update_counts_for_ad_hoc_event(pp_info_idx, weight);
    }

    /// Whether one more block or event of `size` bytes or units can be
    /// counted within the machine's integers.
    pub fn has_room(&self, size: usize) -> (b: bool)
        ensures
            b == self@.has_room(size),
    {
        self.total_blocks < u64::MAX && size as u64 <= u64::MAX - self.total_bytes
            && self.pp_infos.len() < usize::MAX && match &self.heap {
            Some(h) => h.curr_blocks < usize::MAX && size <= usize::MAX - h.curr_bytes,
            None => true,
        }
    }

    /// Whether the reallocation of the block of `old_size` bytes at `old_ptr`
    /// to `new_size` bytes at `new_ptr` can be counted, as far as can be
    /// tested: that `old_size` is the size the block has is the allocator's
    /// to keep.
    pub fn realloc_fits(&self, old_ptr: usize, old_size: usize, new_ptr: usize, new_size: usize) -> (b:
        bool)
        requires
            self@.heap is Some,
        ensures
            b == self@.realloc_fits(old_ptr, old_size, new_ptr, new_size),
    {
        if self.is_live(old_ptr) {
            let curr_bytes = match &self.heap {
                Some(h) => h.curr_bytes,
                None => 0,
            };
            (new_ptr == old_ptr || !self.is_live(new_ptr)) && self.total_blocks < u64::MAX
                && new_size as u64 <= u64::MAX - self.total_bytes && curr_bytes as u128
                + new_size as u128 <= usize::MAX as u128 + old_size as u128
        } else {
            !self.is_live(new_ptr) && self.has_room(new_size)
        }
    }

    /// Whether a block is recorded as live at `ptr`. During ad hoc profiling
    /// none is.
    pub fn is_live(&self, ptr: usize) -> (b: bool)
        ensures
            b == (self@.heap matches Some(h) && h.live_blocks.contains_key(ptr)),
    {
        match &self.heap {
            Some(h) => h.live_blocks.contains_key(ptr),
            None => false,
        }
    }

    /// The number of blocks recorded as live; 0 during ad hoc profiling.
    pub fn live_block_count(&self) -> (n: usize)
        ensures
            n == (match self@.heap {
                Some(h) => h.live_blocks.dom().len(),
                None => 0,
            }),
    {
        match &self.heap {
            Some(h) => h.live_blocks.len(),
            None => 0,
        }
    }

    /// The number of call stacks that have a PP.
    pub fn backtrace_count(&self) -> (n: usize)
        ensures
            n == self@.backtraces.dom().len(),
    {
        self.backtraces.len()
    }
}

} // verus!
