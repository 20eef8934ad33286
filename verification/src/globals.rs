//! The state of a running profiler and the statistics engine that updates it.

use crate::backtrace::{captured, frames_to_trim, Backtrace};
use crate::maps::{
    backtrace_map_of, live_blocks_of, trim_map_of, BacktraceMap, LiveBlock, LiveBlocks, TrimMap,
    TB,
};
use crate::pp::{Counts, Delta, PpInfo};
use crate::sums::{
    lemma_sum_all_change, lemma_sum_all_le, lemma_sum_all_member, lemma_sum_all_of_indicator,
    sum_all,
};
use vstd::prelude::*;

verus! {

/// The size of the live block at `a`; 0 if there is none.
pub open spec fn bytes_at(live: Map<usize, LiveBlock>, sizes: Map<usize, usize>, a: usize) -> nat {
    if live.contains_key(a) {
        sizes[a] as nat
    } else {
        0
    }
}

/// The size of the live block at `a` if the PP `pp` allocated it; 0 otherwise.
pub open spec fn pp_bytes_at(
    live: Map<usize, LiveBlock>,
    sizes: Map<usize, usize>,
    pp: usize,
    a: usize,
) -> nat {
    if live.contains_key(a) && live[a].pp_info_idx == pp {
        sizes[a] as nat
    } else {
        0
    }
}

/// 1 if there is a live block at `a` that the PP `pp` allocated; 0 otherwise.
pub open spec fn pp_blocks_at(live: Map<usize, LiveBlock>, pp: usize, a: usize) -> nat {
    if live.contains_key(a) && live[a].pp_info_idx == pp {
        1
    } else {
        0
    }
}

/// Extra things kept when heap profiling, as mathematical values.
#[verifier::ext_equal]
pub struct HeapView {
    /// The live blocks, by address.
    pub live_blocks: Map<usize, LiveBlock>,
    /// The size of each live block, by address.
    pub sizes: Map<usize, usize>,
    pub curr_blocks: usize,
    pub curr_bytes: usize,
    pub max_blocks: usize,
    pub max_bytes: usize,
    pub tgmax_instant: u64,
}

impl HeapView {
    /// The record of a heap without blocks, at time `now`.
    pub open spec fn empty(now: u64) -> HeapView {
        HeapView {
            live_blocks: Map::empty(),
            sizes: Map::empty(),
            curr_blocks: 0,
            curr_bytes: 0,
            max_blocks: 0,
            max_bytes: 0,
            tgmax_instant: now,
        }
    }

    /// The four running counters of the whole heap.
    pub open spec fn counts(self) -> Counts {
        Counts {
            curr_blocks: self.curr_blocks as int,
            curr_bytes: self.curr_bytes as int,
            max_blocks: self.max_blocks as int,
            max_bytes: self.max_bytes as int,
        }
    }

    /// The sum of the sizes of the live blocks.
    pub open spec fn live_bytes(self) -> nat {
        sum_all(|a: usize| bytes_at(self.live_blocks, self.sizes, a))
    }

    /// The sum of the sizes of the live blocks that the PP `pp` allocated.
    pub open spec fn pp_live_bytes(self, pp: usize) -> nat {
        sum_all(|a: usize| pp_bytes_at(self.live_blocks, self.sizes, pp, a))
    }

    /// The number of live blocks that the PP `pp` allocated.
    pub open spec fn pp_live_blocks(self, pp: usize) -> nat {
        sum_all(|a: usize| pp_blocks_at(self.live_blocks, pp, a))
    }

    /// This record with a block of `size` bytes recorded at `ptr`.
    pub open spec fn insert_block(self, ptr: usize, block: LiveBlock, size: usize) -> HeapView {
        HeapView {
            live_blocks: self.live_blocks.insert(ptr, block),
            sizes: self.sizes.insert(ptr, size),
            ..self
        }
    }

    /// This record without a block at `ptr`.
    pub open spec fn remove_block(self, ptr: usize) -> HeapView {
        HeapView {
            live_blocks: self.live_blocks.remove(ptr),
            sizes: self.sizes.remove(ptr),
            ..self
        }
    }

    /// This record with its four running counters replaced, and the time of
    /// the global peak set to `now` where the new counts are at a peak.
    pub open spec fn with_counts(self, c: Counts, now: u64) -> HeapView {
        HeapView {
            curr_blocks: c.curr_blocks as usize,
            curr_bytes: c.curr_bytes as usize,
            max_blocks: c.max_blocks as usize,
            max_bytes: c.max_bytes as usize,
            tgmax_instant: if c.curr_bytes >= self.max_bytes {
                now
            } else {
                self.tgmax_instant
            },
            ..self
        }
    }

    /// The heap record's invariant: the current counts are those of the live
    /// blocks, and are no more than the peak.
    pub open spec fn wf(self) -> bool {
        &&& self.live_blocks.dom().finite()
        &&& self.sizes.dom() =~= self.live_blocks.dom()
        &&& self.curr_blocks == self.live_blocks.dom().len()
        &&& self.curr_bytes == self.live_bytes()
        &&& self.curr_bytes <= self.max_bytes
    }
}

/// Recording a block at a free address adds its size to the sums it counts in.
pub proof fn lemma_insert_block(h: HeapView, ptr: usize, block: LiveBlock, size: usize)
    requires
        !h.live_blocks.contains_key(ptr),
    ensures
        h.insert_block(ptr, block, size).live_bytes() == h.live_bytes() + size,
        forall|pp: usize| #[trigger]
            h.insert_block(ptr, block, size).pp_live_bytes(pp) == h.pp_live_bytes(pp) + (if pp
                == block.pp_info_idx {
                size as int
            } else {
                0
            }),
        forall|pp: usize| #[trigger]
            h.insert_block(ptr, block, size).pp_live_blocks(pp) == h.pp_live_blocks(pp) + (if pp
                == block.pp_info_idx {
                1int
            } else {
                0
            }),
{
    let h2 = h.insert_block(ptr, block, size);
    lemma_sum_all_change(|a: usize| bytes_at(h.live_blocks, h.sizes, a), |a: usize| bytes_at(h2.live_blocks, h2.sizes, a), ptr);
    assert forall|pp: usize| #[trigger]
        h2.pp_live_bytes(pp) == h.pp_live_bytes(pp) + (if pp == block.pp_info_idx {
            size as int
        } else {
            0
        }) by {
        lemma_sum_all_change(|a: usize| pp_bytes_at(h.live_blocks, h.sizes, pp, a), |a: usize| pp_bytes_at(h2.live_blocks, h2.sizes, pp, a), ptr);
    }
    assert forall|pp: usize| #[trigger]
        h2.pp_live_blocks(pp) == h.pp_live_blocks(pp) + (if pp == block.pp_info_idx {
            1int
        } else {
            0
        }) by {
        lemma_sum_all_change(
            |a: usize| pp_blocks_at(h.live_blocks, pp, a),
            |a: usize| pp_blocks_at(h2.live_blocks, pp, a),
            ptr,
        );
    }
}

/// Forgetting a live block takes its size off the sums it counts in.
pub proof fn lemma_remove_block(h: HeapView, ptr: usize)
    requires
        h.live_blocks.contains_key(ptr),
    ensures
        h.remove_block(ptr).live_bytes() == h.live_bytes() - h.sizes[ptr],
        forall|pp: usize| #[trigger]
            h.remove_block(ptr).pp_live_bytes(pp) == h.pp_live_bytes(pp) - (if pp
                == h.live_blocks[ptr].pp_info_idx {
                h.sizes[ptr] as int
            } else {
                0
            }),
        forall|pp: usize| #[trigger]
            h.remove_block(ptr).pp_live_blocks(pp) == h.pp_live_blocks(pp) - (if pp
                == h.live_blocks[ptr].pp_info_idx {
                1int
            } else {
                0
            }),
{
    let h2 = h.remove_block(ptr);
    lemma_sum_all_change(|a: usize| bytes_at(h.live_blocks, h.sizes, a), |a: usize| bytes_at(h2.live_blocks, h2.sizes, a), ptr);
    assert forall|pp: usize| #[trigger]
        h2.pp_live_bytes(pp) == h.pp_live_bytes(pp) - (if pp == h.live_blocks[ptr].pp_info_idx {
            h.sizes[ptr] as int
        } else {
            0
        }) by {
        lemma_sum_all_change(|a: usize| pp_bytes_at(h.live_blocks, h.sizes, pp, a), |a: usize| pp_bytes_at(h2.live_blocks, h2.sizes, pp, a), ptr);
    }
    assert forall|pp: usize| #[trigger]
        h2.pp_live_blocks(pp) == h.pp_live_blocks(pp) - (if pp == h.live_blocks[ptr].pp_info_idx {
            1int
        } else {
            0
        }) by {
        lemma_sum_all_change(
            |a: usize| pp_blocks_at(h.live_blocks, pp, a),
            |a: usize| pp_blocks_at(h2.live_blocks, pp, a),
            ptr,
        );
    }
}

/// What one PP holds is no more than what the whole heap holds, and no less
/// than any one of its blocks.
pub proof fn lemma_pp_share(h: HeapView, pp: usize)
    requires
        h.live_blocks.dom().finite(),
    ensures
        h.pp_live_bytes(pp) <= h.live_bytes(),
        h.pp_live_blocks(pp) <= h.live_blocks.dom().len(),
        forall|ptr: usize|
            h.live_blocks.contains_key(ptr) && #[trigger] h.live_blocks[ptr].pp_info_idx == pp ==> {
                &&& h.sizes[ptr] <= h.pp_live_bytes(pp)
                &&& 1 <= h.pp_live_blocks(pp)
            },
{
    lemma_sum_all_le(|a: usize| pp_bytes_at(h.live_blocks, h.sizes, pp, a), |a: usize| bytes_at(h.live_blocks, h.sizes, a));
    let one_at = |a: usize|
        if h.live_blocks.dom().contains(a) {
            1nat
        } else {
            0nat
        };
    lemma_sum_all_le(|a: usize| pp_blocks_at(h.live_blocks, pp, a), one_at);
    lemma_sum_all_of_indicator(h.live_blocks.dom(), one_at);
    assert forall|ptr: usize|
        h.live_blocks.contains_key(ptr) && #[trigger] h.live_blocks[ptr].pp_info_idx == pp implies {
        &&& h.sizes[ptr] <= h.pp_live_bytes(pp)
        &&& 1 <= h.pp_live_blocks(pp)
    } by {
        lemma_sum_all_member(|a: usize| pp_bytes_at(h.live_blocks, h.sizes, pp, a), ptr);
        lemma_sum_all_member(|a: usize| pp_blocks_at(h.live_blocks, pp, a), ptr);
    }
}

/// A PP that no live block names holds nothing.
pub proof fn lemma_pp_without_blocks(h: HeapView, pp: usize)
    requires
        forall|ptr: usize|
            h.live_blocks.contains_key(ptr) ==> #[trigger] h.live_blocks[ptr].pp_info_idx != pp,
    ensures
        h.pp_live_bytes(pp) == 0,
        h.pp_live_blocks(pp) == 0,
{
    let none = Set::<usize>::empty();
    let zero = |a: usize|
        if none.contains(a) {
            1nat
        } else {
            0nat
        };
    lemma_sum_all_of_indicator(none, zero);
    lemma_sum_all_le(|a: usize| pp_bytes_at(h.live_blocks, h.sizes, pp, a), zero);
    lemma_sum_all_le(|a: usize| pp_blocks_at(h.live_blocks, pp, a), zero);
}

/// The state of a running profiler, as mathematical values.
#[verifier::ext_equal]
pub struct GlobalsView {
    pub file_name: Seq<char>,
    pub testing: bool,
    pub trim_backtraces: Option<usize>,
    pub eprint_json: bool,
    pub start_bt: Seq<usize>,
    pub frames_to_trim: Option<Map<usize, TB>>,
    pub start_instant: u64,
    pub pp_infos: Seq<PpInfo>,
    pub backtraces: Map<Seq<usize>, usize>,
    /// The call stacks that have been handed out to be resolved, each with
    /// the index of its PP.
    pub handed_out: Set<(Seq<usize>, usize)>,
    pub total_blocks: u64,
    pub total_bytes: u64,
    pub heap: Option<HeapView>,
}

/// States with the same call stacks and as many PPs agree on the invariant of
/// the call stacks.
pub proof fn lemma_same_stacks(g: GlobalsView, after: GlobalsView)
    requires
        g.stacks_wf(),
        after.backtraces == g.backtraces,
        after.handed_out == g.handed_out,
        after.pp_infos.len() == g.pp_infos.len(),
    ensures
        after.stacks_wf(),
{
    assert forall|i: int| 0 <= i < after.pp_infos.len() implies #[trigger] after.pp_has_stack(i) by {
        assert(g.pp_has_stack(i));
        let stack = choose|stack: Seq<usize>| #[trigger] g.has_stack(stack, i as usize);
        assert(after.has_stack(stack, i as usize));
    }
    assert forall|a: Seq<usize>, b: Seq<usize>, i: usize|
        #[trigger] after.has_stack(a, i) && #[trigger] after.has_stack(b, i) implies a == b by {
        assert(g.has_stack(a, i) && g.has_stack(b, i));
    }
}

/// Giving a call stack its PP keeps the invariant of the call stacks.
pub proof fn lemma_get_pp_info_stacks(g: GlobalsView, bt: Seq<usize>, fresh: PpInfo)
    requires
        g.stacks_wf(),
        g.pp_infos.len() < usize::MAX,
    ensures
        g.get_pp_info(bt, fresh).stacks_wf(),
{
    let after = g.get_pp_info(bt, fresh);
    if !g.backtraces.contains_key(bt) {
        let n = g.pp_infos.len() as usize;
        assert forall|i: int| 0 <= i < after.pp_infos.len() implies #[trigger] after.pp_has_stack(
            i,
        ) by {
            if i < n {
                assert(g.pp_has_stack(i));
                let stack = choose|stack: Seq<usize>| #[trigger] g.has_stack(stack, i as usize);
                assert(after.has_stack(stack, i as usize));
            } else {
                assert(after.has_stack(bt, i as usize));
            }
        }
        assert forall|a: Seq<usize>, b: Seq<usize>, i: usize|
            #[trigger] after.has_stack(a, i) && #[trigger] after.has_stack(b, i) implies a == b by {
            if i != n {
                assert(g.has_stack(a, i) && g.has_stack(b, i));
            }
        }
    }
}

/// The nanoseconds from `earlier` to `now`; none if `earlier` is the later one.
pub open spec fn elapsed(now: u64, earlier: u64) -> u64 {
    if now >= earlier {
        (now - earlier) as u64
    } else {
        0
    }
}

impl GlobalsView {
    /// Whether `stack` is the call stack of the PP `i`: the table holds it
    /// with that index, or it has been handed out with it.
    pub open spec fn has_stack(self, stack: Seq<usize>, i: usize) -> bool {
        self.backtraces.contains_pair(stack, i) || self.handed_out.contains((stack, i))
    }

    /// Whether the PP `i` has a call stack.
    pub open spec fn pp_has_stack(self, i: int) -> bool {
        exists|stack: Seq<usize>| #[trigger] self.has_stack(stack, i as usize)
    }

    /// The invariant of the call stacks: every stack names a PP, and every PP
    /// has one stack.
    pub open spec fn stacks_wf(self) -> bool {
        &&& forall|bt: Seq<usize>| #[trigger]
            self.backtraces.contains_key(bt) ==> self.backtraces[bt] < self.pp_infos.len()
        &&& forall|stack: (Seq<usize>, usize)| #[trigger]
            self.handed_out.contains(stack) ==> stack.1 < self.pp_infos.len()
        &&& forall|i: int| 0 <= i < self.pp_infos.len() ==> #[trigger] self.pp_has_stack(i)
        &&& forall|a: Seq<usize>, b: Seq<usize>, i: usize|
            #[trigger] self.has_stack(a, i) && #[trigger] self.has_stack(b, i) ==> a == b
    }

    /// The state's invariant.
    pub open spec fn wf(self) -> bool {
        &&& self.backtraces.dom().finite()
        &&& self.pp_infos.len() <= usize::MAX
        &&& self.stacks_wf()
        &&& forall|i: int|
            0 <= i < self.pp_infos.len() ==> {
                &&& (#[trigger] self.pp_infos[i]).wf()
                &&& self.pp_infos[i].total_blocks <= self.total_blocks
                &&& self.pp_infos[i].total_bytes <= self.total_bytes
                &&& self.pp_infos[i].heap is Some <==> self.heap is Some
            }
        &&& self.heap matches Some(h) ==> {
            &&& h.wf()
            &&& forall|ptr: usize| #[trigger]
                h.live_blocks.contains_key(ptr) ==> h.live_blocks[ptr].pp_info_idx
                    < self.pp_infos.len()
            &&& forall|i: int|
                0 <= i < self.pp_infos.len() ==> {
                    &&& (#[trigger] self.pp_infos[i]).heap->0.curr_bytes == h.pp_live_bytes(
                        i as usize,
                    )
                    &&& self.pp_infos[i].heap->0.curr_blocks == h.pp_live_blocks(i as usize)
                }
        }
    }

    /// The state with the marks for trimming in place: worked out from `stack`,
    /// the first stack taken while profiling, where they were not yet.
    pub open spec fn with_frames_to_trim(self, stack: Seq<usize>) -> GlobalsView {
        if self.frames_to_trim is Some {
            self
        } else {
            GlobalsView { frames_to_trim: Some(frames_to_trim(stack, self.start_bt)), ..self }
        }
    }

    /// What a capture keeps of the full call stack `stack`.
    pub open spec fn backtrace_of(self, stack: Seq<usize>) -> Seq<usize> {
        captured(stack, self.trim_backtraces, self.with_frames_to_trim(stack).frames_to_trim->0)
    }

    /// The index of the PP of the stack `bt`.
    pub open spec fn pp_index(self, bt: Seq<usize>) -> usize {
        if self.backtraces.contains_key(bt) {
            self.backtraces[bt]
        } else {
            self.pp_infos.len() as usize
        }
    }

    /// The state once the stack `bt` has a PP: unchanged where it had one,
    /// with `fresh` appended to the PPs and `bt` mapped to it where not.
    pub open spec fn get_pp_info(self, bt: Seq<usize>, fresh: PpInfo) -> GlobalsView {
        if self.backtraces.contains_key(bt) {
            self
        } else {
            GlobalsView {
                pp_infos: self.pp_infos.push(fresh),
                backtraces: self.backtraces.insert(bt, self.pp_infos.len() as usize),
                ..self
            }
        }
    }

    /// The state with a block of `size` bytes, allocated by the PP
    /// `pp_info_idx` at the time `now`, recorded as live at `ptr`.
    pub open spec fn record_block(self, ptr: usize, size: usize, pp_info_idx: usize, now: u64)
        -> GlobalsView {
        GlobalsView {
            heap: Some(
                self.heap->0.insert_block(
                    ptr,
                    LiveBlock { pp_info_idx, allocation_instant: now },
                    size,
                ),
            ),
            ..self
        }
    }

    /// The state without a live block at `ptr`.
    pub open spec fn forget_block(self, ptr: usize) -> GlobalsView {
        GlobalsView { heap: Some(self.heap->0.remove_block(ptr)), ..self }
    }

    /// The state with one more block of `size` bytes counted against the PP
    /// `pp_info_idx` and the whole heap: a fresh block where `delta` is `None`,
    /// a block resized by `delta` where it is not.
    pub open spec fn update_counts_for_alloc(
        self,
        pp_info_idx: usize,
        size: usize,
        delta: Option<Delta>,
        now: u64,
    ) -> GlobalsView {
        let h = self.heap->0;
        let c = match delta {
            Some(d) => h.counts().grow(0, d.signed()),
            None => h.counts().grow(1, size as int),
        };
        GlobalsView {
            total_blocks: (self.total_blocks + 1) as u64,
            total_bytes: (self.total_bytes + size) as u64,
            heap: Some(h.with_counts(c, now)),
            pp_infos: self.pp_infos.update(
                pp_info_idx as int,
                self.pp_infos[pp_info_idx as int].after_alloc(size, delta),
            ),
            ..self
        }
    }

    /// The state with one block of `size` bytes, alive for `alloc_duration`
    /// nanoseconds, taken off the current counts of the PP `pp_info_idx` and
    /// of the whole heap.
    pub open spec fn update_counts_for_dealloc(
        self,
        pp_info_idx: usize,
        size: usize,
        alloc_duration: u64,
    ) -> GlobalsView {
        let h = self.heap->0;
        GlobalsView {
            heap: Some(
                HeapView {
                    curr_blocks: (h.curr_blocks - 1) as usize,
                    curr_bytes: (h.curr_bytes - size) as usize,
                    ..h
                },
            ),
            pp_infos: self.pp_infos.update(
                pp_info_idx as int,
                self.pp_infos[pp_info_idx as int].after_dealloc(size, alloc_duration),
            ),
            ..self
        }
    }

    /// The state with one more ad hoc event of the given weight counted
    /// against the PP `pp_info_idx` and the whole run.
    pub open spec fn update_counts_for_ad_hoc_event(self, pp_info_idx: usize, weight: usize)
        -> GlobalsView {
        GlobalsView {
            total_blocks: (self.total_blocks + 1) as u64,
            total_bytes: (self.total_bytes + weight) as u64,
            pp_infos: self.pp_infos.update(
                pp_info_idx as int,
                self.pp_infos[pp_info_idx as int].after_ad_hoc_event(weight),
            ),
            ..self
        }
    }

    /// Whether the heap is at its global peak.
    pub open spec fn at_global_peak(self) -> bool {
        self.heap matches Some(h) && h.curr_bytes == h.max_bytes
    }

    /// The state with, where the heap is at its global peak, the current
    /// counts of every PP copied into its at-global-max counts.
    pub open spec fn check_for_global_peak(self) -> GlobalsView {
        if self.at_global_peak() {
            GlobalsView {
                pp_infos: self.pp_infos.map_values(
                    |pp: PpInfo|
                        if pp.heap is Some {
                            PpInfo { heap: Some(pp.heap->0.snapshot()), ..pp }
                        } else {
                            pp
                        },
                ),
                ..self
            }
        } else {
            self
        }
    }

    /// The state after a block of `size` bytes has been allocated at `ptr`, at
    /// the time `now`, with `stack` the full call stack of the allocation.
    pub open spec fn on_alloc(self, ptr: usize, size: usize, stack: Seq<usize>, now: u64)
        -> GlobalsView {
        let bt = self.backtrace_of(stack);
        let g = self.with_frames_to_trim(stack);
        let idx = g.pp_index(bt);
        g.get_pp_info(bt, PpInfo::zero(true)).record_block(
            ptr,
            size,
            idx,
            now,
        ).update_counts_for_alloc(idx, size, None, now)
    }

    /// The state after the block of `old_size` bytes at `old_ptr` has become a
    /// block of `new_size` bytes at `new_ptr`. A block that was not recorded as
    /// live counts as freshly allocated.
    pub open spec fn on_realloc(
        self,
        old_ptr: usize,
        old_size: usize,
        new_ptr: usize,
        new_size: usize,
        stack: Seq<usize>,
        now: u64,
    ) -> GlobalsView {
        let g = if new_size < old_size {
            self.check_for_global_peak()
        } else {
            self
        };
        let live = g.heap->0.live_blocks;
        if live.contains_key(old_ptr) {
            let idx = live[old_ptr].pp_info_idx;
            g.forget_block(old_ptr).record_block(new_ptr, new_size, idx, now).update_counts_for_alloc(
                idx,
                new_size,
                Some(
                    Delta {
                        shrinking: new_size < old_size,
                        size: if new_size < old_size {
                            (old_size - new_size) as usize
                        } else {
                            (new_size - old_size) as usize
                        },
                    },
                ),
                now,
            )
        } else {
            g.on_alloc(new_ptr, new_size, stack, now)
        }
    }

    /// The state after the block of `size` bytes at `ptr` has been freed at the
    /// time `now`. A block that was not recorded as live changes nothing.
    pub open spec fn on_dealloc(self, ptr: usize, size: usize, now: u64) -> GlobalsView {
        let live = self.heap->0.live_blocks;
        if live.contains_key(ptr) {
            self.forget_block(ptr).check_for_global_peak().update_counts_for_dealloc(
                live[ptr].pp_info_idx,
                size,
                elapsed(now, live[ptr].allocation_instant),
            )
        } else {
            self
        }
    }

    /// The state after an ad hoc event of the given weight, with `stack` the
    /// full call stack of the event.
    pub open spec fn on_ad_hoc_event(self, stack: Seq<usize>, weight: usize) -> GlobalsView {
        let bt = self.backtrace_of(stack);
        let g = self.with_frames_to_trim(stack);
        g.get_pp_info(bt, PpInfo::zero(false)).update_counts_for_ad_hoc_event(g.pp_index(bt), weight)
    }

    /// Whether one more block or event of `size` bytes or units can be counted
    /// within the machine's integers.
    pub open spec fn has_room(self, size: usize) -> bool {
        &&& self.total_blocks < u64::MAX
        &&& self.total_bytes + size <= u64::MAX
        &&& self.pp_infos.len() < usize::MAX
        &&& self.heap matches Some(h) ==> h.curr_blocks < usize::MAX && h.curr_bytes + size
            <= usize::MAX
    }
}

/// Extra things kept when heap profiling.
pub struct HeapGlobals {
    /// Each live block, by its address. An entry leaves when the block is freed.
    pub live_blocks: LiveBlocks,
    /// Current counts.
    pub curr_blocks: usize,
    pub curr_bytes: usize,
    /// Counts at the global max, i.e. when `curr_bytes` peaks.
    pub max_blocks: usize,
    pub max_bytes: usize,
    /// Time of the global max, in nanoseconds.
    pub tgmax_instant: u64,
    /// The size of each live block, as the allocator knows it.
    pub sizes: Ghost<Map<usize, usize>>,
}

impl View for HeapGlobals {
    type V = HeapView;

    open spec fn view(&self) -> HeapView {
        HeapView {
            live_blocks: live_blocks_of(self.live_blocks),
            sizes: self.sizes@,
            curr_blocks: self.curr_blocks,
            curr_bytes: self.curr_bytes,
            max_blocks: self.max_blocks,
            max_bytes: self.max_bytes,
            tgmax_instant: self.tgmax_instant,
        }
    }
}

impl HeapGlobals {
    /// The record of a heap without blocks, at the time `now`.
    pub fn new(now: u64) -> (h: HeapGlobals)
        ensures
            h@ == HeapView::empty(now),
    {
        HeapGlobals {
            live_blocks: LiveBlocks::new(),
            curr_blocks: 0,
            curr_bytes: 0,
            max_blocks: 0,
            max_bytes: 0,
            tgmax_instant: now,
            sizes: Ghost(Map::empty()),
        }
    }
}

/// The state of a running profiler.
pub struct Globals {
    /// The file name for the saved data.
    pub file_name: String,
    /// Are we in testing mode?
    pub testing: bool,
    /// How should we trim backtraces?
    pub trim_backtraces: Option<usize>,
    /// Print the JSON to stderr when saving it?
    pub eprint_json: bool,
    /// The backtrace at startup. Used for backtrace trimming.
    pub start_bt: Backtrace,
    /// Frames to trim at the top and bottom of backtraces. Computed once the
    /// first backtrace is obtained during profiling; that backtrace is then
    /// compared to `start_bt`.
    pub frames_to_trim: Option<TrimMap>,
    /// When the profiler was created, in nanoseconds.
    pub start_instant: u64,
    /// All the PPs gathered during execution. Elements are never deleted.
    /// Each is referred to by one entry of `backtraces` and by any number of
    /// live blocks, always by its index.
    pub pp_infos: Vec<PpInfo>,
    /// The index into `pp_infos` of each call stack. Entries are not deleted
    /// during execution.
    pub backtraces: BacktraceMap,
    /// The call stacks that have been handed out to be resolved, each with
    /// the index of its PP.
    pub handed_out: Ghost<Set<(Seq<usize>, usize)>>,
    /// Counts for the entire run. For ad hoc profiling these are events and
    /// units.
    pub total_blocks: u64,
    pub total_bytes: u64,
    /// Extra things kept when heap profiling.
    pub heap: Option<HeapGlobals>,
}

impl View for Globals {
    type V = GlobalsView;

    open spec fn view(&self) -> GlobalsView {
        GlobalsView {
            file_name: self.file_name@,
            testing: self.testing,
            trim_backtraces: self.trim_backtraces,
            eprint_json: self.eprint_json,
            start_bt: self.start_bt@,
            frames_to_trim: match self.frames_to_trim {
                Some(m) => Some(trim_map_of(m)),
                None => None,
            },
            start_instant: self.start_instant,
            pp_infos: self.pp_infos@,
            backtraces: backtrace_map_of(self.backtraces),
            handed_out: self.handed_out@,
            total_blocks: self.total_blocks,
            total_bytes: self.total_bytes,
            heap: match self.heap {
                Some(h) => Some(h@),
                None => None,
            },
        }
    }
}

impl Globals {
    /// The state of a profiler that starts at the time `start_instant`, with
    /// `start_bt` the untrimmed stack at startup.
    pub fn new(
        testing: bool,
        file_name: String,
        trim_backtraces: Option<usize>,
        eprint_json: bool,
        heap: Option<HeapGlobals>,
        start_bt: Backtrace,
        start_instant: u64,
    ) -> (g: Globals)
        ensures
            g@ == (GlobalsView {
                file_name: file_name@,
                testing,
                trim_backtraces,
                eprint_json,
                start_bt: start_bt@,
                frames_to_trim: None,
                start_instant,
                pp_infos: Seq::empty(),
                backtraces: Map::empty(),
                handed_out: Set::empty(),
                total_blocks: 0,
                total_bytes: 0,
                heap: match heap {
                    Some(h) => Some(h@),
                    None => None,
                },
            }),
    {
        Globals {
            testing,
            file_name,
            trim_backtraces,
            eprint_json,
            start_bt,
            frames_to_trim: None,
            start_instant,
            pp_infos: Vec::new(),
            backtraces: BacktraceMap::new(),
            handed_out: Ghost(Set::empty()),
            total_blocks: 0,
            total_bytes: 0,
            heap,
        }
    }
}

} // verus!
