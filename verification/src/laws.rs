//! What holds of the profiler whatever it is given: each law is stated over
//! the same functions that the contracts of the operations use, and proved.

use crate::backtrace::{
    bottom_from, captured, frame_limit, is_bottom, is_top, lemma_bottom_from_bounds,
};
use crate::frames::intern_all;
use crate::globals::{bytes_at, elapsed, GlobalsView};
use crate::maps::{LiveBlock, TB};
use crate::pp::{Counts, PpInfo};
use crate::sums::sum_all;
use vstd::prelude::*;

verus! {

/// The current counts are those of the live blocks: in every well-formed
/// state of a heap profiler, `curr_bytes` is the sum of the sizes of the live
/// blocks and `curr_blocks` is their number, and so it is for each PP.
pub proof fn law_current_counts_are_of_live_blocks(g: GlobalsView)
    requires
        g.wf(),
        g.heap is Some,
    ensures
        g.heap->0.curr_bytes == sum_all(
            |a: usize| bytes_at(g.heap->0.live_blocks, g.heap->0.sizes, a),
        ),
        g.heap->0.curr_blocks == g.heap->0.live_blocks.dom().len(),
        forall|i: int|
            0 <= i < g.pp_infos.len() ==> (#[trigger] g.pp_infos[i]).heap->0.curr_bytes
                == g.heap->0.pp_live_bytes(i as usize) && g.pp_infos[i].heap->0.curr_blocks
                == g.heap->0.pp_live_blocks(i as usize),
{
}

/// In every well-formed state, each PP has allocated in total no less than
/// it held at its peak, and held at its peak no less than it holds now; and
/// the heap as a whole held at its peak no less than it holds now.
pub proof fn law_totals_bound_peaks(g: GlobalsView, i: int)
    requires
        g.wf(),
        g.heap is Some,
        0 <= i < g.pp_infos.len(),
    ensures
        g.pp_infos[i].total_bytes >= g.pp_infos[i].heap->0.max_bytes
            >= g.pp_infos[i].heap->0.curr_bytes,
        g.heap->0.max_bytes >= g.heap->0.curr_bytes,
{
}

/// Capturing the same call stack twice gives the same PP: the stack of an
/// allocation that has been recorded has, from then on, the index that the
/// allocation was counted against, and looking it up again changes nothing.
pub proof fn law_same_stack_same_pp(
    g: GlobalsView,
    ptr: usize,
    size: usize,
    stack: Seq<usize>,
    now: u64,
)
    requires
        g.heap is Some,
    ensures
        ({
            let after = g.on_alloc(ptr, size, stack, now);
            &&& after.backtrace_of(stack) == g.backtrace_of(stack)
            &&& after.pp_index(after.backtrace_of(stack)) == g.with_frames_to_trim(stack).pp_index(
                g.backtrace_of(stack),
            )
            &&& after.with_frames_to_trim(stack).get_pp_info(
                after.backtrace_of(stack),
                PpInfo::zero(true),
            ) == after
        }),
{
}

/// What the four running counters see of one event.
pub enum CountedEvent {
    /// A block of `size` bytes was allocated.
    Alloc { size: nat },
    /// A live block of `old_size` bytes now has `new_size` bytes.
    Realloc { old_size: nat, new_size: nat },
    /// A live block of `size` bytes was freed.
    Dealloc { size: nat },
}

impl Counts {
    /// The counts of a heap without blocks.
    pub open spec fn zero() -> Counts {
        Counts { curr_blocks: 0, curr_bytes: 0, max_blocks: 0, max_bytes: 0 }
    }

    /// The counts after one event.
    pub open spec fn step(self, event: CountedEvent) -> Counts {
        match event {
            CountedEvent::Alloc { size } => self.after_alloc(size as int),
            CountedEvent::Realloc { old_size, new_size } => self.after_realloc(
                old_size as int,
                new_size as int,
            ),
            CountedEvent::Dealloc { size } => self.after_dealloc(size as int),
        }
    }

    /// The counts after the events `events`, from a heap without blocks.
    pub open spec fn replay(events: Seq<CountedEvent>) -> Counts
        decreases events.len(),
    {
        if events.len() == 0 {
            Counts::zero()
        } else {
            Counts::replay(events.drop_last()).step(events.last())
        }
    }
}

/// The current bytes never pass the peak, and the peak never comes down.
proof fn lemma_replay_bounds(events: Seq<CountedEvent>)
    ensures
        Counts::replay(events).curr_bytes <= Counts::replay(events).max_bytes,
        events.len() > 0 ==> Counts::replay(events.drop_last()).max_bytes <= Counts::replay(
            events,
        ).max_bytes,
    decreases events.len(),
{
    if events.len() > 0 {
        lemma_replay_bounds(events.drop_last());
    }
}

/// The global peak is the largest number of current bytes that there has
/// been: after every sequence of events, whatever their sizes, `max_bytes` is
/// the maximum of `curr_bytes` over the prefixes of the sequence.
pub proof fn law_max_bytes_is_peak(events: Seq<CountedEvent>)
    ensures
        forall|i: int|
            0 <= i <= events.len() ==> Counts::replay(#[trigger] events.take(i)).curr_bytes
                <= Counts::replay(events).max_bytes,
        exists|i: int|
            0 <= i <= events.len() && Counts::replay(#[trigger] events.take(i)).curr_bytes
                == Counts::replay(events).max_bytes,
    decreases events.len(),
{
    let last = Counts::replay(events);
    lemma_replay_bounds(events);
    assert(events.take(events.len() as int) =~= events);
    if events.len() > 0 {
        let before = events.drop_last();
        law_max_bytes_is_peak(before);
        assert forall|i: int| 0 <= i <= events.len() implies Counts::replay(
            #[trigger] events.take(i),
        ).curr_bytes <= last.max_bytes by {
            if i < events.len() {
                assert(events.take(i) =~= before.take(i));
            }
        }
        if last.max_bytes != last.curr_bytes {
            let i = choose|i: int|
                0 <= i <= before.len() && Counts::replay(#[trigger] before.take(i)).curr_bytes
                    == Counts::replay(before).max_bytes;
            assert(events.take(i) =~= before.take(i));
        }
    } else {
        assert forall|i: int| 0 <= i <= events.len() implies Counts::replay(
            #[trigger] events.take(i),
        ).curr_bytes <= last.max_bytes by {
            assert(events.take(i) =~= events);
        }
    }
}

/// Ties on the global peak resolve to the latest state: after every sequence
/// of events in which no block of 0 bytes is freed, `max_blocks` is the number
/// of current blocks at the latest prefix at which `curr_bytes` was at the
/// peak.
pub proof fn law_max_blocks_is_of_latest_peak(events: Seq<CountedEvent>)
    requires
        forall|k: int|
            0 <= k < events.len() ==> (#[trigger] events[k] matches CountedEvent::Dealloc { size }
                ==> size > 0),
    ensures
        exists|i: int|
            {
                &&& 0 <= i <= events.len()
                &&& Counts::replay(#[trigger] events.take(i)).curr_bytes == Counts::replay(
                    events,
                ).max_bytes
                &&& Counts::replay(events.take(i)).curr_blocks == Counts::replay(
                    events,
                ).max_blocks
                &&& forall|j: int|
                    i < j <= events.len() ==> Counts::replay(#[trigger] events.take(j)).curr_bytes
                        != Counts::replay(events).max_bytes
            },
    decreases events.len(),
{
    let last = Counts::replay(events);
    let n = events.len() as int;
    lemma_replay_bounds(events);
    assert(events.take(n) =~= events);
    if events.len() > 0 {
        let before = events.drop_last();
        lemma_replay_bounds(before);
        assert(events[n - 1] == events.last());
        let at_peak = match events.last() {
            CountedEvent::Dealloc { size } => false,
            _ => last.curr_bytes >= Counts::replay(before).max_bytes,
        };
        if !at_peak {
            assert forall|k: int| 0 <= k < before.len() implies (
            #[trigger] before[k] matches CountedEvent::Dealloc { size } ==> size > 0) by {
                assert(before[k] == events[k]);
            }
            law_max_blocks_is_of_latest_peak(before);
            let i = choose|i: int|
                {
                    &&& 0 <= i <= before.len()
                    &&& Counts::replay(#[trigger] before.take(i)).curr_bytes == Counts::replay(
                        before,
                    ).max_bytes
                    &&& Counts::replay(before.take(i)).curr_blocks == Counts::replay(
                        before,
                    ).max_blocks
                    &&& forall|j: int|
                        i < j <= before.len() ==> Counts::replay(
                            #[trigger] before.take(j),
                        ).curr_bytes != Counts::replay(before).max_bytes
                };
            assert(events.take(i) =~= before.take(i));
            assert forall|j: int| i < j <= events.len() implies Counts::replay(
                #[trigger] events.take(j),
            ).curr_bytes != last.max_bytes by {
                if j < n {
                    assert(events.take(j) =~= before.take(j));
                }
            }
        }
    }
}

/// Whatever the counts and the size: allocating a block and freeing it brings
/// the current counts back to what they were, and the peak is no less than
/// what was current with the block.
pub proof fn law_counts_alloc_then_dealloc(c: Counts, size: nat)
    ensures
        c.after_alloc(size as int).after_dealloc(size as int).curr_bytes == c.curr_bytes,
        c.after_alloc(size as int).after_dealloc(size as int).curr_blocks == c.curr_blocks,
        c.after_alloc(size as int).after_dealloc(size as int).max_bytes >= c.curr_bytes + size,
{
}

/// Whatever the counts and the sizes: resizing a live block keeps the current
/// blocks as they are and shifts the current bytes by the signed change in
/// size, and the peak is the larger of the old peak and the new current bytes.
pub proof fn law_counts_realloc(c: Counts, old_size: nat, new_size: nat)
    requires
        c.curr_bytes <= c.max_bytes,
    ensures
        c.after_realloc(old_size as int, new_size as int).curr_blocks == c.curr_blocks,
        c.after_realloc(old_size as int, new_size as int).curr_bytes == c.curr_bytes + (new_size
            - old_size),
        c.after_realloc(old_size as int, new_size as int).max_bytes == (if c.curr_bytes + (new_size
            - old_size) >= c.max_bytes {
            c.curr_bytes + (new_size - old_size)
        } else {
            c.max_bytes
        }),
{
}

/// Recording an allocation counts one more block of its size, in the totals,
/// in the current counts and against the PP of its call stack, and records the
/// block as live at its address.
pub proof fn law_alloc_counts(g: GlobalsView, ptr: usize, size: usize, stack: Seq<usize>, now: u64)
    requires
        g.wf(),
        g.heap is Some,
        g.has_room(size),
        !g.heap->0.live_blocks.contains_key(ptr),
    ensures
        ({
            let after = g.on_alloc(ptr, size, stack, now);
            let idx = g.with_frames_to_trim(stack).pp_index(g.backtrace_of(stack));
            &&& after.total_blocks == g.total_blocks + 1
            &&& after.total_bytes == g.total_bytes + size
            &&& after.heap->0.counts() == g.heap->0.counts().after_alloc(size as int)
            &&& idx < after.pp_infos.len()
            &&& after.heap->0.live_blocks == g.heap->0.live_blocks.insert(
                ptr,
                LiveBlock { pp_info_idx: idx, allocation_instant: now },
            )
            &&& after.heap->0.curr_blocks == after.heap->0.live_blocks.dom().len()
            &&& after.heap->0.curr_bytes == after.heap->0.live_bytes()
        }),
{
    g.lemma_with_frames_to_trim_wf(stack);
    g.with_frames_to_trim(stack).lemma_count_alloc_wf(g.backtrace_of(stack), ptr, size, now);
}

/// Allocating `size` bytes and then freeing them brings the current counts
/// and the live blocks back to what they were, for the whole heap and for the
/// PP of the allocation; `total_bytes` is larger by `size`, the peak is no
/// less than what was current with the block, and the PP's lifetimes have
/// grown by that of the block.
pub proof fn law_alloc_then_dealloc(
    g: GlobalsView,
    ptr: usize,
    size: usize,
    stack: Seq<usize>,
    now: u64,
    later: u64,
)
    requires
        g.wf(),
        g.heap is Some,
        g.has_room(size),
        !g.heap->0.live_blocks.contains_key(ptr),
    ensures
        ({
            let bt = g.backtrace_of(stack);
            let idx = g.with_frames_to_trim(stack).pp_index(bt) as int;
            let before = g.with_frames_to_trim(stack).get_pp_info(bt, PpInfo::zero(true));
            let after = g.on_alloc(ptr, size, stack, now).on_dealloc(ptr, size, later);
            &&& after.heap->0.curr_bytes == g.heap->0.curr_bytes
            &&& after.heap->0.curr_blocks == g.heap->0.curr_blocks
            &&& after.heap->0.live_blocks == g.heap->0.live_blocks
            &&& after.heap->0.max_bytes >= g.heap->0.curr_bytes + size
            &&& after.total_bytes == g.total_bytes + size
            &&& after.pp_infos[idx].heap->0.curr_bytes == before.pp_infos[idx].heap->0.curr_bytes
            &&& after.pp_infos[idx].heap->0.curr_blocks
                == before.pp_infos[idx].heap->0.curr_blocks
            &&& after.pp_infos[idx].heap->0.total_lifetimes_duration
                == before.pp_infos[idx].heap->0.total_lifetimes_duration + elapsed(later, now)
        }),
{
    let bt = g.backtrace_of(stack);
    let trimmed = g.with_frames_to_trim(stack);
    g.lemma_with_frames_to_trim_wf(stack);
    trimmed.lemma_count_alloc_wf(bt, ptr, size, now);
    let mid = g.on_alloc(ptr, size, stack, now);
    mid.lemma_count_dealloc_wf(ptr, size, later);
    assert(mid.on_dealloc(ptr, size, later).heap->0.live_blocks =~= g.heap->0.live_blocks);
}

/// The reallocation of a block that is not recorded as live is that of a
/// fresh allocation of the new size: but for the copy of the current counts
/// that a shrinking reallocation makes at a peak, the state is that after an
/// allocation.
pub proof fn law_realloc_of_unknown_block(
    g: GlobalsView,
    old_ptr: usize,
    old_size: usize,
    new_ptr: usize,
    new_size: usize,
    stack: Seq<usize>,
    now: u64,
)
    requires
        g.heap is Some,
        !g.heap->0.live_blocks.contains_key(old_ptr),
    ensures
        ({
            let after = g.on_realloc(old_ptr, old_size, new_ptr, new_size, stack, now);
            &&& new_size >= old_size ==> after == g.on_alloc(new_ptr, new_size, stack, now)
            &&& new_size < old_size ==> after == g.check_for_global_peak().on_alloc(
                new_ptr,
                new_size,
                stack,
                now,
            )
            &&& after.heap->0.live_blocks.contains_key(new_ptr)
        }),
{
}

/// The reallocation of a block that is not recorded as live counts one more
/// block of the new size, in the totals and in the current counts; the size
/// it is said to have had plays no part.
pub proof fn law_realloc_of_unknown_block_counts(
    g: GlobalsView,
    old_ptr: usize,
    old_size: usize,
    new_ptr: usize,
    new_size: usize,
    stack: Seq<usize>,
    now: u64,
)
    requires
        g.heap is Some,
        !g.heap->0.live_blocks.contains_key(old_ptr),
        g.has_room(new_size),
    ensures
        ({
            let after = g.on_realloc(old_ptr, old_size, new_ptr, new_size, stack, now);
            &&& after.total_blocks == g.total_blocks + 1
            &&& after.total_bytes == g.total_bytes + new_size
            &&& after.heap->0.counts() == g.heap->0.counts().after_alloc(new_size as int)
        }),
{
}

/// The reallocation of a live block keeps `curr_blocks` as it is and shifts
/// `curr_bytes` by the signed change in size, for the whole heap and for the
/// block's PP; the totals of both grow by one block of `new_size` bytes. The
/// block is live at its new address, with the PP it had; no PP is made,
/// whatever the call stack.
pub proof fn law_realloc_of_live_block(
    g: GlobalsView,
    old_ptr: usize,
    old_size: usize,
    new_ptr: usize,
    new_size: usize,
    stack: Seq<usize>,
    now: u64,
)
    requires
        g.wf(),
        g.heap is Some,
        g.heap->0.live_blocks.contains_key(old_ptr),
        g.can_realloc(old_ptr, old_size, new_ptr, new_size),
    ensures
        ({
            let after = g.on_realloc(old_ptr, old_size, new_ptr, new_size, stack, now);
            let idx = g.heap->0.live_blocks[old_ptr].pp_info_idx;
            let pp = g.pp_infos[idx as int];
            let pp_after = after.pp_infos[idx as int];
            &&& after.heap->0.curr_blocks == g.heap->0.curr_blocks
            &&& after.heap->0.curr_bytes == g.heap->0.curr_bytes + (new_size - old_size)
            &&& after.heap->0.counts() == g.heap->0.counts().after_realloc(
                old_size as int,
                new_size as int,
            )
            &&& after.total_blocks == g.total_blocks + 1
            &&& after.total_bytes == g.total_bytes + new_size
            &&& after.heap->0.live_blocks == g.heap->0.live_blocks.remove(old_ptr).insert(
                new_ptr,
                LiveBlock { pp_info_idx: idx, allocation_instant: now },
            )
            &&& after.heap->0.live_blocks.dom().len() == g.heap->0.live_blocks.dom().len()
            &&& after.pp_infos.len() == g.pp_infos.len()
            &&& after.backtraces == g.backtraces
            &&& pp_after.heap->0.curr_blocks == pp.heap->0.curr_blocks
            &&& pp_after.heap->0.curr_bytes == pp.heap->0.curr_bytes + (new_size - old_size)
            &&& pp_after.total_blocks == pp.total_blocks + 1
            &&& pp_after.total_bytes == pp.total_bytes + new_size
        }),
{
    g.lemma_check_for_global_peak_wf();
    let before = if new_size < old_size {
        g.check_for_global_peak()
    } else {
        g
    };
    before.lemma_count_realloc_wf(old_ptr, old_size, new_ptr, new_size, now);
}

/// Freeing a live block takes it off the current counts and leaves the
/// peak and the totals as they are; freeing a block that is not recorded as
/// live changes nothing.
pub proof fn law_dealloc_counts(g: GlobalsView, ptr: usize, size: usize, now: u64)
    requires
        g.wf(),
        g.heap is Some,
        g.can_dealloc(ptr, size),
    ensures
        ({
            let after = g.on_dealloc(ptr, size, now);
            &&& !g.heap->0.live_blocks.contains_key(ptr) ==> after == g
            &&& g.heap->0.live_blocks.contains_key(ptr) ==> {
                &&& after.heap->0.counts() == g.heap->0.counts().after_dealloc(size as int)
                &&& after.total_blocks == g.total_blocks
                &&& after.total_bytes == g.total_bytes
            }
        }),
{
    if g.heap->0.live_blocks.contains_key(ptr) {
        g.lemma_count_dealloc_wf(ptr, size, now);
    }
}

/// An ad hoc event adds 1 to the total of events and its weight to the total
/// of units: nothing, where the weight is 0.
pub proof fn law_ad_hoc_event_counts(g: GlobalsView, stack: Seq<usize>, weight: usize)
    requires
        g.has_room(weight),
    ensures
        g.on_ad_hoc_event(stack, weight).total_blocks == g.total_blocks + 1,
        g.on_ad_hoc_event(stack, weight).total_bytes == g.total_bytes + weight,
        weight == 0 ==> g.on_ad_hoc_event(stack, weight).total_bytes == g.total_bytes,
        g.on_ad_hoc_event(stack, weight).heap == g.heap,
{
}

/// No frame above the first one marked `Bottom` is marked `Bottom`.
proof fn lemma_above_bottom(stack: Seq<usize>, map: Map<usize, TB>, i: int, j: int)
    requires
        0 <= i <= j < bottom_from(stack, map, i),
    ensures
        j < stack.len(),
        !is_bottom(map, stack[j]),
    decreases j - i,
{
    if i < j {
        lemma_above_bottom(stack, map, i + 1, j);
    }
}

/// A capture with trimming keeps no frame that is marked, neither `Top` nor
/// `Bottom`, and no more frames than its limit, which counts as 1 where it is
/// 0; and every frame that it keeps is one of the stack.
pub proof fn law_capture_is_trimmed(stack: Seq<usize>, max_frames: usize, map: Map<usize, TB>)
    ensures
        captured(stack, Some(max_frames), map).len() <= frame_limit(max_frames),
        forall|i: int|
            0 <= i < captured(stack, Some(max_frames), map).len() ==> {
                let ip = #[trigger] captured(stack, Some(max_frames), map)[i];
                !map.contains_key(ip) && stack.contains(ip)
            },
{
    let kept = captured(stack, Some(max_frames), map);
    let cut = bottom_from(stack, map, 0);
    let keep = |ip: usize| !is_top(map, ip);
    let above = stack.take(cut);
    let visible = above.filter(keep);
    lemma_bottom_from_bounds(stack, map, 0);
    assert forall|i: int| 0 <= i < kept.len() implies {
        let ip = #[trigger] kept[i];
        !map.contains_key(ip) && stack.contains(ip)
    } by {
        let ip = kept[i];
        assert(visible[i] == ip);
        above.lemma_filter_pred(keep, i);
        assert(visible.contains(ip));
        above.lemma_filter_contains_rev(keep, ip);
        let j = choose|j: int| 0 <= j < above.len() && above[j] == ip;
        lemma_above_bottom(stack, map, 0, j);
        assert(stack[j] == ip);
    }
}

/// A capture without trimming keeps the whole stack.
pub proof fn law_capture_without_trimming(stack: Seq<usize>, map: Map<usize, TB>)
    ensures
        captured(stack, None, map) == stack,
{
}

/// The frame table holds every text once, and the indices lead back to the
/// texts: looking up `texts` in a table without duplicates leaves a table
/// without duplicates that begins with the old one, gives each text the index
/// at which the table holds it, and adds nothing but texts that were looked
/// up.
pub proof fn law_frame_table(table: Seq<Seq<char>>, texts: Seq<Seq<char>>)
    requires
        table.no_duplicates(),
        table.len() + texts.len() <= usize::MAX,
    ensures
        ({
            let (after, fs) = intern_all(table, texts);
            &&& after.no_duplicates()
            &&& table.len() <= after.len() <= table.len() + texts.len()
            &&& after.take(table.len() as int) == table
            &&& fs.len() == texts.len()
            &&& forall|j: int|
                0 <= j < texts.len() ==> (#[trigger] fs[j]) < after.len() && after[fs[j] as int]
                    == texts[j]
            &&& forall|i: int|
                table.len() <= i < after.len() ==> texts.contains(#[trigger] after[i])
        }),
    decreases texts.len(),
{
    let (after, fs) = intern_all(table, texts);
    if texts.len() > 0 {
        let head = texts.drop_last();
        let text = texts.last();
        let (t, f) = intern_all(table, head);
        law_frame_table(table, head);
        assert(after.take(table.len() as int) =~= t.take(table.len() as int));
        assert forall|j: int| 0 <= j < texts.len() implies (#[trigger] fs[j]) < after.len()
            && after[fs[j] as int] == texts[j] by {
            if j < head.len() {
                assert(fs[j] == f[j]);
                assert(head[j] == texts[j]);
            }
        }
        assert forall|i: int| table.len() <= i < after.len() implies texts.contains(
            #[trigger] after[i],
        ) by {
            if i < t.len() {
                let k = choose|k: int| 0 <= k < head.len() && head[k] == t[i];
                assert(texts[k] == after[i]);
            } else {
                assert(texts[texts.len() - 1] == after[i]);
            }
        }
    } else {
        assert(after.take(table.len() as int) =~= table);
    }
}

/// One event of a heap profiling run.
pub enum Event {
    /// An allocation of `size` bytes returned `ptr`.
    Alloc { ptr: usize, size: usize, stack: Seq<usize>, now: u64 },
    /// A reallocation of the block of `old_size` bytes at `old_ptr` to
    /// `new_size` bytes returned `new_ptr`.
    Realloc {
        old_ptr: usize,
        old_size: usize,
        new_ptr: usize,
        new_size: usize,
        stack: Seq<usize>,
        now: u64,
    },
    /// The block of `size` bytes at `ptr` was freed.
    Dealloc { ptr: usize, size: usize, now: u64 },
}

impl GlobalsView {
    /// Whether the event can be recorded in this state: what the operation
    /// that records it requires.
    pub open spec fn accepts(self, event: Event) -> bool {
        match event {
            Event::Alloc { ptr, size, stack, now } => self.has_room(size)
                && !self.heap->0.live_blocks.contains_key(ptr),
            Event::Realloc { old_ptr, old_size, new_ptr, new_size, stack, now } =>
                self.can_realloc(old_ptr, old_size, new_ptr, new_size),
            Event::Dealloc { ptr, size, now } => self.can_dealloc(ptr, size),
        }
    }

    /// The state after the event.
    pub open spec fn on_event(self, event: Event) -> GlobalsView {
        match event {
            Event::Alloc { ptr, size, stack, now } => self.on_alloc(ptr, size, stack, now),
            Event::Realloc { old_ptr, old_size, new_ptr, new_size, stack, now } => self.on_realloc(
                old_ptr,
                old_size,
                new_ptr,
                new_size,
                stack,
                now,
            ),
            Event::Dealloc { ptr, size, now } => self.on_dealloc(ptr, size, now),
        }
    }

    /// The state after the events `events`, one after the other.
    pub open spec fn run(self, events: Seq<Event>) -> GlobalsView
        decreases events.len(),
    {
        if events.len() == 0 {
            self
        } else {
            self.run(events.drop_last()).on_event(events.last())
        }
    }

    /// Whether each of the events `events` can be recorded in the state that
    /// the events before it lead to.
    pub open spec fn accepts_run(self, events: Seq<Event>) -> bool
        decreases events.len(),
    {
        events.len() == 0 || (self.accepts_run(events.drop_last()) && self.run(
            events.drop_last(),
        ).accepts(events.last()))
    }

    /// Whether, where the heap is at its global peak, the blocks at the peak
    /// are the current ones.
    pub open spec fn peak_is_current(self) -> bool {
        self.heap->0.curr_bytes == self.heap->0.max_bytes ==> self.heap->0.curr_blocks
            == self.heap->0.max_blocks
    }
}

/// Whether the event frees a block of 0 bytes.
pub open spec fn frees_nothing(event: Event) -> bool {
    event matches Event::Dealloc { size, .. } && size == 0
}

/// Every event that can be recorded keeps the state's invariant, never
/// lowers the peak, and leaves the peak as it was or at the current bytes.
pub proof fn law_event_keeps_invariant(g: GlobalsView, event: Event)
    requires
        g.wf(),
        g.heap is Some,
        g.accepts(event),
    ensures
        g.on_event(event).wf(),
        g.on_event(event).heap is Some,
        g.on_event(event).heap->0.max_bytes >= g.heap->0.max_bytes,
        g.on_event(event).heap->0.max_bytes == g.heap->0.max_bytes || g.on_event(
            event,
        ).heap->0.max_bytes == g.on_event(event).heap->0.curr_bytes,
        g.peak_is_current() && !frees_nothing(event) ==> g.on_event(event).peak_is_current(),
{
    match event {
        Event::Alloc { ptr, size, stack, now } => {
            let before = g.with_frames_to_trim(stack);
            g.lemma_with_frames_to_trim_wf(stack);
            before.lemma_count_alloc_wf(g.backtrace_of(stack), ptr, size, now);
        },
        Event::Realloc { old_ptr, old_size, new_ptr, new_size, stack, now } => {
            g.lemma_check_for_global_peak_wf();
            let before = if new_size < old_size {
                g.check_for_global_peak()
            } else {
                g
            };
            if before.heap->0.live_blocks.contains_key(old_ptr) {
                before.lemma_count_realloc_wf(old_ptr, old_size, new_ptr, new_size, now);
            } else {
                let trimmed = before.with_frames_to_trim(stack);
                before.lemma_with_frames_to_trim_wf(stack);
                trimmed.lemma_count_alloc_wf(before.backtrace_of(stack), new_ptr, new_size, now);
            }
        },
        Event::Dealloc { ptr, size, now } => {
            if g.heap->0.live_blocks.contains_key(ptr) {
                g.lemma_count_dealloc_wf(ptr, size, now);
            }
        },
    }
}

/// A run of events that can be recorded keeps the state's invariant.
pub proof fn law_run_keeps_invariant(g: GlobalsView, events: Seq<Event>)
    requires
        g.wf(),
        g.heap is Some,
        g.accepts_run(events),
    ensures
        g.run(events).wf(),
        g.run(events).heap is Some,
        g.run(events).heap->0.max_bytes >= g.heap->0.max_bytes,
        g.peak_is_current() && (forall|k: int|
            0 <= k < events.len() ==> !frees_nothing(#[trigger] events[k])) ==> g.run(
            events,
        ).peak_is_current(),
    decreases events.len(),
{
    if events.len() > 0 {
        let before = events.drop_last();
        law_run_keeps_invariant(g, before);
        law_event_keeps_invariant(g.run(before), events.last());
        if forall|k: int| 0 <= k < events.len() ==> !frees_nothing(#[trigger] events[k]) {
            assert forall|k: int| 0 <= k < before.len() implies !frees_nothing(
                #[trigger] before[k],
            ) by {
                assert(before[k] == events[k]);
            }
            assert(events[events.len() - 1] == events.last());
        }
    }
}

/// For every run of events from a state in which the heap is at its global
/// peak, as it is when a profiler starts: after the run, `max_bytes` is the
/// maximum of `curr_bytes` over the states that the run went through.
pub proof fn law_max_bytes_is_peak_of_run(g: GlobalsView, events: Seq<Event>)
    requires
        g.wf(),
        g.heap is Some,
        g.heap->0.curr_bytes == g.heap->0.max_bytes,
        g.accepts_run(events),
    ensures
        forall|i: int|
            0 <= i <= events.len() ==> g.run(#[trigger] events.take(i)).heap->0.curr_bytes
                <= g.run(events).heap->0.max_bytes,
        exists|i: int|
            0 <= i <= events.len() && g.run(#[trigger] events.take(i)).heap->0.curr_bytes
                == g.run(events).heap->0.max_bytes,
    decreases events.len(),
{
    let last = g.run(events);
    law_run_keeps_invariant(g, events);
    assert(events.take(events.len() as int) =~= events);
    if events.len() == 0 {
        assert forall|i: int| 0 <= i <= events.len() implies g.run(
            #[trigger] events.take(i),
        ).heap->0.curr_bytes <= last.heap->0.max_bytes by {
            assert(events.take(i) =~= events);
        }
    } else {
        let before = events.drop_last();
        law_max_bytes_is_peak_of_run(g, before);
        law_run_keeps_invariant(g, before);
        law_event_keeps_invariant(g.run(before), events.last());
        assert forall|i: int| 0 <= i <= events.len() implies g.run(
            #[trigger] events.take(i),
        ).heap->0.curr_bytes <= last.heap->0.max_bytes by {
            if i < events.len() {
                assert(events.take(i) =~= before.take(i));
            }
        }
        if last.heap->0.max_bytes != last.heap->0.curr_bytes {
            let i = choose|i: int|
                0 <= i <= before.len() && g.run(#[trigger] before.take(i)).heap->0.curr_bytes
                    == g.run(before).heap->0.max_bytes;
            assert(events.take(i) =~= before.take(i));
        }
    }
}

/// For every run of events, none of which frees a block of 0 bytes, from a
/// state in which the heap is at its global peak with the blocks of the peak
/// current, as it is when a profiler starts: after the run, `max_blocks` is
/// the number of current blocks of the latest state that the run went through
/// in which `curr_bytes` was at the peak.
pub proof fn law_max_blocks_is_of_latest_peak_of_run(g: GlobalsView, events: Seq<Event>)
    requires
        g.wf(),
        g.heap is Some,
        g.heap->0.curr_bytes == g.heap->0.max_bytes,
        g.heap->0.curr_blocks == g.heap->0.max_blocks,
        g.accepts_run(events),
        forall|k: int| 0 <= k < events.len() ==> !frees_nothing(#[trigger] events[k]),
    ensures
        exists|i: int|
            {
                &&& 0 <= i <= events.len()
                &&& g.run(#[trigger] events.take(i)).heap->0.curr_bytes == g.run(
                    events,
                ).heap->0.max_bytes
                &&& g.run(events.take(i)).heap->0.curr_blocks == g.run(events).heap->0.max_blocks
                &&& forall|j: int|
                    i < j <= events.len() ==> g.run(#[trigger] events.take(j)).heap->0.curr_bytes
                        != g.run(events).heap->0.max_bytes
            },
    decreases events.len(),
{
    let last = g.run(events);
    let n = events.len() as int;
    law_run_keeps_invariant(g, events);
    assert(events.take(n) =~= events);
    if events.len() > 0 && last.heap->0.max_bytes != last.heap->0.curr_bytes {
        let before = events.drop_last();
        assert forall|k: int| 0 <= k < before.len() implies !frees_nothing(#[trigger] before[k]) by {
            assert(before[k] == events[k]);
        }
        law_run_keeps_invariant(g, before);
        law_event_keeps_invariant(g.run(before), events.last());
        law_max_blocks_is_of_latest_peak_of_run(g, before);
        let i = choose|i: int|
            {
                &&& 0 <= i <= before.len()
                &&& g.run(#[trigger] before.take(i)).heap->0.curr_bytes == g.run(
                    before,
                ).heap->0.max_bytes
                &&& g.run(before.take(i)).heap->0.curr_blocks == g.run(before).heap->0.max_blocks
                &&& forall|j: int|
                    i < j <= before.len() ==> g.run(#[trigger] before.take(j)).heap->0.curr_bytes
                        != g.run(before).heap->0.max_bytes
            };
        assert(events.take(i) =~= before.take(i));
        assert(last.heap->0.max_blocks == g.run(before).heap->0.max_blocks);
        assert forall|j: int| i < j <= events.len() implies g.run(
            #[trigger] events.take(j),
        ).heap->0.curr_bytes != last.heap->0.max_bytes by {
            if j < n {
                assert(events.take(j) =~= before.take(j));
            }
        }
    }
}

} // verus!
