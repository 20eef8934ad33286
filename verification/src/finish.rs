//! The end of a run: the last update of the counts, and the call stacks
//! handed out to have their symbols resolved.

use crate::backtrace::{new_backtrace_inner, Backtrace};
use crate::globals::{elapsed, pp_blocks_at, Globals, GlobalsView};
use crate::maps::{LiveBlock, TrimMap};
use crate::pp::{HeapPpInfo, PpInfo};
use crate::sums::{lemma_sum_all_change, lemma_sum_all_le, lemma_sum_all_member, lemma_sum_all_of_indicator, sum_all};
use vstd::prelude::*;

verus! {

/// How long the live block at `a` has lived at the time `now` if the PP `pp`
/// allocated it; 0 otherwise.
pub open spec fn lifetime_at(live: Map<usize, LiveBlock>, pp: usize, now: u64, a: usize) -> nat {
    if live.contains_key(a) && live[a].pp_info_idx == pp {
        elapsed(now, live[a].allocation_instant) as nat
    } else {
        0
    }
}

/// The sum, at the time `now`, of the lifetimes of the blocks of `live` that
/// the PP `pp` allocated.
pub open spec fn pp_lifetimes(live: Map<usize, LiveBlock>, pp: usize, now: u64) -> nat {
    sum_all(|a: usize| lifetime_at(live, pp, now, a))
}

/// The number of blocks of `live` that the PP `pp` allocated.
pub open spec fn pp_block_count(live: Map<usize, LiveBlock>, pp: usize) -> nat {
    sum_all(|a: usize| pp_blocks_at(live, pp, a))
}

/// The PP `pp` with `extra` nanoseconds more of lifetimes.
pub open spec fn with_lifetimes(pp: PpInfo, extra: nat) -> PpInfo {
    match pp.heap {
        Some(h) => PpInfo {
            heap: Some(
                HeapPpInfo {
                    total_lifetimes_duration: (h.total_lifetimes_duration + extra) as u128,
                    ..h
                },
            ),
            ..pp
        },
        None => pp,
    }
}

impl GlobalsView {
    /// The state at the end of a run, at the time `now`: the current counts
    /// are copied where the heap is at its global peak, and the blocks that
    /// are still live count as freed.
    pub open spec fn finish_counts(self, now: u64) -> GlobalsView {
        self.check_for_global_peak().finish_counts_after_peak(now)
    }

    /// The state with the blocks that are still live at the time `now`
    /// counted as freed.
    pub open spec fn finish_counts_after_peak(self, now: u64) -> GlobalsView {
        match self.heap {
            Some(h) => GlobalsView {
                pp_infos: Seq::new(
                    self.pp_infos.len(),
                    |i: int|
                        with_lifetimes(
                            self.pp_infos[i],
                            pp_lifetimes(h.live_blocks, i as usize, now),
                        ),
                ),
                ..self
            },
            None => self,
        }
    }
}

/// Taking a block out of `live` takes its lifetime and itself off the sums of
/// its PP, and leaves those of the other PPs as they are.
proof fn lemma_take_out(live: Map<usize, LiveBlock>, ptr: usize, now: u64)
    requires
        live.contains_key(ptr),
    ensures
        forall|pp: usize| #[trigger]
            pp_lifetimes(live.remove(ptr), pp, now) == pp_lifetimes(live, pp, now) - (if pp
                == live[ptr].pp_info_idx {
                elapsed(now, live[ptr].allocation_instant) as int
            } else {
                0
            }),
        forall|pp: usize| #[trigger]
            pp_block_count(live.remove(ptr), pp) == pp_block_count(live, pp) - (if pp
                == live[ptr].pp_info_idx {
                1int
            } else {
                0
            }),
        pp_block_count(live, live[ptr].pp_info_idx) >= 1,
{
    let rest = live.remove(ptr);
    assert forall|pp: usize| #[trigger]
        pp_lifetimes(rest, pp, now) == pp_lifetimes(live, pp, now) - (if pp
            == live[ptr].pp_info_idx {
            elapsed(now, live[ptr].allocation_instant) as int
        } else {
            0
        }) by {
        lemma_sum_all_change(
            |a: usize| lifetime_at(live, pp, now, a),
            |a: usize| lifetime_at(rest, pp, now, a),
            ptr,
        );
    }
    assert forall|pp: usize| #[trigger]
        pp_block_count(rest, pp) == pp_block_count(live, pp) - (if pp == live[ptr].pp_info_idx {
            1int
        } else {
            0
        }) by {
        lemma_sum_all_change(
            |a: usize| pp_blocks_at(live, pp, a),
            |a: usize| pp_blocks_at(rest, pp, a),
            ptr,
        );
    }
    lemma_sum_all_member(|a: usize| pp_blocks_at(live, live[ptr].pp_info_idx, a), ptr);
}

/// Without blocks there are no lifetimes.
proof fn lemma_nothing_left(live: Map<usize, LiveBlock>, pp: usize, now: u64)
    requires
        forall|a: usize| !live.contains_key(a),
    ensures
        pp_lifetimes(live, pp, now) == 0,
        pp_block_count(live, pp) == 0,
{
    let nothing = Set::<usize>::empty();
    let zero = |a: usize|
        if nothing.contains(a) {
            1nat
        } else {
            0nat
        };
    lemma_sum_all_of_indicator(nothing, zero);
    lemma_sum_all_le(|a: usize| lifetime_at(live, pp, now, a), zero);
    lemma_sum_all_le(|a: usize| pp_blocks_at(live, pp, a), zero);
}

impl Backtrace {
    /// The unresolved stack of the given instruction pointers.
    pub fn from_ips(ips: &Vec<usize>) -> (bt: Backtrace)
        ensures
            bt@ == ips@,
            bt.unresolved(),
    {
        let nothing = TrimMap::new();
        new_backtrace_inner(ips, None, &nothing)
    }
}

impl Globals {
    /// Brings the counts to the end of the run, at the time `now`: total
    /// bytes is at a possible peak, and the lifetimes of all remaining live
    /// blocks are accounted for. The state is not for further events.
    pub fn finish_counts(&mut self, now: u64)
        requires
            old(self)@.wf(),
        ensures
            final(self)@ == old(self)@.finish_counts(now),
    {
        proof {
            self@.lemma_check_for_global_peak_wf();
        }
        self.check_for_global_peak();
        let ghost g = self@;
        let entries = match &self.heap {
            Some(h) => h.live_blocks.entries(),
            None => {
                return ;
            },
        };
        let ghost live = g.heap->0.live_blocks;
        let ghost mut rest = live;
        let n = entries.len();
        let mut j: usize = 0;
        while j < n
            invariant
                0 <= j <= n,
                n == entries@.len(),
                g.wf(),
                g.heap is Some,
                live == g.heap->0.live_blocks,
                self@ == (GlobalsView { pp_infos: self.pp_infos@, ..g }),
                self.pp_infos@.len() == g.pp_infos.len(),
                forall|i: int|
                    j <= i < n ==> rest.contains_pair((#[trigger] entries@[i]).0, entries@[i].1),
                forall|i: int, k: int|
                    0 <= i < k < n ==> (#[trigger] entries@[i]).0 != (#[trigger] entries@[k]).0,
                forall|a: usize| #[trigger]
                    rest.contains_key(a) ==> live.contains_key(a) && rest[a] == live[a] && exists|
                        i: int,
                    |
                        j <= i < n && (#[trigger] entries@[i]).0 == a,
                forall|i: int|
                    0 <= i < self.pp_infos@.len() ==> {
                        &&& #[trigger] self.pp_infos@[i] == with_lifetimes(
                            g.pp_infos[i],
                            (pp_lifetimes(live, i as usize, now) - pp_lifetimes(
                                rest,
                                i as usize,
                                now,
                            )) as nat,
                        )
                        &&& pp_lifetimes(rest, i as usize, now) <= pp_lifetimes(
                            live,
                            i as usize,
                            now,
                        )
                        &&& pp_block_count(rest, i as usize) <= pp_block_count(live, i as usize)
                        &&& pp_lifetimes(live, i as usize, now) - pp_lifetimes(
                            rest,
                            i as usize,
                            now,
                        ) <= (pp_block_count(live, i as usize) - pp_block_count(
                            rest,
                            i as usize,
                        )) * u64::MAX
                    },
            decreases n - j,
        {
            let (ptr, block) = entries[j];
            let pp_info_idx = block.pp_info_idx;
            let lifetime = if now >= block.allocation_instant {
                now - block.allocation_instant
            } else {
                0
            };
            proof {
                lemma_take_out(rest, ptr, now);
                let p = g.pp_infos[pp_info_idx as int];
                assert(self.pp_infos@[pp_info_idx as int] == with_lifetimes(
                    p,
                    (pp_lifetimes(live, pp_info_idx, now) - pp_lifetimes(
                        rest,
                        pp_info_idx,
                        now,
                    )) as nat,
                ));
                let added = pp_lifetimes(live, pp_info_idx, now) - pp_lifetimes(
                    rest,
                    pp_info_idx,
                    now,
                );
                let gone = pp_block_count(live, pp_info_idx) - pp_block_count(rest, pp_info_idx);
                assert(p.heap->0.total_lifetimes_duration + added + lifetime <= u64::MAX
                    * u64::MAX) by (nonlinear_arith)
                    requires
                        p.heap->0.total_lifetimes_duration <= (p.total_blocks
                            - p.heap->0.curr_blocks) * u64::MAX,
                        added <= gone * u64::MAX,
                        0 <= gone < p.heap->0.curr_blocks <= p.total_blocks <= u64::MAX,
                        0 <= lifetime <= u64::MAX,
                ;
            }
            let mut pp = self.pp_infos[pp_info_idx];
            let ghost before = self.pp_infos@;
            match pp.heap {
                Some(mut h) => {
                    h.total_lifetimes_duration += lifetime as u128;
                    pp.heap = Some(h);
                },
                None => {},
            }
            self.pp_infos.set(pp_info_idx, pp);
            proof {
                let next = rest.remove(ptr);
                assert forall|a: usize| #[trigger] next.contains_key(a) implies live.contains_key(a)
                    && next[a] == live[a] && exists|i: int|
                    j + 1 <= i < n && (#[trigger] entries@[i]).0 == a by {
                    let i = choose|i: int| j <= i < n && (#[trigger] entries@[i]).0 == a;
                    assert(i != j);
                }
                assert forall|i: int| 0 <= i < self.pp_infos@.len() implies {
                    &&& #[trigger] self.pp_infos@[i] == with_lifetimes(
                        g.pp_infos[i],
                        (pp_lifetimes(live, i as usize, now) - pp_lifetimes(
                            next,
                            i as usize,
                            now,
                        )) as nat,
                    )
                    &&& pp_lifetimes(next, i as usize, now) <= pp_lifetimes(live, i as usize, now)
                    &&& pp_block_count(next, i as usize) <= pp_block_count(live, i as usize)
                    &&& pp_lifetimes(live, i as usize, now) - pp_lifetimes(next, i as usize, now)
                        <= (pp_block_count(live, i as usize) - pp_block_count(next, i as usize))
                        * u64::MAX
                } by {
                    assert(before[i] == with_lifetimes(
                        g.pp_infos[i],
                        (pp_lifetimes(live, i as usize, now) - pp_lifetimes(
                            rest,
                            i as usize,
                            now,
                        )) as nat,
                    ));
                    assert(pp_lifetimes(next, i as usize, now) == pp_lifetimes(
                        rest,
                        i as usize,
                        now,
                    ) - (if i as usize == rest[ptr].pp_info_idx {
                        elapsed(now, rest[ptr].allocation_instant) as int
                    } else {
                        0
                    }));
                    assert(pp_block_count(next, i as usize) == pp_block_count(rest, i as usize) - (
                    if i as usize == rest[ptr].pp_info_idx {
                        1int
                    } else {
                        0
                    }));
                }
                rest = next;
            }
            j += 1;
        }
        proof {
            assert forall|i: int| 0 <= i < self.pp_infos@.len() implies #[trigger] self.pp_infos@[i]
                == g.finish_counts_after_peak(now).pp_infos[i] by {
                lemma_nothing_left(rest, i as usize, now);
            }
        }
    }
}

} // verus!
