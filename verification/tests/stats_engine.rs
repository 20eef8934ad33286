use dhat::{ad_hoc_event, AdHocStats, Alloc, Globals, HeapStats, Phase, Profiler};

// The full call stack of an event at the call site `site`: the frames of the
// capture itself, the call site, then `main` and what is below it.
fn stack(site: usize) -> Vec<usize> {
    vec![0x10, 0x11, site, 0x900, 0x1000, 0x1001, 0x1002]
}

// The full call stack when the profiler is started.
fn start_stack() -> Vec<usize> {
    vec![0x10, 0x11, 0x500, 0x901, 0x1000, 0x1001, 0x1002]
}

fn globals(phase: &Phase) -> &Globals {
    match phase {
        Phase::Running(g) => g,
        _ => panic!("no profiler is running"),
    }
}

fn assert_heap_stats(phase: &Phase, expected: (u64, u64, usize, usize, usize, usize)) {
    let stats = HeapStats::get(phase).unwrap();
    assert_eq!(
        (
            stats.total_blocks,
            stats.total_bytes,
            stats.curr_blocks,
            stats.curr_bytes,
            stats.max_blocks,
            stats.max_bytes
        ),
        expected
    );
}

// Explicit calls to an `Alloc`, with a check after each that the state looks
// like it should.
#[test]
fn heap() {
    let mut phase = Phase::new();
    let alloc = Alloc;
    let _dhat = Profiler::new_heap(&mut phase, &start_stack(), 100).unwrap();

    // PpInfo 0
    let ptr0 = 0x7000;
    alloc.on_alloc(&mut phase, ptr0, 256, &stack(0xa0), 200);

    let tgmax_instant = {
        let g = globals(&phase);
        let h = g.heap.as_ref().unwrap();
        assert_eq!(g.pp_infos.len(), 1);
        assert_eq!(g.backtrace_count(), 1);
        assert_eq!(g.total_blocks, 1);
        assert_eq!(g.total_bytes, 256);
        assert_eq!(g.live_block_count(), 1);
        assert_eq!(h.curr_blocks, 1);
        assert_eq!(h.curr_bytes, 256);
        assert_eq!(h.max_blocks, 1);
        assert_eq!(h.max_bytes, 256);
        assert!(h.tgmax_instant > g.start_instant);

        let pp_info = &g.pp_infos[0];
        let a = pp_info.heap.as_ref().unwrap();
        assert_eq!(pp_info.total_blocks, 1);
        assert_eq!(pp_info.total_bytes, 256);
        assert_eq!(a.curr_blocks, 1);
        assert_eq!(a.curr_bytes, 256);
        assert_eq!(a.max_blocks, 1);
        assert_eq!(a.max_bytes, 256);
        // These don't get updated until we come down from a peak, or finish.
        assert_eq!(a.at_tgmax_blocks, 0);
        assert_eq!(a.at_tgmax_bytes, 0);

        h.tgmax_instant
    };

    // PpInfo 0, again
    let ptr0b = 0x7800;
    alloc.on_realloc(&mut phase, ptr0, 256, ptr0b, 512, &stack(0xa1), 300);

    let tgmax_instant = {
        let g = globals(&phase);
        let h = g.heap.as_ref().unwrap();
        assert_eq!(g.pp_infos.len(), 1);
        assert_eq!(g.backtrace_count(), 1);
        assert_eq!(g.total_blocks, 2);
        assert_eq!(g.total_bytes, 768);
        assert_eq!(g.live_block_count(), 1);
        assert_eq!(h.curr_blocks, 1);
        assert_eq!(h.curr_bytes, 512);
        assert_eq!(h.max_blocks, 1);
        assert_eq!(h.max_bytes, 512);
        assert!(h.tgmax_instant > tgmax_instant);

        let pp_info = &g.pp_infos[0];
        let a = pp_info.heap.as_ref().unwrap();
        assert_eq!(pp_info.total_blocks, 2);
        assert_eq!(pp_info.total_bytes, 768);
        assert_eq!(a.curr_blocks, 1);
        assert_eq!(a.curr_bytes, 512);
        assert_eq!(a.max_blocks, 1);
        assert_eq!(a.max_bytes, 512);
        assert_eq!(a.at_tgmax_blocks, 0);
        assert_eq!(a.at_tgmax_bytes, 0);

        h.tgmax_instant
    };

    // PpInfo 1 and 2
    alloc.on_alloc(&mut phase, 0x8000, 256, &stack(0xb0), 400);
    let ptr2 = 0x9000;
    alloc.on_alloc(&mut phase, ptr2, 256, &stack(0xc0), 500);

    let tgmax_instant = {
        let g = globals(&phase);
        let h = g.heap.as_ref().unwrap();
        assert_eq!(g.pp_infos.len(), 3);
        assert_eq!(g.backtrace_count(), 3);
        assert_eq!(g.total_blocks, 4);
        assert_eq!(g.total_bytes, 1280);
        assert_eq!(g.live_block_count(), 3);
        assert_eq!(h.curr_blocks, 3);
        assert_eq!(h.curr_bytes, 1024);
        assert_eq!(h.max_blocks, 3);
        assert_eq!(h.max_bytes, 1024);
        assert!(h.tgmax_instant > tgmax_instant);

        let pp_info = &g.pp_infos[1];
        let a = pp_info.heap.as_ref().unwrap();
        assert_eq!(pp_info.total_blocks, 1);
        assert_eq!(pp_info.total_bytes, 256);
        assert_eq!(a.curr_blocks, 1);
        assert_eq!(a.curr_bytes, 256);
        assert_eq!(a.max_blocks, 1);
        assert_eq!(a.max_bytes, 256);
        assert_eq!(a.at_tgmax_blocks, 0);
        assert_eq!(a.at_tgmax_bytes, 0);

        h.tgmax_instant
    };

    alloc.on_dealloc(&mut phase, ptr2, 256, 650);

    let tgmax_instant = {
        let g = globals(&phase);
        let h = g.heap.as_ref().unwrap();
        assert_eq!(g.pp_infos.len(), 3);
        assert_eq!(g.backtrace_count(), 3);
        assert_eq!(g.total_blocks, 4);
        assert_eq!(g.total_bytes, 1280);
        assert_eq!(g.live_block_count(), 2);
        assert_eq!(h.curr_blocks, 2);
        assert_eq!(h.curr_bytes, 768);
        assert_eq!(h.max_blocks, 3);
        assert_eq!(h.max_bytes, 1024);
        assert_eq!(h.tgmax_instant, tgmax_instant);

        let pp_info = &g.pp_infos[2];
        let a = pp_info.heap.as_ref().unwrap();
        assert_eq!(pp_info.total_blocks, 1);
        assert_eq!(pp_info.total_bytes, 256);
        assert_eq!(a.curr_blocks, 0);
        assert_eq!(a.curr_bytes, 0);
        assert_eq!(a.max_blocks, 1);
        assert_eq!(a.max_bytes, 256);
        // These have been updated because we just came down from a peak.
        assert_eq!(a.at_tgmax_blocks, 1);
        assert_eq!(a.at_tgmax_bytes, 256);
        // The block lived from 500 to 650.
        assert_eq!(a.total_lifetimes_duration, 150);

        h.tgmax_instant
    };

    // PpInfo 3
    alloc.on_alloc(&mut phase, 0xa000, 256, &stack(0xd0), 700);

    // This should have no effect, because we're heap profiling.
    ad_hoc_event(&mut phase, &stack(0xe0), 100);

    {
        // Finishing the counts lets us inspect the state after the final
        // processing has been done.
        let g = match &mut phase {
            Phase::Running(g) => g,
            _ => panic!("no profiler is running"),
        };
        let entries = g.take_backtraces();
        assert_eq!(entries.len(), 4);
        g.finish_counts(1000);
        let h = g.heap.as_ref().unwrap();
        assert_eq!(g.pp_infos.len(), 4);
        assert_eq!(g.backtrace_count(), 0); // they were handed out
        assert_eq!(g.total_blocks, 5);
        assert_eq!(g.total_bytes, 1536);
        assert_eq!(g.live_block_count(), 3);
        assert_eq!(h.curr_blocks, 3);
        assert_eq!(h.curr_bytes, 1024);
        assert_eq!(h.max_blocks, 3);
        assert_eq!(h.max_bytes, 1024);
        assert!(h.tgmax_instant > tgmax_instant);

        let pp_info = &g.pp_infos[0];
        let a = pp_info.heap.as_ref().unwrap();
        // These have been updated because the counts were just finished.
        assert_eq!(a.at_tgmax_blocks, 1);
        assert_eq!(a.at_tgmax_bytes, 512);
        // 200 to 300 before the realloc, 300 to 1000 after it.
        assert_eq!(a.total_lifetimes_duration, 700);

        let pp_info = &g.pp_infos[1];
        let a = pp_info.heap.as_ref().unwrap();
        assert_eq!(a.at_tgmax_blocks, 1);
        assert_eq!(a.at_tgmax_bytes, 256);
        assert_eq!(a.total_lifetimes_duration, 600);

        let pp_info = &g.pp_infos[2];
        let a = pp_info.heap.as_ref().unwrap();
        assert_eq!(a.at_tgmax_blocks, 0);
        assert_eq!(a.at_tgmax_bytes, 0);
        assert_eq!(a.total_lifetimes_duration, 150);

        let pp_info = &g.pp_infos[3];
        let a = pp_info.heap.as_ref().unwrap();
        assert_eq!(pp_info.total_blocks, 1);
        assert_eq!(pp_info.total_bytes, 256);
        assert_eq!(a.curr_blocks, 1);
        assert_eq!(a.curr_bytes, 256);
        assert_eq!(a.max_blocks, 1);
        assert_eq!(a.max_bytes, 256);
        assert_eq!(a.at_tgmax_blocks, 1);
        assert_eq!(a.at_tgmax_bytes, 256);
        assert_eq!(a.total_lifetimes_duration, 300);
    }
}

#[test]
fn ad_hoc() {
    let mut phase = Phase::new();

    ad_hoc_event(&mut phase, &stack(0xa0), 50); // no-op
    let _dhat = Profiler::new_ad_hoc(&mut phase, &start_stack(), 100).unwrap();
    ad_hoc_event(&mut phase, &stack(0xa0), 100); // PpInfo 0
    for _ in 0..3 {
        ad_hoc_event(&mut phase, &stack(0xb0), 200); // PpInfo 1
    }

    // This should have no effect, because we're ad hoc profiling.
    Alloc.on_alloc(&mut phase, 0x7000, 100, &stack(0xc0), 200);

    let g = globals(&phase);
    assert!(matches!(g.heap, None));
    assert_eq!(g.pp_infos.len(), 2);
    assert_eq!(g.backtrace_count(), 2);
    assert_eq!(g.total_blocks, 4);
    assert_eq!(g.total_bytes, 700);
    let pp_info = &g.pp_infos[0];
    assert!(matches!(pp_info.heap, None));
    assert_eq!(pp_info.total_blocks, 1);
    assert_eq!(pp_info.total_bytes, 100);

    let pp_info = &g.pp_infos[1];
    assert!(matches!(pp_info.heap, None));
    assert_eq!(pp_info.total_blocks, 3);
    assert_eq!(pp_info.total_bytes, 600);
}

fn f3(phase: &mut Phase, caller: usize) {
    ad_hoc_event(phase, &vec![0x10, 0x11, 0x30, caller, 0x900], 1);
}

fn f2(phase: &mut Phase) {
    f3(phase, 0x21);
    ad_hoc_event(phase, &vec![0x10, 0x11, 0x22, 0x900], 2);
    f3(phase, 0x23);
}

fn f1(phase: &mut Phase) {
    f2(phase);
    ad_hoc_event(phase, &vec![0x10, 0x11, 0x12, 0x900], 3);
    f2(phase);
}

#[test]
fn ad_hoc_stats_main() {
    let mut phase = Phase::new();
    let _dhat = Profiler::new_ad_hoc(&mut phase, &start_stack(), 1).unwrap();

    let stats = AdHocStats::get(&phase).unwrap();
    assert_eq!((stats.total_events, stats.total_units), (0, 0));

    f1(&mut phase);
    ad_hoc_event(&mut phase, &stack(0xa0), 100);
    f1(&mut phase);

    let stats = AdHocStats::get(&phase).unwrap();
    assert_eq!((stats.total_events, stats.total_units), (15, 122));
}

// It's intended that the profiler spans the entire program's runtime. This
// makes sure things are ok when that doesn't happen, and blocks allocated
// before its lifetime are reallocated or freed during or after its lifetime.
#[test]
fn partial_main() {
    let mut phase = Phase::new();
    let alloc = Alloc;
    let (v1, v2, v3, v4) = (0x1000, 0x2000, 0x3000, 0x4000);
    // Allocated before: nothing is recorded.
    for v in [v1, v2, v3, v4] {
        alloc.on_alloc(&mut phase, v, 16, &stack(0xa0), 1);
    }

    {
        let mut dhat = Profiler::new_heap(&mut phase, &start_stack(), 10).unwrap();

        // Things allocated beforehand aren't counted.
        assert_heap_stats(&phase, (0, 0, 0, 0, 0, 0));

        // Allocated before, freed during.
        alloc.on_dealloc(&mut phase, v1, 16, 20);
        assert_heap_stats(&phase, (0, 0, 0, 0, 0, 0));

        // Allocated before, reallocated during.
        alloc.on_realloc(&mut phase, v3, 16, 0x3800, 32, &stack(0xb0), 30);

        // Things allocated during are counted (and the realloc is treated like
        // an alloc, i.e. we count the entire thing, not just the difference
        // between the old and new sizes).
        assert_heap_stats(&phase, (1, 32, 1, 32, 1, 32));

        dhat.drop_inner(&mut phase);
    }

    // Allocated before, freed after.
    alloc.on_dealloc(&mut phase, v2, 16, 40);

    // Allocated before, reallocated after.
    alloc.on_realloc(&mut phase, v4, 16, 0x4800, 32, &stack(0xc0), 50);
    assert!(matches!(phase, Phase::Ready));
}

#[test]
fn stacked_allocators_work() {
    const ALLOC_SIZE: usize = 167;
    let mut phase = Phase::new();
    let _profiler = Profiler::builder().build(&mut phase, &start_stack(), 1).unwrap();

    // Nothing got allocated yet.
    assert_heap_stats(&phase, (0, 0, 0, 0, 0, 0));

    // The inner allocator answered: one block of the weird size.
    Alloc.on_alloc(&mut phase, 0x7000, ALLOC_SIZE, &stack(0xa0), 2);
    assert_heap_stats(&phase, (1, ALLOC_SIZE as u64, 1, ALLOC_SIZE, 1, ALLOC_SIZE));

    Alloc.on_dealloc(&mut phase, 0x7000, ALLOC_SIZE, 3);
    assert_heap_stats(&phase, (1, ALLOC_SIZE as u64, 0, 0, 1, ALLOC_SIZE));
}

#[test]
fn single_live_alloc() {
    let mut phase = Phase::new();
    let _profiler = Profiler::new_heap(&mut phase, &start_stack(), 1).unwrap();
    Alloc.on_alloc(&mut phase, 0x7000, 256, &stack(0xa0), 2);

    assert_heap_stats(&phase, (1, 256, 1, 256, 1, 256));
    assert_eq!(globals(&phase).pp_infos.len(), 1);
    assert_eq!(globals(&phase).live_block_count(), 1);
}

#[test]
fn grow_via_realloc() {
    let mut phase = Phase::new();
    let _profiler = Profiler::new_heap(&mut phase, &start_stack(), 1).unwrap();
    Alloc.on_alloc(&mut phase, 0x7000, 256, &stack(0xa0), 2);
    Alloc.on_realloc(&mut phase, 0x7000, 256, 0x7000, 512, &stack(0xa0), 3);

    assert_heap_stats(&phase, (2, 768, 1, 512, 1, 512));
    assert_eq!(globals(&phase).pp_infos.len(), 1);
    assert_eq!(globals(&phase).live_block_count(), 1);
}

#[test]
fn three_sites_one_freed() {
    let mut phase = Phase::new();
    let _profiler = Profiler::new_heap(&mut phase, &start_stack(), 1).unwrap();
    Alloc.on_alloc(&mut phase, 0x7000, 256, &stack(0xa0), 2);
    Alloc.on_alloc(&mut phase, 0x8000, 256, &stack(0xb0), 3);
    Alloc.on_alloc(&mut phase, 0x9000, 256, &stack(0xc0), 4);
    Alloc.on_dealloc(&mut phase, 0x9000, 256, 5);

    assert_heap_stats(&phase, (3, 768, 2, 512, 3, 768));
    let g = globals(&phase);
    assert_eq!(g.pp_infos.len(), 3);
    let pp_c = g.pp_infos[2].heap.as_ref().unwrap();
    assert_eq!(pp_c.at_tgmax_blocks, 1);
    assert_eq!(pp_c.at_tgmax_bytes, 256);
}

#[test]
fn pre_start_allocations() {
    let mut phase = Phase::new();
    let alloc = Alloc;
    for v in [0x1000, 0x2000, 0x3000, 0x4000] {
        alloc.on_alloc(&mut phase, v, 16, &stack(0xa0), 1);
    }
    let _profiler = Profiler::new_heap(&mut phase, &start_stack(), 2).unwrap();
    assert_heap_stats(&phase, (0, 0, 0, 0, 0, 0));

    alloc.on_dealloc(&mut phase, 0x1000, 16, 3);
    assert_heap_stats(&phase, (0, 0, 0, 0, 0, 0));

    let new_size = 40;
    alloc.on_realloc(&mut phase, 0x2000, 16, 0x2800, new_size, &stack(0xb0), 4);
    assert_heap_stats(&phase, (1, new_size as u64, 1, new_size, 1, new_size));
}

#[test]
fn null_allocation_changes_nothing() {
    let mut phase = Phase::new();
    let _profiler = Profiler::new_heap(&mut phase, &start_stack(), 1).unwrap();
    Alloc.on_alloc(&mut phase, 0x7000, 64, &stack(0xa0), 2);

    Alloc.on_alloc(&mut phase, 0, 1 << 40, &stack(0xb0), 3);
    Alloc.on_realloc(&mut phase, 0x7000, 64, 0, 1 << 40, &stack(0xa0), 4);

    assert_heap_stats(&phase, (1, 64, 1, 64, 1, 64));
    assert_eq!(globals(&phase).pp_infos.len(), 1);
    assert_eq!(globals(&phase).live_block_count(), 1);
    // The block that could not be resized is still where it was.
    Alloc.on_dealloc(&mut phase, 0x7000, 64, 5);
    assert_heap_stats(&phase, (1, 64, 0, 0, 1, 64));
}

#[test]
fn realloc_of_live_block_shifts_bytes_by_signed_delta() {
    let mut phase = Phase::new();
    let _profiler = Profiler::new_heap(&mut phase, &start_stack(), 1).unwrap();
    Alloc.on_alloc(&mut phase, 0x7000, 300, &stack(0xa0), 2);
    Alloc.on_alloc(&mut phase, 0x8000, 50, &stack(0xb0), 3);

    // Shrink: the blocks stay two, the bytes come down by 200. The peak was
    // 350 bytes in two blocks, with 300 of them from the first site.
    Alloc.on_realloc(&mut phase, 0x7000, 300, 0x7100, 100, &stack(0xc0), 4);
    assert_heap_stats(&phase, (3, 450, 2, 150, 2, 350));
    let g = globals(&phase);
    assert_eq!(g.pp_infos.len(), 2);
    let a = g.pp_infos[0].heap.as_ref().unwrap();
    assert_eq!((a.curr_blocks, a.curr_bytes, a.max_bytes), (1, 100, 300));
    assert_eq!((a.at_tgmax_blocks, a.at_tgmax_bytes), (1, 300));
    assert_eq!(g.pp_infos[0].total_bytes, 400);

    // Grow again, past the old peak.
    Alloc.on_realloc(&mut phase, 0x7100, 100, 0x7200, 400, &stack(0xc0), 5);
    assert_heap_stats(&phase, (4, 850, 2, 450, 2, 450));
}

#[test]
fn equal_peaks_resolve_to_the_latest() {
    let mut phase = Phase::new();
    let _profiler = Profiler::new_heap(&mut phase, &start_stack(), 1).unwrap();
    Alloc.on_alloc(&mut phase, 0x7000, 100, &stack(0xa0), 10);
    Alloc.on_dealloc(&mut phase, 0x7000, 100, 20);
    Alloc.on_alloc(&mut phase, 0x8000, 60, &stack(0xb0), 30);
    Alloc.on_alloc(&mut phase, 0x9000, 40, &stack(0xc0), 40);

    // 100 bytes were reached twice: in one block at 10, in two blocks at 40.
    assert_heap_stats(&phase, (3, 200, 2, 100, 2, 100));
    assert_eq!(globals(&phase).heap.as_ref().unwrap().tgmax_instant, 40);
}

#[test]
fn alloc_then_dealloc_round_trip() {
    let mut phase = Phase::new();
    let _profiler = Profiler::new_heap(&mut phase, &start_stack(), 1).unwrap();
    Alloc.on_alloc(&mut phase, 0x7000, 48, &stack(0xa0), 2);
    let before = HeapStats::get(&phase).unwrap();

    Alloc.on_alloc(&mut phase, 0x8000, 1000, &stack(0xb0), 3);
    Alloc.on_dealloc(&mut phase, 0x8000, 1000, 4);

    let after = HeapStats::get(&phase).unwrap();
    assert_eq!(after.curr_bytes, before.curr_bytes);
    assert_eq!(after.curr_blocks, before.curr_blocks);
    assert_eq!(after.total_bytes, before.total_bytes + 1000);
}

#[test]
fn same_stack_same_pp() {
    let mut phase = Phase::new();
    let _profiler = Profiler::new_heap(&mut phase, &start_stack(), 1).unwrap();
    Alloc.on_alloc(&mut phase, 0x7000, 8, &stack(0xa0), 2);
    Alloc.on_alloc(&mut phase, 0x8000, 8, &stack(0xb0), 3);
    Alloc.on_alloc(&mut phase, 0x9000, 8, &stack(0xa0), 4);

    let g = globals(&phase);
    assert_eq!(g.pp_infos.len(), 2);
    assert_eq!(g.backtrace_count(), 2);
    assert_eq!(g.pp_infos[0].total_blocks, 2);
    assert_eq!(g.pp_infos[1].total_blocks, 1);
}

#[test]
fn ad_hoc_event_of_weight_zero() {
    let mut phase = Phase::new();
    let _profiler = Profiler::new_ad_hoc(&mut phase, &start_stack(), 1).unwrap();
    ad_hoc_event(&mut phase, &stack(0xa0), 7);
    ad_hoc_event(&mut phase, &stack(0xa0), 0);

    let stats = AdHocStats::get(&phase).unwrap();
    assert_eq!((stats.total_events, stats.total_units), (2, 7));
}

#[test]
fn ad_hoc_counting() {
    let mut phase = Phase::new();
    let _profiler = Profiler::new_ad_hoc(&mut phase, &start_stack(), 1).unwrap();
    for (site, weight) in [(0xa0, 100), (0xb0, 1), (0xb1, 2), (0xc0, 3)] {
        ad_hoc_event(&mut phase, &stack(site), weight);
        // A heap allocation at the same time is not an ad hoc event.
        Alloc.on_alloc(&mut phase, 0x7000 + site, 64, &stack(site), 5);
    }

    let stats = AdHocStats::get(&phase).unwrap();
    assert_eq!((stats.total_events, stats.total_units), (4, 106));
    assert_eq!(
        HeapStats::get(&phase).unwrap_err().message(),
        "dhat: getting heap stats while doing ad hoc profiling"
    );
}

#[test]
fn lifetime_of_a_block_freed_before_it_was_allocated_is_zero() {
    let mut phase = Phase::new();
    let _profiler = Profiler::new_heap(&mut phase, &start_stack(), 100).unwrap();
    Alloc.on_alloc(&mut phase, 0x7000, 8, &stack(0xa0), 500);
    Alloc.on_dealloc(&mut phase, 0x7000, 8, 400);

    let a = globals(&phase).pp_infos[0].heap.as_ref().unwrap();
    assert_eq!(a.total_lifetimes_duration, 0);
}

// A run of allocations, reallocations and frees, kept track of on the side.
#[test]
fn counts_follow_the_live_blocks_through_a_run() {
    let mut phase = Phase::new();
    let _profiler = Profiler::new_heap(&mut phase, &start_stack(), 0).unwrap();
    let mut live: Vec<(usize, usize)> = Vec::new();
    let mut total_bytes = 0u64;
    let mut total_blocks = 0u64;
    let mut peak = (0usize, 0usize);
    let mut seed = 12345u64;
    for step in 0..400u64 {
        seed = seed.wrapping_mul(6364136223846793005).wrapping_add(1442695040888963407);
        let choice = (seed >> 33) % 4;
        let size = ((seed >> 40) % 1000) as usize + 1;
        let site = 0xa0 + ((seed >> 20) % 5) as usize;
        let mut grew = true;
        if choice < 2 || live.is_empty() {
            let ptr = 0x10_0000 + step as usize * 0x1000;
            Alloc.on_alloc(&mut phase, ptr, size, &stack(site), step);
            live.push((ptr, size));
            total_bytes += size as u64;
            total_blocks += 1;
        } else if choice == 2 {
            let (ptr, old_size) = live.remove((seed >> 50) as usize % live.len());
            let new_ptr = 0x10_0000 + step as usize * 0x1000;
            Alloc.on_realloc(&mut phase, ptr, old_size, new_ptr, size, &stack(site), step);
            live.push((new_ptr, size));
            total_bytes += size as u64;
            total_blocks += 1;
            grew = size >= old_size;
        } else {
            let (ptr, size) = live.remove((seed >> 50) as usize % live.len());
            Alloc.on_dealloc(&mut phase, ptr, size, step);
            grew = false;
        }
        let curr_bytes: usize = live.iter().map(|block| block.1).sum();
        if grew && curr_bytes >= peak.1 {
            peak = (live.len(), curr_bytes);
        }

        assert_heap_stats(
            &phase,
            (total_blocks, total_bytes, live.len(), curr_bytes, peak.0, peak.1),
        );
        let g = globals(&phase);
        assert_eq!(g.live_block_count(), live.len());
        assert!(live.iter().all(|block| g.is_live(block.0)));
        let mut pp_curr_bytes = 0;
        let mut pp_curr_blocks = 0;
        let mut pp_total_bytes = 0;
        for pp in &g.pp_infos {
            let h = pp.heap.as_ref().unwrap();
            assert!(pp.total_bytes >= h.max_bytes as u64);
            assert!(h.max_bytes >= h.curr_bytes);
            assert!(pp.total_blocks >= h.curr_blocks as u64);
            pp_curr_bytes += h.curr_bytes;
            pp_curr_blocks += h.curr_blocks;
            pp_total_bytes += pp.total_bytes;
        }
        assert_eq!(pp_curr_bytes, curr_bytes);
        assert_eq!(pp_curr_blocks, live.len());
        assert_eq!(pp_total_bytes, total_bytes);
        assert_eq!(g.backtrace_count(), g.pp_infos.len());
    }
    assert!(peak.1 > 0);
}

#[test]
fn room_for_one_more() {
    let mut phase = Phase::new();
    let _profiler = Profiler::new_heap(&mut phase, &start_stack(), 0).unwrap();
    Alloc.on_alloc(&mut phase, 0x7000, usize::MAX - 10, &stack(0xa0), 1);
    let g = globals(&phase);
    assert!(g.has_room(10));
    assert!(!g.has_room(11));
    assert!(g.is_live(0x7000));
    assert!(!g.is_live(0x7001));
}
