use dhat::frames::{frame_indices, has_allocator_name, FrameTable};
use dhat::text::{frame_to_string, starts_with};
use dhat::{
    ad_hoc_event, AdHocStats, Alloc, Backtrace, Frame, HeapStats, Phase, PpInfo, PpInfoJson,
    Profiler, Report, Symbol,
};

fn symbol(name: &str, file: &str, line: u32, col: u32) -> Symbol {
    Symbol {
        name: Some(name.to_string()),
        filename: Some(file.to_string()),
        lineno: Some(line),
        colno: Some(col),
    }
}

// What debug information says of each instruction pointer of the runs below.
fn symbols_at(ip: usize) -> Vec<Symbol> {
    let alloc_rs = "/rustc/59807616/library/alloc/src/alloc.rs";
    match ip {
        0x10 => vec![symbol("backtrace::backtrace::trace", "/cargo/backtrace/src/lib.rs", 1, 1)],
        0x11 => vec![symbol("dhat::new_backtrace_inner", "/src/dhat-rs/src/lib.rs", 1183, 5)],
        0x20 => vec![symbol(
            "<dhat::Alloc as core::alloc::global::GlobalAlloc>::alloc",
            "/src/dhat-rs/src/lib.rs",
            1226,
            26,
        )],
        0x21 => vec![Symbol {
            name: Some("__rg_alloc".to_string()),
            filename: None,
            lineno: None,
            colno: None,
        }],
        // Three functions inlined into one frame.
        0x22 => vec![
            symbol("alloc::alloc::alloc", alloc_rs, 100, 9),
            symbol("alloc::alloc::Global::alloc_impl", alloc_rs, 183, 73),
            symbol("<alloc::alloc::Global as core::alloc::Allocator>::allocate", alloc_rs, 243, 9),
        ],
        0x30 => vec![symbol(
            "alloc::vec::Vec<T,A>::push",
            "/rustc/59807616/library/alloc/src/vec/mod.rs",
            1833,
            13,
        )],
        0x40 => vec![symbol("dhat::ad_hoc_event", "/src/dhat-rs/src/lib.rs", 1322, 18)],
        0xa35 => vec![symbol("heap::main", "/src/dhat-rs/tests/heap.rs", 35, 9)],
        0xa38 => vec![symbol("heap::main", "/src/dhat-rs/tests/heap.rs", 38, 18)],
        0xa39 => vec![symbol("heap::main", "/src/dhat-rs/tests/heap.rs", 39, 22)],
        0xa40 => vec![symbol("heap::main", "/src/dhat-rs/tests/heap.rs", 40, 12)],
        0xa49 => vec![symbol("heap::main", "/src/dhat-rs/tests/heap.rs", 49, 22)],
        0xb05 => vec![symbol("ad_hoc::f2", "/src/dhat-rs/tests/ad-hoc.rs", 5, 5)],
        0xb06 => vec![symbol("ad_hoc::f2", "/src/dhat-rs/tests/ad-hoc.rs", 6, 5)],
        0xb10 => vec![symbol("ad_hoc::f1", "/src/dhat-rs/tests/ad-hoc.rs", 10, 5)],
        0xb11 => vec![symbol("ad_hoc::f1", "/src/dhat-rs/tests/ad-hoc.rs", 11, 5)],
        0xb34 => vec![symbol("ad_hoc::main", "/src/dhat-rs/tests/ad-hoc.rs", 34, 9)],
        0xb35 => vec![symbol("ad_hoc::main", "/src/dhat-rs/tests/ad-hoc.rs", 35, 9)],
        0x500 => vec![symbol("dhat::ProfilerBuilder::build", "/src/dhat-rs/src/lib.rs", 1130, 1)],
        0x1000 => vec![symbol("std::rt::lang_start::{{closure}}", "/rustc/std/src/rt.rs", 1, 1)],
        0x1001 => vec![symbol(
            "core::ops::function::FnOnce::call_once::{{vtable.shim}}",
            "/rustc/core/src/ops/function.rs",
            1,
            1,
        )],
        0x1002 => vec![symbol("std::panic::catch_unwind::h1", "/rustc/std/src/panic.rs", 1, 1)],
        _ => vec![],
    }
}

fn resolve(entries: Vec<(Backtrace, usize)>) -> Vec<(Backtrace, usize)> {
    entries
        .into_iter()
        .map(|(bt, idx)| {
            let frames =
                bt.frames.iter().map(|f| Frame { ip: f.ip, symbols: symbols_at(f.ip) }).collect();
            (Backtrace { frames }, idx)
        })
        .collect()
}

fn heap_stack(sites: &[usize]) -> Vec<usize> {
    let mut stack = vec![0x10, 0x11, 0x20, 0x21, 0x22];
    stack.extend(sites);
    stack.extend([0x1000, 0x1001, 0x1002]);
    stack
}

fn ad_hoc_stack(sites: &[usize]) -> Vec<usize> {
    let mut stack = vec![0x10, 0x11, 0x40];
    stack.extend(sites);
    stack.extend([0x1000, 0x1001, 0x1002]);
    stack
}

fn start_stack(site: usize) -> Vec<usize> {
    vec![0x10, 0x11, 0x500, site, 0x1000, 0x1001, 0x1002]
}

fn has_frame(report: &Report, part: &str) -> bool {
    report.json.ftbl.iter().any(|f| f.contains(part))
}

fn sorted_by_total_bytes(report: &Report) -> Vec<&PpInfoJson> {
    let mut pps: Vec<&PpInfoJson> = report.json.pps.iter().collect();
    pps.sort_by_key(|pp| pp.tb);
    pps.reverse();
    pps
}

#[test]
fn ad_hoc_main() {
    let mut phase = Phase::new();

    // Ignored because profiling hasn't started yet.
    ad_hoc_event(&mut phase, &ad_hoc_stack(&[0xb34]), 3);

    let mem = {
        let mut profiler = Profiler::builder()
            .ad_hoc()
            .trim_backtraces(Some(usize::MAX))
            .eprint_json()
            .build(&mut phase, &start_stack(0xb30), 1_000_000)
            .unwrap();

        let stats = AdHocStats::get(&phase).unwrap();
        assert_eq!(stats.total_events, 0);
        assert_eq!(stats.total_units, 0);

        ad_hoc_event(&mut phase, &ad_hoc_stack(&[0xb34]), 100);
        // f1 calls f2, which registers two events, then registers one itself.
        ad_hoc_event(&mut phase, &ad_hoc_stack(&[0xb05, 0xb10, 0xb35]), 1);
        ad_hoc_event(&mut phase, &ad_hoc_stack(&[0xb06, 0xb10, 0xb35]), 2);
        ad_hoc_event(&mut phase, &ad_hoc_stack(&[0xb11, 0xb35]), 3);

        // This should have no effect, because we're ad hoc profiling.
        Alloc.on_alloc(&mut phase, 0x7000, 100, &heap_stack(&[0xb35]), 1_500_000);

        let stats = AdHocStats::get(&phase).unwrap();
        assert_eq!(stats.total_events, 4);
        assert_eq!(stats.total_units, 106);

        let resolved = resolve(phase.take_backtraces());
        profiler
            .drop_and_get_memory_output(
                &mut phase,
                3_000_000,
                resolved,
                "target/debug/deps/ad_hoc-0123".to_string(),
                4242,
            )
            .unwrap()
    };

    // Ignored because profiling has finished.
    ad_hoc_event(&mut phase, &ad_hoc_stack(&[0xb34]), 5);
    assert!(matches!(phase, Phase::Ready));

    // Check basics.
    let v = &mem.json;
    assert_eq!(v.dhatFileVersion, 2);
    assert_eq!(v.mode, "rust-ad-hoc");
    assert_eq!(v.verb, "Allocated");
    assert_eq!(v.bklt, false);
    assert_eq!(v.bkacc, false);
    assert_eq!(v.bu, Some("unit"));
    assert_eq!(v.bsu, Some("units"));
    assert_eq!(v.bksu, Some("events"));
    assert_eq!(v.tu, "µs");
    assert_eq!(v.Mtu, "s");
    assert_eq!(v.tuth, None);
    assert!(v.cmd.contains("ad_hoc"));
    assert_eq!(v.pid, 4242);
    assert_eq!(v.te, 2_000);
    assert_eq!(v.tg, None);

    // Order PPs by "tb" field.
    let pps = sorted_by_total_bytes(&mem);
    assert_eq!(pps.len(), 4);
    // main, f1 (second), f2 (second), f2 (first)
    for (pp, tb) in pps.iter().zip([100, 3, 2, 1]) {
        assert_eq!(pp.tb, tb);
        assert_eq!(pp.tbk, 1);
        assert_eq!(pp.tl, None);
        assert_eq!(pp.mb, None);
        assert_eq!(pp.mbk, None);
        assert_eq!(pp.gb, None);
        assert_eq!(pp.gbk, None);
        assert_eq!(pp.eb, None);
        assert_eq!(pp.ebk, None);
    }
    let text = |i: usize| mem.json.ftbl[i].as_str();
    assert_eq!(pps[0].fs.len(), 2);
    assert_eq!(text(pps[0].fs[0]), "0x40: dhat::ad_hoc_event (dhat-rs/src/lib.rs:1322:18)");
    assert_eq!(text(pps[0].fs[1]), "0xb34: ad_hoc::main (dhat-rs/tests/ad-hoc.rs:34:9)");
    assert_eq!(pps[3].fs.len(), 4);
    assert_eq!(pps[3].fs[0], pps[0].fs[0]);
    assert_eq!(text(pps[3].fs[1]), "0xb05: ad_hoc::f2 (dhat-rs/tests/ad-hoc.rs:5:5)");
    assert_eq!(pps[3].fs[2], pps[2].fs[2]);
    assert_eq!(pps[3].fs[3], pps[1].fs[2]);

    assert_eq!(mem.json.ftbl[0], "[root]");
    assert!(has_frame(&mem, "dhat::ad_hoc_event"));
    assert!(has_frame(&mem, "ad_hoc::f2 (dhat-rs/tests/ad-hoc.rs:5:5)"));
    assert!(has_frame(&mem, "ad_hoc::f2 (dhat-rs/tests/ad-hoc.rs:6:5)"));
    assert!(has_frame(&mem, "ad_hoc::f1 (dhat-rs/tests/ad-hoc.rs:10:5)"));
    assert!(has_frame(&mem, "ad_hoc::f1 (dhat-rs/tests/ad-hoc.rs:11:5)"));
    assert!(has_frame(&mem, "ad_hoc::main (dhat-rs/tests/ad-hoc.rs:34:9)"));
    assert!(has_frame(&mem, "ad_hoc::main (dhat-rs/tests/ad-hoc.rs:35:9)"));
    // Every distinct frame once, after `[root]`.
    assert_eq!(mem.json.ftbl.len(), 8);

    // This stuff should be removed by backtrace trimming.
    assert!(!has_frame(&mem, "backtrace::"));
    assert!(!has_frame(&mem, "lang_start::"));
    assert!(!has_frame(&mem, "call_once::"));
    assert!(!has_frame(&mem, "catch_unwind::"));
    assert!(!has_frame(&mem, "panic"));

    assert_eq!(mem.summary, ["dhat: Total:     106 units in 4 events"]);
    assert_eq!(mem.saved, "dhat: The data has been saved to the memory buffer");
    assert_eq!(mem.file_name, "dhat-ad-hoc.json");
    assert!(mem.eprint_json);

    // A trivial second profiler in the same run, albeit a heap profiler.
    let _profiler = Profiler::new_heap(&mut phase, &start_stack(0xb90), 4_000_000).unwrap();
}

#[test]
fn heap_main() {
    let mut phase = Phase::new();
    let alloc = Alloc;

    // Allocated before heap profiling starts.
    let (v1, v2, v3, v4) = (0x1000, 0x2000, 0x3000, 0x4000);
    for v in [v1, v2, v3, v4] {
        alloc.on_alloc(&mut phase, v, 16, &heap_stack(&[0xa30]), 1);
    }

    let mem = {
        let mut profiler = Profiler::builder()
            .trim_backtraces(Some(usize::MAX))
            .eprint_json()
            .build(&mut phase, &start_stack(0xa20), 1_000_000)
            .unwrap();

        // Things allocated beforehand aren't counted.
        let stats = HeapStats::get(&phase).unwrap();
        assert_eq!(stats.total_blocks, 0);
        assert_eq!(stats.total_bytes, 0);
        assert_eq!(stats.curr_blocks, 0);
        assert_eq!(stats.curr_bytes, 0);
        assert_eq!(stats.max_blocks, 0);
        assert_eq!(stats.max_bytes, 0);

        // Allocated before, freed during.
        alloc.on_dealloc(&mut phase, v1, 16, 1_100_000);

        // Allocated before, reallocated during. Treated like a fresh alloc.
        let v3 = 0x3800;
        alloc.on_realloc(&mut phase, 0x3000, 16, v3, 32, &heap_stack(&[0x30, 0xa35]), 1_200_000);

        // Allocated during, reallocated/dropped during.
        let v5 = 0x5000;
        alloc.on_alloc(&mut phase, v5, 1000, &heap_stack(&[0xa38]), 1_300_000);
        let v6 = 0x6000;
        alloc.on_alloc(&mut phase, v6, 200, &heap_stack(&[0xa39]), 1_400_000);
        // global peak
        alloc.on_realloc(&mut phase, v6, 200, v6, 400, &heap_stack(&[0xa40]), 1_500_000);
        alloc.on_dealloc(&mut phase, v5, 1000, 1_600_000);

        for i in 0..10 {
            let v7 = 0x7000 + i;
            alloc.on_alloc(&mut phase, v7, 1, &heap_stack(&[0xa49]), 1_700_000);
            alloc.on_dealloc(&mut phase, v7, 1, 1_700_000);
        }

        let stats = HeapStats::get(&phase).unwrap();
        assert_eq!(stats.total_blocks, 14);
        assert_eq!(stats.total_bytes, 1642);
        assert_eq!(stats.curr_blocks, 2);
        assert_eq!(stats.curr_bytes, 432);
        assert_eq!(stats.max_blocks, 3);
        assert_eq!(stats.max_bytes, 1432);

        alloc.on_dealloc(&mut phase, v6, 400, 1_800_000);
        let resolved = resolve(phase.take_backtraces());
        profiler
            .drop_and_get_memory_output(
                &mut phase,
                2_000_500,
                resolved,
                "target/debug/deps/heap-0123 --nocapture".to_string(),
                77,
            )
            .unwrap()
    };

    // Allocated before, freed after.
    alloc.on_dealloc(&mut phase, v2, 16, 3_000_000);

    // Allocated before, reallocated after.
    alloc.on_realloc(&mut phase, v4, 16, 0x4800, 32, &heap_stack(&[0xa60]), 3_000_000);
    assert!(matches!(phase, Phase::Ready));

    // Check basics.
    let v = &mem.json;
    assert_eq!(v.dhatFileVersion, 2);
    assert_eq!(v.mode, "rust-heap");
    assert_eq!(v.verb, "Allocated");
    assert_eq!(v.bklt, true);
    assert_eq!(v.bkacc, false);
    assert_eq!(v.bu, None);
    assert_eq!(v.bsu, None);
    assert_eq!(v.bksu, None);
    assert_eq!(v.tu, "µs");
    assert_eq!(v.Mtu, "s");
    assert_eq!(v.tuth, Some(10));
    assert!(v.cmd.contains("heap"));
    assert_eq!(v.pid, 77);
    assert_eq!(v.tg, Some(500));
    assert_eq!(v.te, 1_000);

    // Order PPs by "tb" field.
    let pps = sorted_by_total_bytes(&mem);
    assert_eq!(pps.len(), 4);

    // v5
    let pp0 = pps[0];
    assert_eq!(pp0.tb, 1000);
    assert_eq!(pp0.tbk, 1);
    assert_eq!(pp0.tl, Some(300));
    assert_eq!(pp0.mb, Some(1000));
    assert_eq!(pp0.mbk, Some(1));
    assert_eq!(pp0.gb, Some(1000));
    assert_eq!(pp0.gbk, Some(1));
    assert_eq!(pp0.eb, Some(0));
    assert_eq!(pp0.ebk, Some(0));

    // v6
    let pp1 = pps[1];
    assert_eq!(pp1.tb, 600);
    assert_eq!(pp1.tbk, 2);
    assert_eq!(pp1.tl, Some(300));
    assert_eq!(pp1.mb, Some(400));
    assert_eq!(pp1.mbk, Some(1));
    assert_eq!(pp1.gb, Some(400));
    assert_eq!(pp1.gbk, Some(1));
    assert_eq!(pp1.eb, Some(0));
    assert_eq!(pp1.ebk, Some(0));

    // v3
    let pp2 = pps[2];
    assert_eq!(pp2.tb, 32);
    assert_eq!(pp2.tbk, 1);
    assert_eq!(pp2.tl, Some(800));
    assert_eq!(pp2.mb, Some(32));
    assert_eq!(pp2.mbk, Some(1));
    assert_eq!(pp2.gb, Some(32));
    assert_eq!(pp2.gbk, Some(1));
    assert_eq!(pp2.eb, Some(32));
    assert_eq!(pp2.ebk, Some(1));

    // _v7
    let pp3 = pps[3];
    assert_eq!(pp3.tb, 10);
    assert_eq!(pp3.tbk, 10);
    assert_eq!(pp3.tl, Some(0));
    assert_eq!(pp3.mb, Some(1));
    assert_eq!(pp3.mbk, Some(1));
    assert_eq!(pp3.gb, Some(0));
    assert_eq!(pp3.gbk, Some(0));
    assert_eq!(pp3.eb, Some(0));
    assert_eq!(pp3.ebk, Some(0));

    // Look for parts of some expected frames.
    assert_eq!(mem.json.ftbl[0], "[root]");
    assert!(has_frame(&mem, "alloc::vec::Vec<T,A>::push"));
    assert!(has_frame(&mem, "heap::main (dhat-rs/tests/heap.rs:35:9)")); // v3
    assert!(has_frame(&mem, "heap::main (dhat-rs/tests/heap.rs:38:18)")); // v5
    assert!(has_frame(&mem, "heap::main (dhat-rs/tests/heap.rs:39:22)")); // v6
    assert!(has_frame(&mem, "heap::main (dhat-rs/tests/heap.rs:49:22)")); // _v7
    // The reallocation of v6 was counted against the site that allocated it.
    assert!(!has_frame(&mem, "heap.rs:40"));

    // Only one allocation-related frame is shown at the top of each stack.
    let text = |i: usize| mem.json.ftbl[i].as_str();
    let allocate = "0x22: <alloc::alloc::Global as core::alloc::Allocator>::allocate \
                    (alloc/src/alloc.rs:243:9)";
    assert_eq!(pp2.fs.len(), 3);
    assert_eq!(text(pp2.fs[0]), allocate);
    assert_eq!(text(pp2.fs[1]), "0x30: alloc::vec::Vec<T,A>::push (src/vec/mod.rs:1833:13)");
    assert_eq!(text(pp2.fs[2]), "0xa35: heap::main (dhat-rs/tests/heap.rs:35:9)");
    assert_eq!(pp0.fs.len(), 2);
    assert_eq!(pp0.fs[0], pp2.fs[0]);

    // This stuff should be removed by backtrace trimming.
    assert!(!has_frame(&mem, "backtrace::"));
    assert!(!has_frame(&mem, "alloc::alloc::Global::alloc_impl"));
    assert!(!has_frame(&mem, "<dhat::Alloc as core::alloc::global::GlobalAlloc>"));
    assert!(!has_frame(&mem, "__rg_"));
    assert!(!has_frame(&mem, "lang_start::"));
    assert!(!has_frame(&mem, "call_once::"));
    assert!(!has_frame(&mem, "catch_unwind::"));
    assert!(!has_frame(&mem, "panic"));

    assert_eq!(
        mem.summary,
        [
            "dhat: Total:     1,642 bytes in 14 blocks",
            "dhat: At t-gmax: 1,432 bytes in 3 blocks",
            "dhat: At t-end:  32 bytes in 1 blocks",
        ]
    );
    assert_eq!(mem.file_name, "dhat-heap.json");

    // A trivial second profiler in the same run, albeit an ad hoc profiler.
    let _profiler = Profiler::new_ad_hoc(&mut phase, &start_stack(0xa90), 4_000_000).unwrap();
}

#[test]
fn a_report_for_a_file_says_where_it_is_saved() {
    let mut phase = Phase::new();
    let mut profiler = Profiler::builder()
        .file_name("out/heap-7.json".to_string())
        .build(&mut phase, &start_stack(0xa20), 0)
        .unwrap();
    for i in 0..6 {
        Alloc.on_alloc(&mut phase, 0x7000 + i * 0x400, 1_234_567, &heap_stack(&[0xa38]), 5);
    }
    let resolved = resolve(phase.take_backtraces());
    let g = profiler.drop_inner(&mut phase).unwrap();
    let report = g.finish(10, resolved, String::new(), 1, false);

    assert_eq!(
        report.summary,
        [
            "dhat: Total:     7,407,402 bytes in 6 blocks",
            "dhat: At t-gmax: 7,407,402 bytes in 6 blocks",
            "dhat: At t-end:  7,407,402 bytes in 6 blocks",
        ]
    );
    assert_eq!(
        report.saved,
        "dhat: The data has been saved to out/heap-7.json, and is viewable with \
         dhat/dh_view.html"
    );
    assert_eq!(report.file_name, "out/heap-7.json");
    assert!(!report.eprint_json);
    // At the end, at a peak: the counts of the PP are those at the global peak.
    assert_eq!(report.json.pps[0].gb, Some(7_407_402));
    assert_eq!(report.json.pps[0].gbk, Some(6));
    assert_eq!(report.json.pps[0].tl, Some(0));
    assert_eq!(report.json.tg, Some(0));
    assert_eq!(report.json.te, 0);
}

#[test]
fn lifetimes_are_summed_in_nanoseconds_and_reported_in_microseconds() {
    let mut phase = Phase::new();
    let mut profiler = Profiler::new_heap(&mut phase, &start_stack(0xa20), 0).unwrap();
    // Three blocks of one site, each alive for 600 ns.
    for i in 0..3 {
        Alloc.on_alloc(&mut phase, 0x7000 + i, 8, &heap_stack(&[0xa38]), 1_000 * i as u64);
    }
    Alloc.on_dealloc(&mut phase, 0x7000, 8, 600);
    Alloc.on_dealloc(&mut phase, 0x7001, 8, 1_600);
    let resolved = resolve(phase.take_backtraces());
    let report = profiler.drop_inner(&mut phase).unwrap().finish(
        2_600,
        resolved,
        String::new(),
        1,
        true,
    );
    assert_eq!(report.json.pps[0].tl, Some(1));
    assert_eq!(report.json.pps[0].ebk, Some(1));
    assert_eq!(report.json.te, 2);
}

#[test]
fn without_trimming_every_symbol_is_shown() {
    let mut phase = Phase::new();
    let mut profiler = Profiler::builder()
        .trim_backtraces(None)
        .build(&mut phase, &start_stack(0xa20), 0)
        .unwrap();
    let stack = heap_stack(&[0xa38]);
    Alloc.on_alloc(&mut phase, 0x7000, 8, &stack, 5);
    let resolved = resolve(phase.take_backtraces());
    let report =
        profiler.drop_inner(&mut phase).unwrap().finish(10, resolved, String::new(), 1, true);

    // Eleven symbols in nine frames, all distinct.
    assert_eq!(report.json.pps[0].fs, (1..=11).collect::<Vec<usize>>());
    assert_eq!(report.json.ftbl.len(), 12);
    assert!(has_frame(&report, "backtrace::"));
    assert!(has_frame(&report, "__rg_alloc (???:???:???)"));
    assert!(has_frame(&report, "catch_unwind::"));
}

#[test]
fn frame_text() {
    let frame = Frame { ip: 0x10ae2fe20, symbols: vec![] };
    let main = symbol("dhatter::main", "/home/me/dhatter/src/main.rs", 8, 5);
    assert_eq!(
        frame_to_string(&frame, &main),
        "0x10ae2fe20: dhatter::main (dhatter/src/main.rs:8:5)"
    );

    let nothing = Symbol { name: None, filename: None, lineno: None, colno: None };
    assert_eq!(frame_to_string(&frame, &nothing), "0x10ae2fe20: ??? (???:???:???)");
    assert_eq!(frame_to_string(&Frame { ip: 0, symbols: vec![] }, &nothing), "0x0: ??? (???:???:???)");

    // A line without a column, and a column without a line.
    let no_column =
        Symbol { name: Some("f".to_string()), filename: None, lineno: Some(0), colno: None };
    assert_eq!(frame_to_string(&frame, &no_column), "0x10ae2fe20: f (???:0:???)");
    let no_line = Symbol {
        name: None,
        filename: Some("/a/b/./c/d.rs".to_string()),
        lineno: None,
        colno: Some(7),
    };
    assert_eq!(frame_to_string(&frame, &no_line), "0x10ae2fe20: ??? (b/./c/d.rs:???:7)");

    let large = Frame { ip: 0xdead_beef, symbols: vec![] };
    let far = symbol("a::b", "c.rs", 4_294_967_295, 1_000_000);
    assert_eq!(frame_to_string(&large, &far), "0xdeadbeef: a::b (c.rs:4294967295:1000000)");
}

#[test]
fn allocator_names() {
    assert!(has_allocator_name("alloc::alloc::alloc"));
    assert!(has_allocator_name("alloc::alloc::exchange_malloc"));
    assert!(has_allocator_name("<alloc::alloc::Global as core::alloc::Allocator>::grow"));
    assert!(has_allocator_name("<dhat::Alloc as core::alloc::global::GlobalAlloc>::alloc"));
    assert!(has_allocator_name("__rg_realloc"));
    assert!(has_allocator_name("__rg_"));
    assert!(!has_allocator_name("alloc::vec::Vec<T,A>::push"));
    assert!(!has_allocator_name("dhat::Alloc"));
    assert!(!has_allocator_name("__rg"));
    assert!(!has_allocator_name(""));
    assert!(!has_allocator_name("my::alloc::alloc::alloc"));

    assert!(starts_with("abc", ""));
    assert!(starts_with("abc", "abc"));
    assert!(!starts_with("ab", "abc"));
    assert!(starts_with("\u{fc}ber", "\u{fc}b"));
    assert!(!starts_with("\u{fc}ber", "u"));
}

fn resolved_stack(ips: &[usize]) -> Backtrace {
    Backtrace {
        frames: ips.iter().map(|&ip| Frame { ip, symbols: symbols_at(ip) }).collect(),
    }
}

#[test]
fn first_symbol_to_show() {
    // The last symbol of the allocator's side is the first to show.
    let bt = resolved_stack(&[0x20, 0x21, 0x22, 0x30, 0xa35]);
    assert_eq!(bt.first_heap_symbol_to_show(), 4);
    // A symbol of the allocator further down counts too.
    let bt = resolved_stack(&[0x20, 0xa35, 0x21, 0x30]);
    assert_eq!(bt.first_heap_symbol_to_show(), 2);
    // Without such a symbol, all are shown.
    let bt = resolved_stack(&[0x30, 0xa35]);
    assert_eq!(bt.first_heap_symbol_to_show(), 0);
    // Frames without symbols do not count.
    let bt = resolved_stack(&[0x77, 0x78, 0x21, 0x79]);
    assert_eq!(bt.first_heap_symbol_to_show(), 0);
    let bt = resolved_stack(&[0x77, 0x30, 0x21, 0x79]);
    assert_eq!(bt.first_heap_symbol_to_show(), 1);
    assert_eq!(resolved_stack(&[]).first_heap_symbol_to_show(), 0);

    let bt = resolved_stack(&[0x20, 0x21, 0x22, 0x30, 0xa35]);
    assert_eq!(bt.first_ad_hoc_symbol_to_show(), 0);
}

#[test]
fn the_frame_table_holds_every_text_once() {
    let mut table = FrameTable::new();
    assert_eq!(table.ftbl, ["[root]"]);
    assert_eq!(table.intern("a".to_string()), 1);
    assert_eq!(table.intern("b".to_string()), 2);
    assert_eq!(table.intern("a".to_string()), 1);
    assert_eq!(table.intern("[root]".to_string()), 0);
    assert_eq!(table.intern("c".to_string()), 3);
    assert_eq!(table.ftbl, ["[root]", "a", "b", "c"]);

    // Two symbols are skipped, the inlined ones share their frame's pointer.
    let bt = resolved_stack(&[0x20, 0x21, 0x22, 0x30]);
    assert_eq!(frame_indices(&mut table, &bt, 2), [4, 5, 6, 7]);
    assert_eq!(frame_indices(&mut table, &bt, 4), [6, 7]);
    assert_eq!(frame_indices(&mut table, &bt, 6), []);
    assert_eq!(frame_indices(&mut table, &bt, 60), []);
    assert_eq!(table.ftbl.len(), 8);
    assert_eq!(table.ftbl[4], "0x22: alloc::alloc::alloc (alloc/src/alloc.rs:100:9)");
}

#[test]
fn pp_records() {
    let mut phase = Phase::new();
    let _profiler = Profiler::new_heap(&mut phase, &start_stack(0xa20), 0).unwrap();
    Alloc.on_alloc(&mut phase, 0x7000, 3000, &heap_stack(&[0xa38]), 1_000);
    Alloc.on_alloc(&mut phase, 0x8000, 500, &heap_stack(&[0xa38]), 2_000);
    Alloc.on_dealloc(&mut phase, 0x7000, 3000, 9_999_000);
    let pp = match &phase {
        Phase::Running(g) => g.pp_infos[0],
        _ => panic!("no profiler is running"),
    };
    let json = PpInfoJson::new(&pp, vec![3, 1, 2]);
    assert_eq!((json.tb, json.tbk), (3500, 2));
    assert_eq!(json.tl, Some(9_998));
    assert_eq!((json.mb, json.mbk), (Some(3500), Some(2)));
    assert_eq!((json.gb, json.gbk), (Some(3500), Some(2)));
    assert_eq!((json.eb, json.ebk), (Some(500), Some(1)));
    assert_eq!(json.fs, [3, 1, 2]);

    let mut ad_hoc = PpInfo::new_ad_hoc();
    ad_hoc.update_counts_for_ad_hoc_event(12);
    let json = PpInfoJson::new(&ad_hoc, vec![]);
    assert_eq!((json.tb, json.tbk), (12, 1));
    assert_eq!((json.tl, json.mb, json.mbk), (None, None, None));
    assert_eq!((json.gb, json.gbk, json.eb, json.ebk), (None, None, None, None));
    assert!(json.fs.is_empty());
}

#[test]
fn a_report_has_one_record_for_each_call_stack_of_the_run() {
    let mut phase = Phase::new();
    let mut profiler = Profiler::builder()
        .trim_backtraces(Some(usize::MAX))
        .build(&mut phase, &start_stack(0xa20), 0)
        .unwrap();
    // Five sites, each with as many allocations as its number says.
    let sites = [0xa35, 0xa38, 0xa39, 0xa40, 0xa49];
    let mut ptr = 0x7000;
    for (n, site) in sites.iter().enumerate() {
        for _ in 0..=n {
            Alloc.on_alloc(&mut phase, ptr, 10 * (n + 1), &heap_stack(&[*site]), 5);
            ptr += 0x100;
        }
    }
    let totals: Vec<u64> = match &phase {
        Phase::Running(g) => g.pp_infos.iter().map(|pp| pp.total_bytes).collect(),
        _ => panic!("no profiler is running"),
    };
    assert_eq!(totals, [10, 40, 90, 160, 250]);

    let resolved = resolve(phase.take_backtraces());
    let indices: Vec<usize> = resolved.iter().map(|entry| entry.1).collect();
    let mut sorted = indices.clone();
    sorted.sort();
    assert_eq!(sorted, [0, 1, 2, 3, 4]);
    let report =
        profiler.drop_inner(&mut phase).unwrap().finish(10, resolved, String::new(), 1, true);

    // The records stand in the order in which the stacks were handed out, and
    // each is that of its stack's PP.
    assert_eq!(report.json.pps.len(), 5);
    for (pp, idx) in report.json.pps.iter().zip(indices) {
        assert_eq!(pp.tb, totals[idx]);
        assert_eq!(pp.tbk, idx as u64 + 1);
        let site = report.json.ftbl[*pp.fs.last().unwrap()].as_str();
        assert!(site.starts_with(&format!("{:#x}: heap::main", sites[idx])));
    }
}
