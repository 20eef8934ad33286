//! The report of a run, in the shape of the DHAT file format, version 2, and
//! the summary that goes with it.

use crate::backtrace::Backtrace;
use crate::frames::{
    all_symbols, frame_indices, intern_all, last_allocator_symbol,
    lemma_unresolved_has_no_symbols, shown_texts, FrameTable,
};
use crate::globals::{elapsed, Globals, GlobalsView};
use crate::pp::PpInfo;
use crate::text::{commas_text, separate_with_commas};
use vstd::prelude::*;
use vstd::string::StringExecFns;

verus! {

/// One PP of a report, under the names of the file format.
#[derive(Debug)]
pub struct PpInfoJson {
    /// Total bytes and total blocks.
    pub tb: u64,
    pub tbk: u64,
    /// Total lifetimes of the PP's blocks, in microseconds. Heap only.
    pub tl: Option<u128>,
    /// Bytes and blocks at the PP's own peak. Heap only.
    pub mb: Option<usize>,
    pub mbk: Option<usize>,
    /// Bytes and blocks at the global peak. Heap only.
    pub gb: Option<usize>,
    pub gbk: Option<usize>,
    /// Bytes and blocks at the end. Heap only.
    pub eb: Option<usize>,
    pub ebk: Option<usize>,
    /// Frames. Each element is an index into the frame table.
    pub fs: Vec<usize>,
}

/// One PP of a report, as mathematical values.
pub struct PpInfoJsonView {
    pub tb: u64,
    pub tbk: u64,
    pub tl: Option<u128>,
    pub mb: Option<usize>,
    pub mbk: Option<usize>,
    pub gb: Option<usize>,
    pub gbk: Option<usize>,
    pub eb: Option<usize>,
    pub ebk: Option<usize>,
    pub fs: Seq<usize>,
}

impl View for PpInfoJson {
    type V = PpInfoJsonView;

    open spec fn view(&self) -> PpInfoJsonView {
        PpInfoJsonView {
            tb: self.tb,
            tbk: self.tbk,
            tl: self.tl,
            mb: self.mb,
            mbk: self.mbk,
            gb: self.gb,
            gbk: self.gbk,
            eb: self.eb,
            ebk: self.ebk,
            fs: self.fs@,
        }
    }
}

/// Whole microseconds in `nanos` nanoseconds.
pub open spec fn micros(nanos: u128) -> u128 {
    nanos / 1000
}

/// The record of the PP `pp` with the frames `fs`: its heap fields are there
/// exactly when the PP has a heap part.
pub open spec fn pp_json(pp: PpInfo, fs: Seq<usize>) -> PpInfoJsonView {
    match pp.heap {
        Some(h) => PpInfoJsonView {
            tb: pp.total_bytes,
            tbk: pp.total_blocks,
            tl: Some(micros(h.total_lifetimes_duration)),
            mb: Some(h.max_bytes),
            mbk: Some(h.max_blocks),
            gb: Some(h.at_tgmax_bytes),
            gbk: Some(h.at_tgmax_blocks),
            eb: Some(h.curr_bytes),
            ebk: Some(h.curr_blocks),
            fs,
        },
        None => PpInfoJsonView {
            tb: pp.total_bytes,
            tbk: pp.total_blocks,
            tl: None,
            mb: None,
            mbk: None,
            gb: None,
            gbk: None,
            eb: None,
            ebk: None,
            fs,
        },
    }
}

impl PpInfoJson {
    /// The record of the PP `pp_info` with the frames `fs`.
    pub fn new(pp_info: &PpInfo, fs: Vec<usize>) -> (json: PpInfoJson)
        ensures
            json@ == pp_json(*pp_info, fs@),
    {
        if let Some(h) = &pp_info.heap {
            PpInfoJson {
                tb: pp_info.total_bytes,
                tbk: pp_info.total_blocks,
                tl: Some(h.total_lifetimes_duration / 1000),
                mb: Some(h.max_bytes),
                mbk: Some(h.max_blocks),
                gb: Some(h.at_tgmax_bytes),
                gbk: Some(h.at_tgmax_blocks),
                eb: Some(h.curr_bytes),
                ebk: Some(h.curr_blocks),
                fs,
            }
        } else {
            PpInfoJson {
                tb: pp_info.total_bytes,
                tbk: pp_info.total_blocks,
                tl: None,
                mb: None,
                mbk: None,
                gb: None,
                gbk: None,
                eb: None,
                ebk: None,
                fs,
            }
        }
    }
}

/// The index of the first symbol to show of the resolved stack `bt`: with
/// trimming, in a heap profile, the last symbol of the allocator's side;
/// otherwise the first of all.
pub open spec fn first_symbol_to_show(trim: bool, heap: bool, bt: Backtrace) -> int {
    if trim && heap {
        last_allocator_symbol(all_symbols(bt))
    } else {
        0
    }
}

/// The frame table and the PP records that come of the first `k` of the
/// resolved stacks `entries`, each with the index of its PP in `pp_infos`.
pub open spec fn report_frames(
    trim: bool,
    heap: bool,
    pp_infos: Seq<PpInfo>,
    entries: Seq<(Backtrace, usize)>,
    k: int,
) -> (Seq<Seq<char>>, Seq<PpInfoJsonView>)
    decreases k,
{
    if k <= 0 {
        (seq!["[root]"@], Seq::empty())
    } else {
        let (table, pps) = report_frames(trim, heap, pp_infos, entries, k - 1);
        let (bt, pp_info_idx) = entries[k - 1];
        let (table2, fs) = intern_all(
            table,
            shown_texts(all_symbols(bt), first_symbol_to_show(trim, heap, bt)),
        );
        (table2, pps.push(pp_json(pp_infos[pp_info_idx as int], fs)))
    }
}

/// Whether the resolved stacks `entries` can be reported against `pp_infos`:
/// every index names a PP, and the symbols of a stack can be counted.
pub open spec fn reportable(pp_infos: Seq<PpInfo>, entries: Seq<(Backtrace, usize)>) -> bool {
    forall|i: int|
        0 <= i < entries.len() ==> (#[trigger] entries[i]).1 < pp_infos.len() && all_symbols(
            entries[i].0,
        ).len() <= usize::MAX
}

/// What stands for a call stack in the state: its instruction pointers and
/// the index of its PP.
pub open spec fn stack_pair(entry: (Backtrace, usize)) -> (Seq<usize>, usize) {
    (entry.0@, entry.1)
}

/// The call stacks that the table `backtraces` holds, each with the index of
/// its PP.
pub open spec fn stacks_of(backtraces: Map<Seq<usize>, usize>) -> Set<(Seq<usize>, usize)> {
    Set::new(|stack: (Seq<usize>, usize)| backtraces.contains_pair(stack.0, stack.1))
}

/// Whether `entries` holds the call stacks `stacks`, each once, and nothing
/// else.
pub open spec fn holds_each_once(
    stacks: Set<(Seq<usize>, usize)>,
    entries: Seq<(Backtrace, usize)>,
) -> bool {
    &&& forall|i: int|
        0 <= i < entries.len() ==> stacks.contains(stack_pair(#[trigger] entries[i]))
    &&& forall|i: int, j: int|
        0 <= i < j < entries.len() ==> stack_pair(#[trigger] entries[i]) != stack_pair(
            #[trigger] entries[j],
        )
    &&& forall|stack: (Seq<usize>, usize)| #[trigger]
        stacks.contains(stack) ==> exists|i: int|
            0 <= i < entries.len() && stack_pair(#[trigger] entries[i]) == stack
}

impl GlobalsView {
    /// Whether `resolved` is what the run is reported from: every call stack
    /// of the run has been handed out, `resolved` holds each of them once,
    /// with the index of its PP, and nothing else, and the symbols of a stack
    /// can be counted.
    pub open spec fn reports(self, resolved: Seq<(Backtrace, usize)>) -> bool {
        &&& forall|ips: Seq<usize>| !#[trigger] self.backtraces.contains_key(ips)
        &&& holds_each_once(self.handed_out, resolved)
        &&& forall|i: int|
            0 <= i < resolved.len() ==> all_symbols((#[trigger] resolved[i]).0).len()
                <= usize::MAX
    }
}

/// Handing out the call stacks keeps their invariant.
pub proof fn lemma_handed_out_stacks(g: GlobalsView)
    requires
        g.stacks_wf(),
    ensures
        (GlobalsView {
            backtraces: Map::empty(),
            handed_out: g.handed_out.union(stacks_of(g.backtraces)),
            ..g
        }).stacks_wf(),
{
    let after = GlobalsView {
        backtraces: Map::empty(),
        handed_out: g.handed_out.union(stacks_of(g.backtraces)),
        ..g
    };
    assert forall|stack: (Seq<usize>, usize)| #[trigger]
        after.handed_out.contains(stack) implies stack.1 < after.pp_infos.len() by {
        if !g.handed_out.contains(stack) {
            assert(g.backtraces.contains_key(stack.0));
        }
    }
    assert forall|i: int| 0 <= i < after.pp_infos.len() implies #[trigger] after.pp_has_stack(i) by {
        assert(g.pp_has_stack(i));
        let stack = choose|stack: Seq<usize>| #[trigger] g.has_stack(stack, i as usize);
        assert(after.has_stack(stack, i as usize));
    }
    assert forall|a: Seq<usize>, b: Seq<usize>, i: usize|
        #[trigger] after.has_stack(a, i) && #[trigger] after.has_stack(b, i) implies a == b by {
        assert(g.has_stack(a, i) && g.has_stack(b, i));
    }
}

/// Stacks that are held each once are as many as the entries that hold them.
pub proof fn lemma_each_once_len(stacks: Set<(Seq<usize>, usize)>, entries: Seq<(Backtrace, usize)>)
    requires
        holds_each_once(stacks, entries),
    ensures
        stacks.finite(),
        stacks.len() == entries.len(),
{
    let pairs = entries.map_values(|entry: (Backtrace, usize)| stack_pair(entry));
    assert forall|i: int, j: int| 0 <= i < pairs.len() && 0 <= j < pairs.len() && i != j implies pairs[i]
        != pairs[j] by {
        if i < j {
            assert(stack_pair(entries[i]) != stack_pair(entries[j]));
        } else {
            assert(stack_pair(entries[j]) != stack_pair(entries[i]));
        }
    }
    assert forall|stack: (Seq<usize>, usize)| pairs.to_set().contains(stack) <==> stacks.contains(
        stack,
    ) by {
        if stacks.contains(stack) {
            let i = choose|i: int| 0 <= i < entries.len() && stack_pair(#[trigger] entries[i]) == stack;
            assert(pairs[i] == stack);
        }
        if pairs.to_set().contains(stack) {
            let i = choose|i: int| 0 <= i < pairs.len() && pairs[i] == stack;
            assert(stacks.contains(stack_pair(entries[i])));
        }
    }
    assert(pairs.to_set() =~= stacks);
    vstd::seq_lib::seq_to_set_is_finite(pairs);
    pairs.unique_seq_to_set();
}

/// What a run is reported from holds one call stack for each PP.
pub proof fn lemma_one_stack_for_each_pp(g: GlobalsView, resolved: Seq<(Backtrace, usize)>)
    requires
        g.wf(),
        g.reports(resolved),
    ensures
        resolved.len() == g.pp_infos.len(),
        forall|i: int, j: int|
            0 <= i < j < resolved.len() ==> (#[trigger] resolved[i]).1 != (
            #[trigger] resolved[j]).1,
{
    let n = g.pp_infos.len() as int;
    let indices = resolved.map_values(|entry: (Backtrace, usize)| entry.1 as int);
    assert forall|i: int, j: int| 0 <= i < j < resolved.len() implies (#[trigger] resolved[i]).1
        != (#[trigger] resolved[j]).1 by {
        assert(g.handed_out.contains(stack_pair(resolved[i])));
        assert(g.handed_out.contains(stack_pair(resolved[j])));
        assert(stack_pair(resolved[i]) != stack_pair(resolved[j]));
        if resolved[i].1 == resolved[j].1 {
            assert(g.has_stack(resolved[i].0@, resolved[i].1));
            assert(g.has_stack(resolved[j].0@, resolved[i].1));
        }
    }
    assert forall|i: int, j: int| 0 <= i < indices.len() && 0 <= j < indices.len() && i != j implies indices[i]
        != indices[j] by {
        if i < j {
            assert(resolved[i].1 != resolved[j].1);
        } else {
            assert(resolved[j].1 != resolved[i].1);
        }
    }
    assert forall|k: int| indices.to_set().contains(k) <==> vstd::set_lib::set_int_range(
        0,
        n,
    ).contains(k) by {
        if indices.to_set().contains(k) {
            let i = choose|i: int| 0 <= i < indices.len() && indices[i] == k;
            assert(g.handed_out.contains(stack_pair(resolved[i])));
        }
        if 0 <= k < n {
            assert(g.pp_has_stack(k));
            let stack = choose|stack: Seq<usize>| #[trigger] g.has_stack(stack, k as usize);
            assert(!g.backtraces.contains_key(stack));
            assert(g.handed_out.contains((stack, k as usize)));
            let i = choose|i: int|
                0 <= i < resolved.len() && stack_pair(#[trigger] resolved[i]) == (stack, k as usize);
            assert(indices[i] == k);
        }
    }
    assert(indices.to_set() =~= vstd::set_lib::set_int_range(0, n));
    vstd::set_lib::lemma_int_range(0, n);
    indices.unique_seq_to_set();
}

/// The report has one record for each of the stacks it is made from: the
/// record of the stack's PP.
pub proof fn lemma_report_frames_records(
    trim: bool,
    heap: bool,
    pp_infos: Seq<PpInfo>,
    entries: Seq<(Backtrace, usize)>,
    k: int,
)
    requires
        0 <= k <= entries.len(),
    ensures
        report_frames(trim, heap, pp_infos, entries, k).1.len() == k,
        forall|j: int|
            0 <= j < k ==> #[trigger] report_frames(trim, heap, pp_infos, entries, k).1[j]
                == pp_json(
                pp_infos[entries[j].1 as int],
                report_frames(trim, heap, pp_infos, entries, k).1[j].fs,
            ),
    decreases k,
{
    if k > 0 {
        lemma_report_frames_records(trim, heap, pp_infos, entries, k - 1);
    }
}

impl Globals {
    /// Hands out every call stack that the state holds, unresolved, with the
    /// index of its PP, in an order that is not specified. The state keeps
    /// none of them, but for a record of what it has handed out.
    pub fn take_backtraces(&mut self) -> (entries: Vec<(Backtrace, usize)>)
        ensures
            final(self)@ == (GlobalsView {
                backtraces: Map::empty(),
                handed_out: old(self)@.handed_out.union(stacks_of(old(self)@.backtraces)),
                ..old(self)@
            }),
            old(self)@.wf() ==> final(self)@.wf(),
            holds_each_once(stacks_of(old(self)@.backtraces), entries@),
            forall|i: int| 0 <= i < entries@.len() ==> (#[trigger] entries@[i]).0.unresolved(),
            (forall|stack: (Seq<usize>, usize)| !old(self)@.handed_out.contains(stack))
                ==> final(self)@.reports(entries@),
    {
        let ghost held = self@.backtraces;
        let raw = self.backtraces.take().into_entries();
        self.handed_out = Ghost(self.handed_out@.union(stacks_of(held)));
        let mut entries: Vec<(Backtrace, usize)> = Vec::new();
        let mut i: usize = 0;
        while i < raw.len()
            invariant
                0 <= i <= raw.len(),
                entries@.len() == i,
                forall|j: int|
                    0 <= j < i ==> (#[trigger] entries@[j]).0.unresolved() && entries@[j].0@
                        == raw@[j].0@ && entries@[j].1 == raw@[j].1,
            decreases raw.len() - i,
        {
            let bt = Backtrace::from_ips(&raw[i].0);
            entries.push((bt, raw[i].1));
            i += 1;
        }
        proof {
            if old(self)@.wf() {
                lemma_handed_out_stacks(old(self)@);
            }
            if forall|stack: (Seq<usize>, usize)| !old(self)@.handed_out.contains(stack) {
                assert(self@.handed_out =~= stacks_of(held));
            }
            assert forall|i: int| 0 <= i < entries@.len() implies all_symbols(
                (#[trigger] entries@[i]).0,
            ).len() <= usize::MAX by {
                lemma_unresolved_has_no_symbols(entries@[i].0, entries@[i].0.frames@.len() as int);
            }
            assert forall|i: int| 0 <= i < entries@.len() implies stacks_of(held).contains(
                stack_pair(#[trigger] entries@[i]),
            ) by {
                assert(held.contains_pair(raw@[i].0@, raw@[i].1));
            }
            assert forall|i: int, j: int| 0 <= i < j < entries@.len() implies stack_pair(
                #[trigger] entries@[i],
            ) != stack_pair(#[trigger] entries@[j]) by {
                assert(raw@[i].0@ != raw@[j].0@);
            }
            assert forall|stack: (Seq<usize>, usize)| #[trigger]
                stacks_of(held).contains(stack) implies exists|i: int|
                0 <= i < entries@.len() && stack_pair(#[trigger] entries@[i]) == stack by {
                assert(held.contains_key(stack.0));
                let i = choose|i: int| 0 <= i < raw@.len() && (#[trigger] raw@[i]).0@ == stack.0;
                assert(held.contains_pair(raw@[i].0@, raw@[i].1));
                assert(stack_pair(entries@[i]) == stack);
            }
        }
        entries
    }

    /// The PP records and the frame table of the report, from the call stacks
    /// `resolved`, each with the index of its PP.
    pub fn report_frames(&self, resolved: &Vec<(Backtrace, usize)>) -> (r: (
        Vec<PpInfoJson>,
        Vec<String>,
    ))
        requires
            reportable(self@.pp_infos, resolved@),
        ensures
            (r.1@.map_values(|s: String| s@), r.0@.map_values(|p: PpInfoJson| p@)) == report_frames(
                self@.trim_backtraces is Some,
                self@.heap is Some,
                self@.pp_infos,
                resolved@,
                resolved@.len() as int,
            ),
    {
        let trim = self.trim_backtraces.is_some();
        let heap = self.heap.is_some();
        let mut table = FrameTable::new();
        let mut pps: Vec<PpInfoJson> = Vec::new();
        let mut k: usize = 0;
        while k < resolved.len()
            invariant
                0 <= k <= resolved.len(),
                table.wf(),
                trim == (self@.trim_backtraces is Some),
                heap == (self@.heap is Some),
                reportable(self@.pp_infos, resolved@),
                (table@, pps@.map_values(|p: PpInfoJson| p@)) == report_frames(
                    trim,
                    heap,
                    self@.pp_infos,
                    resolved@,
                    k as int,
                ),
            decreases resolved.len() - k,
        {
            let ghost shown_before = pps@.map_values(|p: PpInfoJson| p@);
            let bt = &resolved[k].0;
            let pp_info_idx = resolved[k].1;

            // Trim boring frames at the top of the backtrace.
            let first_symbol_to_show = if trim {
                if heap {
                    bt.first_heap_symbol_to_show()
                } else {
                    bt.first_ad_hoc_symbol_to_show()
                }
            } else {
                0
            };

            // Determine the frame indices for this backtrace. This involves
            // getting the string for each frame and adding a new entry to the
            // table if it hasn't been seen before.
            let fs = frame_indices(&mut table, bt, first_symbol_to_show);
            pps.push(PpInfoJson::new(&self.pp_infos[pp_info_idx], fs));
            assert(pps@.map_values(|p: PpInfoJson| p@) =~= shown_before.push(
                pp_json(self@.pp_infos[pp_info_idx as int], fs@),
            ));
            k += 1;
        }
        (pps, table.ftbl)
    }
}

/// A report in the DHAT file format, version 2. The fields have the names
/// that the format gives them.
#[allow(non_snake_case)]
#[derive(Debug)]
pub struct DhatJson {
    pub dhatFileVersion: u32,
    pub mode: &'static str,
    pub verb: &'static str,
    /// Whether block lifetimes are recorded.
    pub bklt: bool,
    /// Whether block accesses are recorded.
    pub bkacc: bool,
    /// The names of a byte, of bytes and of blocks in ad hoc profiling.
    pub bu: Option<&'static str>,
    pub bsu: Option<&'static str>,
    pub bksu: Option<&'static str>,
    /// The time units.
    pub tu: &'static str,
    pub Mtu: &'static str,
    /// The threshold that tells short-lived blocks from long-lived ones.
    pub tuth: Option<usize>,
    /// The command line of the process.
    pub cmd: String,
    pub pid: u32,
    /// The time of the global peak, in microseconds from the start.
    pub tg: Option<u128>,
    /// The time of the end, in microseconds from the start.
    pub te: u128,
    pub pps: Vec<PpInfoJson>,
    /// The frame table. The entry at index 0 is the special frame `[root]`.
    pub ftbl: Vec<String>,
}

/// What the end of a run hands to the caller: the report, what to say of it
/// on the error stream, and where it is to go.
#[derive(Debug)]
pub struct Report {
    pub json: DhatJson,
    /// The lines of the summary, in order.
    pub summary: Vec<String>,
    /// The line to add once the report has been saved.
    pub saved: String,
    /// The file name for the saved data.
    pub file_name: String,
    /// Whether the report is to be echoed on the error stream.
    pub eprint_json: bool,
}

/// The line of the summary for the totals of the run.
pub open spec fn total_line(g: GlobalsView) -> Seq<char> {
    "dhat: Total:     "@ + commas_text(g.total_bytes as nat) + " "@ + (if g.heap is Some {
        "bytes"@
    } else {
        "units"@
    }) + " in "@ + commas_text(g.total_blocks as nat) + " "@ + (if g.heap is Some {
        "blocks"@
    } else {
        "events"@
    })
}

/// A line of the summary for the counts of the heap at one moment.
pub open spec fn heap_line(label: Seq<char>, bytes: usize, blocks: usize) -> Seq<char> {
    label + commas_text(bytes as nat) + " bytes in "@ + commas_text(blocks as nat) + " blocks"@
}

/// The lines of the summary: the totals and, for a heap profile, the counts
/// at the global peak and at the end.
pub open spec fn summary_lines(g: GlobalsView) -> Seq<Seq<char>> {
    match g.heap {
        Some(h) => seq![
            total_line(g),
            heap_line("dhat: At t-gmax: "@, h.max_bytes, h.max_blocks),
            heap_line("dhat: At t-end:  "@, h.curr_bytes, h.curr_blocks),
        ],
        None => seq![total_line(g)],
    }
}

/// The line that says where the report has been saved.
pub open spec fn saved_line(file_name: Seq<char>, to_memory: bool) -> Seq<char> {
    if to_memory {
        "dhat: The data has been saved to the memory buffer"@
    } else {
        "dhat: The data has been saved to "@ + file_name
            + ", and is viewable with dhat/dh_view.html"@
    }
}

impl Report {
    /// Whether this is the report of the run that ended in the state `g`,
    /// with `now` the time of the end, `resolved` the resolved call stacks of
    /// the run, and `cmd` and `pid` the command line and the id of the
    /// process. The report has one PP record for each call stack that the
    /// state has handed out, which is one for each PP, in the order of
    /// `resolved`.
    pub open spec fn describes(
        self,
        g: GlobalsView,
        now: u64,
        resolved: Seq<(Backtrace, usize)>,
        cmd: Seq<char>,
        pid: u32,
        to_memory: bool,
    ) -> bool {
        let heap = g.heap is Some;
        let json = self.json;
        &&& json.dhatFileVersion == 2
        &&& json.mode@ == (if heap {
            "rust-heap"@
        } else {
            "rust-ad-hoc"@
        })
        &&& json.verb@ == "Allocated"@
        &&& json.bklt == heap
        &&& json.bkacc == false
        &&& heap ==> json.bu is None && json.bsu is None && json.bksu is None
        &&& !heap ==> {
            &&& json.bu matches Some(s) && s@ == "unit"@
            &&& json.bsu matches Some(s) && s@ == "units"@
            &&& json.bksu matches Some(s) && s@ == "events"@
        }
        &&& json.tu@ == "\u{b5}s"@
        &&& json.Mtu@ == "s"@
        &&& json.tuth == (if heap {
            Some(10usize)
        } else {
            None
        })
        &&& json.cmd@ == cmd
        &&& json.pid == pid
        &&& json.tg == (match g.heap {
            Some(h) => Some(micros(elapsed(h.tgmax_instant, g.start_instant) as u128)),
            None => None,
        })
        &&& json.te == micros(elapsed(now, g.start_instant) as u128)
        &&& (json.ftbl@.map_values(|s: String| s@), json.pps@.map_values(|p: PpInfoJson| p@))
            == report_frames(
            g.trim_backtraces is Some,
            heap,
            g.pp_infos,
            resolved,
            resolved.len() as int,
        )
        &&& json.pps@.len() == resolved.len() == g.pp_infos.len()
        &&& g.handed_out.finite() && json.pps@.len() == g.handed_out.len()
        &&& forall|k: int|
            0 <= k < resolved.len() ==> (#[trigger] json.pps@[k])@ == pp_json(
                g.pp_infos[resolved[k].1 as int],
                json.pps@[k].fs@,
            )
        &&& self.summary@.map_values(|s: String| s@) == summary_lines(g)
        &&& self.saved@ == saved_line(g.file_name, to_memory)
        &&& self.file_name@ == g.file_name
        &&& self.eprint_json == g.eprint_json
    }
}

/// The nanoseconds from `earlier` to `now`, in whole microseconds.
fn micros_between(now: u64, earlier: u64) -> (r: u128)
    ensures
        r == micros(elapsed(now, earlier) as u128),
{
    let nanos = if now >= earlier {
        now - earlier
    } else {
        0
    };
    (nanos / 1000) as u128
}

impl Globals {
    /// The lines of the summary of the run.
    pub fn summary(&self) -> (lines: Vec<String>)
        ensures
            lines@.map_values(|s: String| s@) == summary_lines(self@),
    {
        let heap = self.heap.is_some();
        let mut lines: Vec<String> = Vec::new();
        let mut total = String::from_str("dhat: Total:     ");
        total.append(separate_with_commas(self.total_bytes).as_str());
        total.append(" ");
        total.append(
            if heap {
                "bytes"
            } else {
                "units"
            },
        );
        total.append(" in ");
        total.append(separate_with_commas(self.total_blocks).as_str());
        total.append(" ");
        total.append(
            if heap {
                "blocks"
            } else {
                "events"
            },
        );
        lines.push(total);
        if let Some(h) = &self.heap {
            let mut at_tgmax = String::from_str("dhat: At t-gmax: ");
            at_tgmax.append(separate_with_commas(h.max_bytes as u64).as_str());
            at_tgmax.append(" bytes in ");
            at_tgmax.append(separate_with_commas(h.max_blocks as u64).as_str());
            at_tgmax.append(" blocks");
            lines.push(at_tgmax);
            let mut at_tend = String::from_str("dhat: At t-end:  ");
            at_tend.append(separate_with_commas(h.curr_bytes as u64).as_str());
            at_tend.append(" bytes in ");
            at_tend.append(separate_with_commas(h.curr_blocks as u64).as_str());
            at_tend.append(" blocks");
            lines.push(at_tend);
        }
        lines
    }

    /// Finishes the run at the time `now`: brings the counts to the end of
    /// the run and makes the report and its summary.
    ///
    /// `resolved` holds the call stacks of the run with their symbols
    /// resolved: all of them must have been handed out by `take_backtraces`,
    /// and `resolved` holds each of them once, with the index of its PP.
    /// `cmd` and `pid` are the command line and the id of the process.
    /// `to_memory` says that the report goes to memory and not to the file.
    pub fn finish(
        self,
        now: u64,
        resolved: Vec<(Backtrace, usize)>,
        cmd: String,
        pid: u32,
        to_memory: bool,
    ) -> (report: Report)
        requires
            self@.wf(),
            self@.reports(resolved@),
        ensures
            report.describes(self@.finish_counts(now), now, resolved@, cmd@, pid, to_memory),
    {
        let mut g = self;
        g.finish_counts(now);
        proof {
            assert(g@.handed_out == self@.handed_out);
            assert forall|i: int| 0 <= i < resolved@.len() implies (#[trigger] resolved@[i]).1
                < g@.pp_infos.len() by {
                assert(self@.handed_out.contains(stack_pair(resolved@[i])));
            }
            lemma_each_once_len(self@.handed_out, resolved@);
            lemma_one_stack_for_each_pp(self@, resolved@);
            lemma_report_frames_records(
                g@.trim_backtraces is Some,
                g@.heap is Some,
                g@.pp_infos,
                resolved@,
                resolved@.len() as int,
            );
        }
        let (pps, ftbl) = g.report_frames(&resolved);
        proof {
            let records = pps@.map_values(|p: PpInfoJson| p@);
            assert(records.len() == resolved@.len());
            assert forall|k: int| 0 <= k < resolved@.len() implies (#[trigger] pps@[k])@ == pp_json(
                g@.pp_infos[resolved@[k].1 as int],
                pps@[k].fs@,
            ) by {
                assert(records[k] == pps@[k]@);
            }
        }
        let summary = g.summary();
        let is_heap = g.heap.is_some();
        let tg = match &g.heap {
            Some(h) => Some(micros_between(h.tgmax_instant, g.start_instant)),
            None => None,
        };
        let json = DhatJson {
            dhatFileVersion: 2,
            mode: if is_heap {
                "rust-heap"
            } else {
                "rust-ad-hoc"
            },
            verb: "Allocated",
            bklt: is_heap,
            bkacc: false,
            bu: if is_heap {
                None
            } else {
                Some("unit")
            },
            bsu: if is_heap {
                None
            } else {
                Some("units")
            },
            bksu: if is_heap {
                None
            } else {
                Some("events")
            },
            tu: "\u{b5}s",
            Mtu: "s",
            tuth: if is_heap {
                Some(10)
            } else {
                None
            },
            cmd,
            pid,
            tg,
            te: micros_between(now, g.start_instant),
            pps,
            ftbl,
        };
        let saved = if to_memory {
            String::from_str("dhat: The data has been saved to the memory buffer")
        } else {
            let mut saved = String::from_str("dhat: The data has been saved to ");
            saved.append(g.file_name.as_str());
            saved.append(", and is viewable with dhat/dh_view.html");
            saved
        };
        Report { json, summary, saved, file_name: g.file_name, eprint_json: g.eprint_json }
    }
}

} // verus!
