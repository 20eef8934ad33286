//! The lifecycle of the profiler and its entry points.
//!
//! ```text
//! +---------------> Ready
//! |                   |
//! | Profiler::        | ProfilerBuilder::
//! | drop_inner()      | build()
//! |                   v
//! +---------------- Running
//! |                   |
//! |                   | check_assert_condition()
//! |                   | [if the check fails]
//! |                   v
//! +---------------- PostAssert
//! ```

use crate::backtrace::{new_backtrace_inner, Backtrace};
use crate::error::LifecycleError;
use crate::report::{holds_each_once, stacks_of, Report};
use crate::globals::{Globals, GlobalsView, HeapGlobals, HeapView};
use crate::maps::TrimMap;
use crate::stats::{AdHocStats, HeapStats};
use vstd::prelude::*;
use vstd::string::StringExecFns;

verus! {

/// The whole state of the profiler.
pub enum Phase {
    /// We are ready to start running a `Profiler`.
    Ready,
    /// A `Profiler` is running.
    Running(Globals),
    /// The current `Profiler` has stopped due to an assertion failure, but
    /// hasn't been dropped yet.
    PostAssert,
}

/// The whole state of the profiler, as mathematical values.
#[verifier::ext_equal]
pub enum PhaseView {
    Ready,
    Running(GlobalsView),
    PostAssert,
}

impl View for Phase {
    type V = PhaseView;

    open spec fn view(&self) -> PhaseView {
        match self {
            Phase::Ready => PhaseView::Ready,
            Phase::Running(g) => PhaseView::Running(g@),
            Phase::PostAssert => PhaseView::PostAssert,
        }
    }
}

impl PhaseView {
    /// The state's invariant: that of the running profiler, if there is one.
    pub open spec fn wf(self) -> bool {
        self matches PhaseView::Running(g) ==> g.wf()
    }

    /// Whether a heap profiler is running.
    pub open spec fn is_heap(self) -> bool {
        self matches PhaseView::Running(g) && g.heap is Some
    }

    /// Whether an ad hoc profiler is running.
    pub open spec fn is_ad_hoc(self) -> bool {
        self matches PhaseView::Running(g) && g.heap is None
    }

    /// Whether an allocation that returned `ptr` is recorded: nothing is
    /// unless a heap profiler is running, nor of an allocation that failed.
    pub open spec fn records_alloc(self, ptr: usize) -> bool {
        self.is_heap() && ptr != 0
    }

    /// The state after an allocation of `size` bytes returned `ptr`.
    pub open spec fn on_alloc(self, ptr: usize, size: usize, stack: Seq<usize>, now: u64)
        -> PhaseView {
        if self.records_alloc(ptr) {
            PhaseView::Running(self->Running_0.on_alloc(ptr, size, stack, now))
        } else {
            self
        }
    }

    /// The state after a reallocation of the block of `old_size` bytes at
    /// `old_ptr` to `new_size` bytes returned `new_ptr`.
    pub open spec fn on_realloc(
        self,
        old_ptr: usize,
        old_size: usize,
        new_ptr: usize,
        new_size: usize,
        stack: Seq<usize>,
        now: u64,
    ) -> PhaseView {
        if self.records_alloc(new_ptr) {
            PhaseView::Running(
                self->Running_0.on_realloc(old_ptr, old_size, new_ptr, new_size, stack, now),
            )
        } else {
            self
        }
    }

    /// The state after the block of `size` bytes at `ptr` was freed.
    pub open spec fn on_dealloc(self, ptr: usize, size: usize, now: u64) -> PhaseView {
        if self.is_heap() {
            PhaseView::Running(self->Running_0.on_dealloc(ptr, size, now))
        } else {
            self
        }
    }

    /// The state after an ad hoc event of the given weight.
    pub open spec fn on_ad_hoc_event(self, stack: Seq<usize>, weight: usize) -> PhaseView {
        if self.is_ad_hoc() {
            PhaseView::Running(self->Running_0.on_ad_hoc_event(stack, weight))
        } else {
            self
        }
    }
}

impl Phase {
    /// The state in which no profiler has been created.
    pub fn new() -> (phase: Phase)
        ensures
            phase@ == PhaseView::Ready,
            phase@.wf(),
    {
        Phase::Ready
    }

    /// Whether a heap profiler is running.
    pub fn is_heap(&self) -> (b: bool)
        ensures
            b == self@.is_heap(),
    {
        match self {
            Phase::Running(g) => g.heap.is_some(),
            _ => false,
        }
    }

    /// Whether an ad hoc profiler is running.
    pub fn is_ad_hoc(&self) -> (b: bool)
        ensures
            b == self@.is_ad_hoc(),
    {
        match self {
            Phase::Running(g) => g.heap.is_none(),
            _ => false,
        }
    }

    /// Hands out every call stack that the running profiler holds, unresolved,
    /// with the index of its PP, in an order that is not specified. The state
    /// keeps none of them, but for a record of what it has handed out.
    /// Without a running profiler there are none.
    pub fn take_backtraces(&mut self) -> (entries: Vec<(Backtrace, usize)>)
        requires
            old(self)@.wf(),
        ensures
            final(self)@.wf(),
            forall|i: int| 0 <= i < entries@.len() ==> (#[trigger] entries@[i]).0.unresolved(),
            match old(self)@ {
                PhaseView::Running(g) => {
                    &&& final(self)@ == PhaseView::Running(
                        GlobalsView {
                            backtraces: Map::empty(),
                            handed_out: g.handed_out.union(stacks_of(g.backtraces)),
                            ..g
                        },
                    )
                    &&& holds_each_once(stacks_of(g.backtraces), entries@)
                    &&& (forall|stack: (Seq<usize>, usize)| !g.handed_out.contains(stack))
                        ==> final(self)@->Running_0.reports(entries@)
                },
                _ => final(self)@ == old(self)@ && entries@.len() == 0,
            },
    {
        match self {
            Phase::Running(g) => g.take_backtraces(),
            _ => Vec::new(),
        }
    }
}

/// A global allocator's view of the profiler: what is to be recorded of each
/// call that the wrapped allocator has answered.
#[derive(Debug)]
pub struct Alloc;

impl Alloc {
    /// Records that an allocation of `size` bytes returned `ptr`, with `stack`
    /// the full call stack and `now` the time in nanoseconds. A null `ptr`
    /// changes nothing.
    pub fn on_alloc(&self, phase: &mut Phase, ptr: usize, size: usize, stack: &Vec<usize>, now: u64)
        requires
            old(phase)@.wf(),
            old(phase)@.records_alloc(ptr) ==> {
                &&& old(phase)@->Running_0.has_room(size)
                &&& !old(phase)@->Running_0.heap->0.live_blocks.contains_key(ptr)
            },
        ensures
            final(phase)@ == old(phase)@.on_alloc(ptr, size, stack@, now),
            ptr == 0 ==> final(phase)@ == old(phase)@,
            final(phase)@.wf(),
    {
        if ptr == 0 {
            return ;
        }
        match phase {
            Phase::Running(g) => {
                if g.heap.is_some() {
                    g.on_alloc(ptr, size, stack, now);
                }
            },
            _ => {},
        }
    }

    /// Records that a reallocation of the block of `old_size` bytes at
    /// `old_ptr` to `new_size` bytes returned `new_ptr`. A null `new_ptr`
    /// changes nothing.
    pub fn on_realloc(
        &self,
        phase: &mut Phase,
        old_ptr: usize,
        old_size: usize,
        new_ptr: usize,
        new_size: usize,
        stack: &Vec<usize>,
        now: u64,
    )
        requires
            old(phase)@.wf(),
            old(phase)@.records_alloc(new_ptr) ==> old(phase)@->Running_0.can_realloc(
                old_ptr,
                old_size,
                new_ptr,
                new_size,
            ),
        ensures
            final(phase)@ == old(phase)@.on_realloc(
                old_ptr,
                old_size,
                new_ptr,
                new_size,
                stack@,
                now,
            ),
            new_ptr == 0 ==> final(phase)@ == old(phase)@,
            final(phase)@.wf(),
    {
        if new_ptr == 0 {
            return ;
        }
        match phase {
            Phase::Running(g) => {
                if g.heap.is_some() {
                    g.on_realloc(old_ptr, old_size, new_ptr, new_size, stack, now);
                }
            },
            _ => {},
        }
    }

    /// Records that the block of `size` bytes at `ptr` was freed at the time
    /// `now`.
    pub fn on_dealloc(&self, phase: &mut Phase, ptr: usize, size: usize, now: u64)
        requires
            old(phase)@.wf(),
            old(phase)@.is_heap() ==> old(phase)@->Running_0.can_dealloc(ptr, size),
        ensures
            final(phase)@ == old(phase)@.on_dealloc(ptr, size, now),
            final(phase)@.wf(),
    {
        match phase {
            Phase::Running(g) => {
                if g.heap.is_some() {
                    g.on_dealloc(ptr, size, now);
                }
            },
            _ => {},
        }
    }
}

/// Registers an event during ad hoc profiling, with `stack` the full call
/// stack of the event.
///
/// The meaning of the weight argument is determined by the user. A call to
/// this function has no effect if a profiler is not running or not doing ad
/// hoc profiling.
pub fn ad_hoc_event(phase: &mut Phase, stack: &Vec<usize>, weight: usize)
    requires
        old(phase)@.wf(),
        old(phase)@.is_ad_hoc() ==> old(phase)@->Running_0.has_room(weight),
    ensures
        final(phase)@ == old(phase)@.on_ad_hoc_event(stack@, weight),
        final(phase)@.wf(),
{
    match phase {
        Phase::Running(g) => {
            if g.heap.is_none() {
                g.on_ad_hoc_event(stack, weight);
            }
        },
        _ => {},
    }
}

impl HeapStats {
    /// Gets the current heap stats.
    ///
    /// It is an error to ask when a profiler is not running or not doing heap
    /// profiling.
    pub fn get(phase: &Phase) -> (r: Result<HeapStats, LifecycleError>)
        ensures
            r == (match phase@ {
                PhaseView::Ready => Err::<HeapStats, LifecycleError>(
                    LifecycleError::HeapStatsNotRunning,
                ),
                PhaseView::Running(g) => if g.heap is Some {
                    Ok(g.heap_stats())
                } else {
                    Err(LifecycleError::HeapStatsWhileAdHoc)
                },
                PhaseView::PostAssert => Err(LifecycleError::HeapStatsAfterAssert),
            }),
    {
        match phase {
            Phase::Ready => Err(LifecycleError::HeapStatsNotRunning),
            Phase::Running(g) => g.get_heap_stats(),
            Phase::PostAssert => Err(LifecycleError::HeapStatsAfterAssert),
        }
    }
}

impl AdHocStats {
    /// Gets the current ad hoc stats.
    ///
    /// It is an error to ask when a profiler is not running or not doing ad
    /// hoc profiling.
    pub fn get(phase: &Phase) -> (r: Result<AdHocStats, LifecycleError>)
        ensures
            r == (match phase@ {
                PhaseView::Ready => Err::<AdHocStats, LifecycleError>(
                    LifecycleError::AdHocStatsNotRunning,
                ),
                PhaseView::Running(g) => if g.heap is None {
                    Ok(g.ad_hoc_stats())
                } else {
                    Err(LifecycleError::AdHocStatsWhileHeap)
                },
                PhaseView::PostAssert => Err(LifecycleError::AdHocStatsAfterAssert),
            }),
    {
        match phase {
            Phase::Ready => Err(LifecycleError::AdHocStatsNotRunning),
            Phase::Running(g) => g.get_ad_hoc_stats(),
            Phase::PostAssert => Err(LifecycleError::AdHocStatsAfterAssert),
        }
    }
}

/// A type whose lifetime dictates the start and end of profiling.
///
/// Profiling starts when a value of this type is built. It stops when the
/// value is dropped with `drop_inner` or when an assertion fails, whichever
/// comes first. Only one `Profiler` can be running at any point in time.
#[derive(Debug)]
pub struct Profiler;

/// A builder for `Profiler`, for cases beyond the basic ones provided by
/// `Profiler`.
///
/// Created with `Profiler::builder`.
#[derive(Debug)]
pub struct ProfilerBuilder {
    ad_hoc: bool,
    testing: bool,
    file_name: Option<String>,
    trim_backtraces: Option<usize>,
    eprint_json: bool,
}

/// The settings of a `ProfilerBuilder`, as mathematical values.
#[verifier::ext_equal]
pub struct ProfilerBuilderView {
    pub ad_hoc: bool,
    pub testing: bool,
    pub file_name: Option<Seq<char>>,
    pub trim_backtraces: Option<usize>,
    pub eprint_json: bool,
}

impl ProfilerBuilderView {
    /// The settings that a builder starts with: heap profiling, not testing,
    /// the default file name, at most ten frames for each backtrace.
    pub open spec fn initial() -> ProfilerBuilderView {
        ProfilerBuilderView {
            ad_hoc: false,
            testing: false,
            file_name: None,
            trim_backtraces: Some(10),
            eprint_json: false,
        }
    }

    /// The name of the file for the saved data: the one that was set, or the
    /// default one of the kind of profiling.
    pub open spec fn output_file(self) -> Seq<char> {
        match self.file_name {
            Some(name) => name,
            None => if !self.ad_hoc {
                "dhat-heap.json"@
            } else {
                "dhat-ad-hoc.json"@
            },
        }
    }

    /// The state of the profiler that these settings start, at the time `now`
    /// and with `start_stack` the full call stack at that moment.
    pub open spec fn start(self, start_stack: Seq<usize>, now: u64) -> GlobalsView {
        GlobalsView {
            file_name: self.output_file(),
            testing: self.testing,
            trim_backtraces: self.trim_backtraces,
            eprint_json: self.eprint_json,
            start_bt: start_stack,
            frames_to_trim: None,
            start_instant: now,
            pp_infos: Seq::empty(),
            backtraces: Map::empty(),
            handed_out: Set::empty(),
            total_blocks: 0,
            total_bytes: 0,
            heap: if !self.ad_hoc {
                Some(HeapView::empty(now))
            } else {
                None
            },
        }
    }
}

/// The limit on the frames of a backtrace that a request for `max_frames`
/// sets: limits under 4 count as 4.
pub open spec fn clamped_frames(max_frames: Option<usize>) -> Option<usize> {
    match max_frames {
        Some(m) => Some(
            if m < 4 {
                4
            } else {
                m
            },
        ),
        None => None,
    }
}

/// A profiler without blocks or events is well-formed.
pub proof fn lemma_start_wf(b: ProfilerBuilderView, start_stack: Seq<usize>, now: u64)
    ensures
        b.start(start_stack, now).wf(),
{
    let g = b.start(start_stack, now);
    if g.heap is Some {
        let h = g.heap->0;
        let nothing = Set::<usize>::empty();
        let zero = |a: usize|
            if nothing.contains(a) {
                1nat
            } else {
                0nat
            };
        crate::sums::lemma_sum_all_of_indicator(nothing, zero);
        crate::sums::lemma_sum_all_le(
            |a: usize| crate::globals::bytes_at(h.live_blocks, h.sizes, a),
            zero,
        );
    }
}

impl View for ProfilerBuilder {
    type V = ProfilerBuilderView;

    closed spec fn view(&self) -> ProfilerBuilderView {
        ProfilerBuilderView {
            ad_hoc: self.ad_hoc,
            testing: self.testing,
            file_name: match self.file_name {
                Some(name) => Some(name@),
                None => None,
            },
            trim_backtraces: self.trim_backtraces,
            eprint_json: self.eprint_json,
        }
    }
}

impl ProfilerBuilder {
    /// Requests ad hoc profiling.
    pub fn ad_hoc(self) -> (b: ProfilerBuilder)
        ensures
            b@ == (ProfilerBuilderView { ad_hoc: true, ..self@ }),
    {
        let mut b = self;
        b.ad_hoc = true;
        b
    }

    /// Requests testing mode, which allows the use of
    /// `check_assert_condition`, and disables the report when the profiler is
    /// dropped.
    pub fn testing(self) -> (b: ProfilerBuilder)
        ensures
            b@ == (ProfilerBuilderView { testing: true, ..self@ }),
    {
        let mut b = self;
        b.testing = true;
        b
    }

    /// Sets the name of the file in which profiling data will be saved.
    pub fn file_name(self, file_name: String) -> (b: ProfilerBuilder)
        ensures
            b@ == (ProfilerBuilderView { file_name: Some(file_name@), ..self@ }),
    {
        let mut b = self;
        b.file_name = Some(file_name);
        b
    }

    /// Sets how backtrace trimming is performed.
    ///
    /// - `None`: no backtrace trimming will be performed, and there is no
    ///   frame count limit.
    /// - `Some(n)`: top and bottom trimming will be performed, and the number
    ///   of frames will be limited by `n`. Values of `n` less than 4 will be
    ///   clamped to 4.
    /// - `Some(usize::MAX)`: top and bottom trimming will be performed, but
    ///   there is no frame count limit.
    ///
    /// The default value (used if this function is not called) is `Some(10)`.
    pub fn trim_backtraces(self, max_frames: Option<usize>) -> (b: ProfilerBuilder)
        ensures
            b@ == (ProfilerBuilderView { trim_backtraces: clamped_frames(max_frames), ..self@ }),
    {
        let mut b = self;
        b.trim_backtraces = match max_frames {
            Some(m) => Some(
                if m < 4 {
                    4
                } else {
                    m
                },
            ),
            None => None,
        };
        b
    }

    /// Requests that the report be echoed to the error stream when it is
    /// saved. Useful for seeing what went wrong if a test fails.
    pub fn eprint_json(self) -> (b: ProfilerBuilder)
        ensures
            b@ == (ProfilerBuilderView { eprint_json: true, ..self@ }),
    {
        let mut b = self;
        b.eprint_json = true;
        b
    }

    /// Creates a `Profiler` from the builder and initiates profiling, at the
    /// time `now` and with `start_stack` the full call stack at that moment.
    ///
    /// It is an error to build a profiler unless the state is `Ready`.
    pub fn build(self, phase: &mut Phase, start_stack: &Vec<usize>, now: u64) -> (r: Result<
        Profiler,
        LifecycleError,
    >)
        requires
            old(phase)@.wf(),
        ensures
            old(phase)@ is Ready ==> r is Ok && final(phase)@ == PhaseView::Running(
                self@.start(start_stack@, now),
            ),
            !(old(phase)@ is Ready) ==> r == Err::<Profiler, LifecycleError>(
                LifecycleError::AlreadyRunning,
            ) && final(phase)@ == old(phase)@,
            final(phase)@.wf(),
    {
        match phase {
            Phase::Ready => {
                let file_name = if let Some(file_name) = self.file_name {
                    file_name
                } else if !self.ad_hoc {
                    String::from_str("dhat-heap.json")
                } else {
                    String::from_str("dhat-ad-hoc.json")
                };
                let h = if !self.ad_hoc {
                    Some(HeapGlobals::new(now))
                } else {
                    None
                };
                // No frame trimming for the backtrace at startup.
                let nothing = TrimMap::new();
                let start_bt = new_backtrace_inner(start_stack, None, &nothing);
                proof {
                    lemma_start_wf(self@, start_stack@, now);
                }
                *phase = Phase::Running(
                    Globals::new(
                        self.testing,
                        file_name,
                        self.trim_backtraces,
                        self.eprint_json,
                        h,
                        start_bt,
                        now,
                    ),
                );
                Ok(Profiler)
            },
            _ => Err(LifecycleError::AlreadyRunning),
        }
    }
}

impl Profiler {
    /// Initiates allocation profiling, at the time `now` and with `start_stack`
    /// the full call stack at that moment.
    ///
    /// It is an error if another `Profiler` is running.
    pub fn new_heap(phase: &mut Phase, start_stack: &Vec<usize>, now: u64) -> (r: Result<
        Profiler,
        LifecycleError,
    >)
        requires
            old(phase)@.wf(),
        ensures
            old(phase)@ is Ready ==> r is Ok && final(phase)@ == PhaseView::Running(
                ProfilerBuilderView::initial().start(start_stack@, now),
            ),
            !(old(phase)@ is Ready) ==> r == Err::<Profiler, LifecycleError>(
                LifecycleError::AlreadyRunning,
            ) && final(phase)@ == old(phase)@,
            final(phase)@.wf(),
    {
        Self::builder().build(phase, start_stack, now)
    }

    /// Initiates ad hoc profiling, at the time `now` and with `start_stack` the
    /// full call stack at that moment.
    ///
    /// It is an error if another `Profiler` is running.
    pub fn new_ad_hoc(phase: &mut Phase, start_stack: &Vec<usize>, now: u64) -> (r: Result<
        Profiler,
        LifecycleError,
    >)
        requires
            old(phase)@.wf(),
        ensures
            old(phase)@ is Ready ==> r is Ok && final(phase)@ == PhaseView::Running(
                (ProfilerBuilderView { ad_hoc: true, ..ProfilerBuilderView::initial() }).start(
                    start_stack@,
                    now,
                ),
            ),
            !(old(phase)@ is Ready) ==> r == Err::<Profiler, LifecycleError>(
                LifecycleError::AlreadyRunning,
            ) && final(phase)@ == old(phase)@,
            final(phase)@.wf(),
    {
        Self::builder().ad_hoc().build(phase, start_stack, now)
    }

    /// Creates a new `ProfilerBuilder`, which defaults to heap profiling.
    pub fn builder() -> (b: ProfilerBuilder)
        ensures
            b@ == ProfilerBuilderView::initial(),
    {
        ProfilerBuilder {
            ad_hoc: false,
            testing: false,
            file_name: None,
            trim_backtraces: Some(10),
            eprint_json: false,
        }
    }

    /// Ends profiling as `drop_inner` does, and where the run is to be
    /// reported finishes it at the time `now`, with the report going to
    /// memory.
    ///
    /// `resolved` holds the call stacks of the run with their symbols
    /// resolved: all of them must have been handed out by
    /// `Phase::take_backtraces`, and `resolved` holds each of them once, with
    /// the index of its PP. `cmd` and `pid` are the command line and the id of
    /// the process.
    pub fn drop_and_get_memory_output(
        &mut self,
        phase: &mut Phase,
        now: u64,
        resolved: Vec<(Backtrace, usize)>,
        cmd: String,
        pid: u32,
    ) -> (memory_output: Option<Report>)
        requires
            old(phase)@.wf(),
            !(old(phase)@ is Ready),
            old(phase)@ is Running && !old(phase)@->Running_0.testing ==> old(
                phase,
            )@->Running_0.reports(resolved@),
        ensures
            final(phase)@ is Ready,
            match memory_output {
                Some(report) => old(phase)@ is Running && !old(phase)@->Running_0.testing
                    && report.describes(
                    old(phase)@->Running_0.finish_counts(now),
                    now,
                    resolved@,
                    cmd@,
                    pid,
                    true,
                ),
                None => old(phase)@ is PostAssert || (old(phase)@ is Running && old(
                    phase,
                )@->Running_0.testing),
            },
    {
        match self.drop_inner(phase) {
            Some(g) => Some(g.finish(now, resolved, cmd, pid, true)),
            None => None,
        }
    }

    /// Ends profiling: the state is `Ready` again. What is handed back is the
    /// state of the run that is to be reported: that of a profiler that was
    /// running, unless it was in testing mode. After a failed assertion there
    /// is nothing left to report.
    pub fn drop_inner(&mut self, phase: &mut Phase) -> (finished: Option<Globals>)
        requires
            !(old(phase)@ is Ready),
        ensures
            final(phase)@ is Ready,
            match finished {
                Some(g) => old(phase)@ == PhaseView::Running(g@) && !g@.testing,
                None => old(phase)@ is PostAssert || (old(phase)@ is Running && old(
                    phase,
                )@->Running_0.testing),
            },
    {
        let mut taken = Phase::Ready;
        core::mem::swap(phase, &mut taken);
        match taken {
            Phase::Running(g) => {
                if !g.testing {
                    Some(g)
                } else {
                    None
                }
            },
            _ => None,
        }
    }
}

/// Checks an assertion of a profiler in testing mode, where `cond` says
/// whether what is asserted holds.
///
/// `Ok(None)`: it holds. `Ok(Some(g))`: it does not; the state is now
/// `PostAssert`, and `g` is the state of the run, to be reported at once. It is
/// an error to assert unless a profiler in testing mode is running; `cond` is
/// not called then.
pub fn check_assert_condition<F>(phase: &mut Phase, cond: F) -> (r: Result<
    Option<Globals>,
    LifecycleError,
>) where F: FnOnce() -> bool
    requires
        call_requires(cond, ()),
    ensures
        old(phase)@.wf() ==> final(phase)@.wf(),
        match old(phase)@ {
            PhaseView::Ready => r matches Err(e) && e == LifecycleError::AssertNotRunning
                && final(phase)@ == old(phase)@,
            PhaseView::PostAssert => r matches Err(e) && e == LifecycleError::AssertAfterAssert
                && final(phase)@ == old(phase)@,
            PhaseView::Running(g) => if !g.testing {
                r matches Err(e) && e == LifecycleError::AssertNotTesting && final(phase)@ == old(
                    phase,
                )@
            } else {
                match r {
                    Ok(None) => call_ensures(cond, (), true) && final(phase)@ == old(phase)@,
                    Ok(Some(failed)) => call_ensures(cond, (), false) && final(phase)@
                        is PostAssert && failed@ == g,
                    Err(_) => false,
                }
            },
        },
{
    // The test is made here (as opposed to by the caller) so that it is
    // always detected if the profiler isn't running.
    match phase {
        Phase::Ready => {
            return Err(LifecycleError::AssertNotRunning);
        },
        Phase::Running(g) => {
            if !g.testing {
                return Err(LifecycleError::AssertNotTesting);
            }
            if cond() {
                return Ok(None);
            }
        },
        Phase::PostAssert => {
            return Err(LifecycleError::AssertAfterAssert);
        },
    }

    // Failure.
    let mut taken = Phase::PostAssert;
    core::mem::swap(phase, &mut taken);
    match taken {
        Phase::Running(g) => Ok(Some(g)),
        _ => Err(LifecycleError::AssertNotRunning),
    }
}

} // verus!
