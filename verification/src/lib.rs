//! Heap and ad hoc profiling, as a state machine over plain values.
//!
//! The profiler's whole state is a [`Phase`]. Every operation takes the phase
//! and the facts of one event (an address, a size, the call stack as a list of
//! instruction pointers, a time in nanoseconds) and leaves the phase updated.
//! Capturing stacks, reading the clock, wrapping an allocator and writing the
//! report to a file are the caller's business.
//!
//! # A run
//!
//! - [`Profiler::new_heap`], [`Profiler::new_ad_hoc`] or a
//!   [`ProfilerBuilder`] start a run: `Ready` becomes `Running`.
//! - [`Alloc::on_alloc`], [`Alloc::on_realloc`] and [`Alloc::on_dealloc`]
//!   record what the allocator did; [`ad_hoc_event`] records an ad hoc event.
//!   Each event is counted against the whole run and against its program
//!   point (PP), which is its call stack once trimmed.
//! - [`HeapStats::get`] and [`AdHocStats::get`] read the counts, and
//!   [`check_assert_condition`] checks an assertion on them in testing mode.
//! - [`Profiler::drop_inner`] ends the run: the state is `Ready` again.
//!
//! # The report
//!
//! The end of a run, or a failed assertion, hands out the state of the run as
//! a [`Globals`]. Reporting it takes three steps, of which the second is the
//! caller's: [`Globals::take_backtraces`] hands out the call stacks of the
//! run; the caller resolves their instruction pointers to symbols;
//! [`Globals::finish`] makes the [`Report`], which holds the profile in the
//! shape of the DHAT file format and the lines of the summary.
//!
//! # What is proved
//!
//! Every function states what it returns and how it changes the state, over
//! the mathematical views of the state ([`GlobalsView`], [`PhaseView`]), and
//! is verified against that contract; the module [`laws`] holds what follows
//! for whole runs. The hash tables (module [`maps`]) and the formatting of
//! numbers (module [`text`]) are taken on trust.

pub mod backtrace;
pub mod engine;
pub mod error;
pub mod finish;
pub mod frames;
pub mod globals;
pub mod guard;
pub mod laws;
pub mod maps;
pub mod pp;
pub mod profiler;
pub mod report;
pub mod stats;
pub mod sums;
pub mod text;

pub use backtrace::{Backtrace, Frame, Symbol};
pub use error::LifecycleError;
pub use globals::{Globals, GlobalsView, HeapGlobals, HeapView};
pub use guard::IgnoreAllocs;
pub use maps::{LiveBlock, TB};
pub use pp::{Counts, Delta, HeapPpInfo, PpInfo};
pub use profiler::{
    ad_hoc_event, check_assert_condition, Alloc, Phase, PhaseView, Profiler, ProfilerBuilder,
    ProfilerBuilderView,
};
pub use report::{DhatJson, PpInfoJson, Report};
pub use stats::{AdHocStats, HeapStats};
pub use text::trim_path;
