//! The four hash tables of the profiler. Each is an `FxHashMap` of the
//! `rustc_hash` crate, held behind a handful of methods whose contracts are
//! taken on trust from the documentation of `std::collections::HashMap`, of
//! which `FxHashMap` is an alias with another hasher.

use rustc_hash::FxHashMap;
use vstd::prelude::*;

verus! {

/// What is recorded of a live block.
#[derive(Clone, Copy, Debug)]
pub struct LiveBlock {
    /// The index of the PP that allocated this block.
    pub pp_info_idx: usize,
    /// When the block was allocated, in nanoseconds.
    pub allocation_instant: u64,
}

/// Whether an instruction pointer is elided at the top or at the bottom of a
/// captured stack.
#[derive(Clone, Copy, Debug)]
pub enum TB {
    Top,
    Bottom,
}

impl TB {
    /// Whether `self` and `other` are the same variant.
    pub fn same(&self, other: TB) -> (r: bool)
        ensures
            r == (*self == other),
    {
        match (*self, other) {
            (TB::Top, TB::Top) => true,
            (TB::Bottom, TB::Bottom) => true,
            _ => false,
        }
    }
}

/// The live blocks, by address: an `FxHashMap` from the address of a block
/// to what is recorded of it.
#[verifier::external_body]
pub struct LiveBlocks {
    map: FxHashMap<usize, LiveBlock>,
}

/// The entries of a `LiveBlocks` table.
pub uninterp spec fn live_blocks_of(m: LiveBlocks) -> Map<usize, LiveBlock>;

impl LiveBlocks {
    /// `FxHashMap::default`: a table without entries.
    #[verifier::external_body]
    pub(crate) fn new() -> (m: LiveBlocks)
        ensures
            (live_blocks_of(m) == Map::<usize, LiveBlock>::empty()),
    {
        LiveBlocks { map: FxHashMap::default() }
    }

    /// `HashMap::insert`: the table maps `ptr` to `block` and is otherwise
    /// unchanged; the entry that `ptr` had before, if any, is returned.
    #[verifier::external_body]
    pub(crate) fn insert(&mut self, ptr: usize, block: LiveBlock) -> (prev: Option<LiveBlock>)
        ensures
            live_blocks_of(*final(self)) == live_blocks_of(*old(self)).insert(ptr, block),
            prev == (if live_blocks_of(*old(self)).contains_key(ptr) {
                Some(live_blocks_of(*old(self))[ptr])
            } else {
                None
            }),
    {
        self.map.insert(ptr, block)
    }

    /// `HashMap::remove`: the table no longer has an entry for `ptr` and is
    /// otherwise unchanged; the entry that `ptr` had, if any, is returned.
    #[verifier::external_body]
    pub(crate) fn remove(&mut self, ptr: usize) -> (prev: Option<LiveBlock>)
        ensures
            live_blocks_of(*final(self)) == live_blocks_of(*old(self)).remove(ptr),
            prev == (if live_blocks_of(*old(self)).contains_key(ptr) {
                Some(live_blocks_of(*old(self))[ptr])
            } else {
                None
            }),
    {
        self.map.remove(&ptr)
    }

    /// `HashMap::contains_key`: whether `ptr` has an entry.
    #[verifier::external_body]
    pub(crate) fn contains_key(&self, ptr: usize) -> (b: bool)
        ensures
            b == live_blocks_of(*self).contains_key(ptr),
    {
        self.map.contains_key(&ptr)
    }

    /// `HashMap::len`: the number of entries.
    #[verifier::external_body]
    pub(crate) fn len(&self) -> (n: usize)
        ensures
            n == live_blocks_of(*self).dom().len(),
    {
        self.map.len()
    }

    /// `HashMap::iter`, collected: every entry once, in an order that is not
    /// specified.
    #[verifier::external_body]
    pub(crate) fn entries(&self) -> (entries: Vec<(usize, LiveBlock)>)
        ensures
            forall|i: int|
                0 <= i < entries@.len() ==> live_blocks_of(*self).contains_pair(
                    (#[trigger] entries@[i]).0,
                    entries@[i].1,
                ),
            forall|i: int, j: int|
                0 <= i < j < entries@.len() ==> (#[trigger] entries@[i]).0 != (
                #[trigger] entries@[j]).0,
            forall|ptr: usize| #[trigger]
                live_blocks_of(*self).contains_key(ptr) ==> exists|i: int|
                    0 <= i < entries@.len() && (#[trigger] entries@[i]).0 == ptr,
    {
        self.map.iter().map(|(ptr, block)| (*ptr, *block)).collect()
    }
}

/// The instruction pointers to elide from captured stacks: an `FxHashMap`
/// from an instruction pointer to its mark.
#[verifier::external_body]
pub struct TrimMap {
    map: FxHashMap<usize, TB>,
}

/// The entries of a `TrimMap`.
pub uninterp spec fn trim_map_of(m: TrimMap) -> Map<usize, TB>;

impl TrimMap {
    /// `FxHashMap::default`: a table without entries.
    #[verifier::external_body]
    pub(crate) fn new() -> (m: TrimMap)
        ensures
            (trim_map_of(m) == Map::<usize, TB>::empty()),
    {
        TrimMap { map: FxHashMap::default() }
    }

    /// `HashMap::insert`: the table maps `ip` to `tb` and is otherwise
    /// unchanged.
    #[verifier::external_body]
    pub(crate) fn insert(&mut self, ip: usize, tb: TB)
        ensures
            trim_map_of(*final(self)) == trim_map_of(*old(self)).insert(ip, tb),
    {
        self.map.insert(ip, tb);
    }

    /// `HashMap::get`: the entry of `ip`, if it has one.
    #[verifier::external_body]
    pub(crate) fn get(&self, ip: usize) -> (tb: Option<TB>)
        ensures
            tb == (if trim_map_of(*self).contains_key(ip) {
                Some(trim_map_of(*self)[ip])
            } else {
                None
            }),
    {
        self.map.get(&ip).copied()
    }

    /// `HashMap::retain`: the entries whose value is `keep` stay, the others
    /// leave.
    #[verifier::external_body]
    pub(crate) fn retain(&mut self, keep: TB)
        ensures
            (trim_map_of(*final(self)) == Map::<usize, TB>::new(
                |ip: usize|
                    trim_map_of(*old(self)).contains_key(ip) && trim_map_of(*old(self))[ip]
                        == keep,
                |ip: usize| keep,
            )),
    {
        self.map.retain(|_, tb| tb.same(keep));
    }
}

/// The index of the PP of each call stack seen so far: an `FxHashMap` from
/// the instruction pointers of a stack to the index.
#[verifier::external_body]
pub struct BacktraceMap {
    map: FxHashMap<Vec<usize>, usize>,
}

/// The entries of a `BacktraceMap`.
pub uninterp spec fn backtrace_map_of(m: BacktraceMap) -> Map<Seq<usize>, usize>;

impl BacktraceMap {
    /// `FxHashMap::default`: a table without entries.
    #[verifier::external_body]
    pub(crate) fn new() -> (m: BacktraceMap)
        ensures
            (backtrace_map_of(m) == Map::<Seq<usize>, usize>::empty()),
    {
        BacktraceMap { map: FxHashMap::default() }
    }

    /// `HashMap::get`: the entry of the stack `ips`, if it has one.
    #[verifier::external_body]
    pub(crate) fn get(&self, ips: &Vec<usize>) -> (idx: Option<usize>)
        ensures
            idx == (if backtrace_map_of(*self).contains_key(ips@) {
                Some(backtrace_map_of(*self)[ips@])
            } else {
                None
            }),
    {
        self.map.get(ips).copied()
    }

    /// `HashMap::insert`: the table maps the stack `ips` to `idx` and is
    /// otherwise unchanged.
    #[verifier::external_body]
    pub(crate) fn insert(&mut self, ips: Vec<usize>, idx: usize)
        ensures
            backtrace_map_of(*final(self)) == backtrace_map_of(*old(self)).insert(ips@, idx),
    {
        self.map.insert(ips, idx);
    }

    /// `HashMap::len`: the number of entries.
    #[verifier::external_body]
    pub(crate) fn len(&self) -> (n: usize)
        ensures
            n == backtrace_map_of(*self).dom().len(),
    {
        self.map.len()
    }

    /// `std::mem::take`: the table is left empty, and what it held is handed
    /// out as a table of its own.
    #[verifier::external_body]
    pub(crate) fn take(&mut self) -> (taken: BacktraceMap)
        ensures
            backtrace_map_of(taken) == backtrace_map_of(*old(self)),
            (backtrace_map_of(*final(self)) == Map::<Seq<usize>, usize>::empty()),
    {
        BacktraceMap { map: std::mem::take(&mut self.map) }
    }

    /// `HashMap::into_iter`, collected: every entry once, in an order that is
    /// not specified.
    #[verifier::external_body]
    pub(crate) fn into_entries(self) -> (entries: Vec<(Vec<usize>, usize)>)
        ensures
            forall|i: int|
                0 <= i < entries@.len() ==> backtrace_map_of(self).contains_pair(
                    (#[trigger] entries@[i]).0@,
                    entries@[i].1,
                ),
            forall|i: int, j: int|
                0 <= i < j < entries@.len() ==> (#[trigger] entries@[i]).0@ != (
                #[trigger] entries@[j]).0@,
            forall|ips: Seq<usize>| #[trigger]
                backtrace_map_of(self).contains_key(ips) ==> exists|i: int|
                    0 <= i < entries@.len() && (#[trigger] entries@[i]).0@ == ips,
    {
        self.map.into_iter().collect()
    }
}

/// The index of each frame text in the frame table of a report: an
/// `FxHashMap` from the text to the index.
#[verifier::external_body]
pub struct FrameIndices {
    map: FxHashMap<String, usize>,
}

/// The entries of a `FrameIndices` table.
pub uninterp spec fn frame_indices_of(m: FrameIndices) -> Map<Seq<char>, usize>;

impl FrameIndices {
    /// `FxHashMap::default`: a table without entries.
    #[verifier::external_body]
    pub(crate) fn new() -> (m: FrameIndices)
        ensures
            (frame_indices_of(m) == Map::<Seq<char>, usize>::empty()),
    {
        FrameIndices { map: FxHashMap::default() }
    }

    /// `HashMap::get`: the entry of the string `frame`, if it has one.
    #[verifier::external_body]
    pub(crate) fn get(&self, frame: &String) -> (idx: Option<usize>)
        ensures
            idx == (if frame_indices_of(*self).contains_key(frame@) {
                Some(frame_indices_of(*self)[frame@])
            } else {
                None
            }),
    {
        self.map.get(frame).copied()
    }

    /// `HashMap::insert`: the table maps the string `frame` to `idx` and is
    /// otherwise unchanged.
    #[verifier::external_body]
    pub(crate) fn insert(&mut self, frame: String, idx: usize)
        ensures
            frame_indices_of(*final(self)) == frame_indices_of(*old(self)).insert(frame@, idx),
    {
        self.map.insert(frame, idx);
    }
}

} // verus!
