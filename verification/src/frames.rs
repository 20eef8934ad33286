//! The frames of a report: which symbols of a resolved stack are shown, and
//! the table that gives every distinct frame text one index.

use crate::backtrace::{Backtrace, Frame, Symbol};
use crate::maps::{frame_indices_of, FrameIndices};
use crate::text::{frame_text, frame_to_string, starts_with};
use vstd::prelude::*;
use vstd::string::StringExecFns;

verus! {

/// The first `j` symbols of the frame `f`, each with the frame's instruction
/// pointer.
pub open spec fn frame_symbols(f: Frame, j: int) -> Seq<(usize, Symbol)>
    decreases j,
{
    if j <= 0 {
        Seq::empty()
    } else {
        frame_symbols(f, j - 1).push((f.ip, f.symbols@[j - 1]))
    }
}

/// The symbols of the first `k` frames, in order.
pub open spec fn symbols_upto(frames: Seq<Frame>, k: int) -> Seq<(usize, Symbol)>
    decreases k,
{
    if k <= 0 {
        Seq::empty()
    } else {
        symbols_upto(frames, k - 1) + frame_symbols(frames[k - 1], frames[k - 1].symbols@.len() as int)
    }
}

/// All symbols of a resolved stack, in order, each with its frame's
/// instruction pointer.
pub open spec fn all_symbols(bt: Backtrace) -> Seq<(usize, Symbol)> {
    symbols_upto(bt.frames@, bt.frames@.len() as int)
}

/// Whether a function of this name belongs to the allocator's side of an
/// allocation.
pub open spec fn is_allocator_name(name: Seq<char>) -> bool {
    ||| "alloc::alloc::"@.is_prefix_of(name)
    ||| "<alloc::alloc::"@.is_prefix_of(name)
    ||| "<dhat::Alloc"@.is_prefix_of(name)
    ||| "__rg_"@.is_prefix_of(name)
}

/// Whether the symbol has a name, and one of the allocator's side.
pub open spec fn is_allocator_symbol(symbol: Symbol) -> bool {
    symbol.name matches Some(name) && is_allocator_name(name@)
}

/// The index of the last symbol that belongs to the allocator's side; 0 if
/// there is none.
pub open spec fn last_allocator_symbol(symbols: Seq<(usize, Symbol)>) -> int
    decreases symbols.len(),
{
    if symbols.len() == 0 {
        0
    } else if is_allocator_symbol(symbols.last().1) {
        symbols.len() - 1
    } else {
        last_allocator_symbol(symbols.drop_last())
    }
}

/// The texts of the symbols from the one at `first` on.
pub open spec fn shown_texts(symbols: Seq<(usize, Symbol)>, first: int) -> Seq<Seq<char>> {
    if first >= symbols.len() {
        Seq::empty()
    } else {
        symbols.skip(first).map_values(|s: (usize, Symbol)| frame_text(s.0, s.1))
    }
}

/// The frame table and the indices that come of looking up `texts` one after
/// the other in `table`, each text that the table does not hold being added
/// at its end.
pub open spec fn intern_all(table: Seq<Seq<char>>, texts: Seq<Seq<char>>) -> (Seq<Seq<char>>, Seq<usize>)
    decreases texts.len(),
{
    if texts.len() == 0 {
        (table, Seq::empty())
    } else {
        let (t, fs) = intern_all(table, texts.drop_last());
        if t.contains(texts.last()) {
            (t, fs.push(t.index_of(texts.last()) as usize))
        } else {
            (t.push(texts.last()), fs.push(t.len() as usize))
        }
    }
}

/// A frame's first `j` symbols are `j` symbols.
pub proof fn lemma_frame_symbols_len(f: Frame, j: int)
    requires
        0 <= j,
    ensures
        frame_symbols(f, j).len() == j,
    decreases j,
{
    if j > 0 {
        lemma_frame_symbols_len(f, j - 1);
    }
}

/// Fewer frames have no more symbols.
pub proof fn lemma_symbols_upto_len(frames: Seq<Frame>, k: int, n: int)
    requires
        0 <= k <= n,
    ensures
        symbols_upto(frames, k).len() <= symbols_upto(frames, n).len(),
    decreases n - k,
{
    if k < n {
        lemma_symbols_upto_len(frames, k, n - 1);
    }
}

/// An unresolved stack has no symbols.
pub proof fn lemma_unresolved_has_no_symbols(bt: Backtrace, k: int)
    requires
        bt.unresolved(),
        0 <= k <= bt.frames@.len(),
    ensures
        symbols_upto(bt.frames@, k).len() == 0,
    decreases k,
{
    if k > 0 {
        lemma_unresolved_has_no_symbols(bt, k - 1);
    }
}

/// Whether a function of this name belongs to the allocator's side of an
/// allocation. Examples of names that do:
/// - `alloc::alloc::{alloc,realloc,exchange_malloc}`
/// - `<alloc::alloc::Global as core::alloc::Allocator>::{allocate,grow}`
/// - `<dhat::Alloc as core::alloc::global::GlobalAlloc>::alloc`
/// - `__rg_{alloc,realloc}`
pub fn has_allocator_name(name: &str) -> (r: bool)
    ensures
        r == is_allocator_name(name@),
{
    starts_with(name, "alloc::alloc::") || starts_with(name, "<alloc::alloc::") || starts_with(
        name,
        "<dhat::Alloc",
    ) || starts_with(name, "__rg_")
}

impl Backtrace {
    /// The first symbol to show of a stack taken while heap profiling.
    ///
    /// The top symbols of such a stack vary with the build and the platform,
    /// and look something like this:
    /// - `<dhat::Alloc as core::alloc::global::GlobalAlloc>::alloc`
    /// - `__rg_alloc`
    /// - `alloc::alloc::alloc`
    /// - `alloc::alloc::Global::alloc_impl`
    /// - `<alloc::alloc::Global as core::alloc::Allocator>::allocate`
    /// - `alloc::alloc::exchange_malloc`
    /// - the allocation point in the program being profiled
    ///
    /// The last symbol that looks like it comes from allocator code is the
    /// first to show; where there is none, all are shown.
    pub fn first_heap_symbol_to_show(&self) -> (first: usize)
        requires
            all_symbols(*self).len() <= usize::MAX,
        ensures
            first == last_allocator_symbol(all_symbols(*self)),
            first <= all_symbols(*self).len(),
    {
        let mut found: usize = 0;
        let mut count: usize = 0;
        let ghost mut visited: Seq<(usize, Symbol)> = Seq::empty();
        let mut k: usize = 0;
        while k < self.frames.len()
            invariant
                0 <= k <= self.frames.len(),
                all_symbols(*self).len() <= usize::MAX,
                visited == symbols_upto(self.frames@, k as int),
                found == last_allocator_symbol(visited),
                found <= visited.len(),
                count == visited.len(),
            decreases self.frames.len() - k,
        {
            let frame = &self.frames[k];
            let mut j: usize = 0;
            let ghost before = visited;
            proof {
                lemma_symbols_upto_len(self.frames@, k + 1, self.frames@.len() as int);
                lemma_frame_symbols_len(*frame, frame.symbols@.len() as int);
            }
            while j < frame.symbols.len()
                invariant
                    0 <= j <= frame.symbols.len(),
                    before.len() + frame.symbols@.len() <= usize::MAX,
                    visited == before + frame_symbols(*frame, j as int),
                    found == last_allocator_symbol(visited),
                    found <= visited.len(),
                    count == visited.len(),
                    count == before.len() + j,
                decreases frame.symbols.len() - j,
            {
                let symbol = &frame.symbols[j];
                let is_match = match &symbol.name {
                    Some(name) => has_allocator_name(name.as_str()),
                    None => false,
                };
                proof {
                    let next = visited.push((frame.ip, *symbol));
                    assert(next.drop_last() =~= visited);
                    visited = next;
                }
                if is_match {
                    found = count;
                }
                count += 1;
                j += 1;
            }
            k += 1;
        }
        found
    }

    /// The first symbol to show of a stack taken while ad hoc profiling.
    ///
    /// The top symbols of such a stack are always the same: the function that
    /// registers the event, then its call site in the program being profiled.
    /// So nothing need be trimmed, and all are shown.
    pub fn first_ad_hoc_symbol_to_show(&self) -> (first: usize)
        ensures
            first == 0,
    {
        0
    }
}

/// The frame table of a report: every distinct frame text once, each at its
/// index.
pub struct FrameTable {
    /// The texts, by index.
    pub ftbl: Vec<String>,
    /// The index of each text.
    pub indices: FrameIndices,
}

impl View for FrameTable {
    type V = Seq<Seq<char>>;

    /// The texts, by index. What `indices` holds is tied to them by `wf`.
    open spec fn view(&self) -> Seq<Seq<char>> {
        self.ftbl@.map_values(|s: String| s@)
    }
}

impl FrameTable {
    /// The table's invariant: the index recorded for a text is where the text
    /// stands.
    pub open spec fn wf(&self) -> bool {
        &&& forall|i: int|
            0 <= i < self@.len() ==> frame_indices_of(self.indices).contains_key(
                #[trigger] self@[i],
            ) && frame_indices_of(self.indices)[self@[i]] == i
        &&& forall|text: Seq<char>| #[trigger]
            frame_indices_of(self.indices).contains_key(text) ==> 0 <= frame_indices_of(
                self.indices,
            )[text] < self@.len() && self@[frame_indices_of(self.indices)[text] as int] == text
    }

    /// The table that holds the special frame `[root]` alone, at index 0.
    pub fn new() -> (table: FrameTable)
        ensures
            table@ == seq!["[root]"@],
            table.wf(),
    {
        let mut ftbl: Vec<String> = Vec::new();
        let mut indices = FrameIndices::new();
        ftbl.push(String::from_str("[root]"));
        indices.insert(String::from_str("[root]"), 0);
        let table = FrameTable { ftbl, indices };
        table
    }

    /// The index of `text`, which is added at the end of the table if the
    /// table does not hold it.
    pub fn intern(&mut self, text: String) -> (idx: usize)
        requires
            old(self).wf(),
        ensures
            final(self).wf(),
            (final(self)@, seq![idx]) == intern_all(old(self)@, seq![text@]),
    {
        let ghost before = self@;
        proof {
            reveal_with_fuel(intern_all, 2);
            if before.contains(text@) {
                let i = choose|i: int| 0 <= i < before.len() && before[i] == text@;
                assert(frame_indices_of(self.indices).contains_key(before[i]));
            }
        }
        match self.indices.get(&text) {
            Some(idx) => {
                idx
            },
            None => {
                let idx = self.ftbl.len();
                self.indices.insert(text.clone(), idx);
                self.ftbl.push(text);
                assert(self@ =~= before.push(text@));
                idx
            },
        }
    }
}

/// Looking up one more text goes on from where the texts before it left off.
pub proof fn lemma_intern_all_push(table: Seq<Seq<char>>, texts: Seq<Seq<char>>, text: Seq<char>)
    ensures
        intern_all(table, texts.push(text)) == ({
            let (t, fs) = intern_all(table, texts);
            let (t2, one) = intern_all(t, seq![text]);
            (t2, fs.push(one[0]))
        }),
{
    let (t, fs) = intern_all(table, texts);
    assert(texts.push(text).drop_last() =~= texts);
    reveal_with_fuel(intern_all, 2);
}

/// The indices in the frame table of the symbols of the resolved stack `bt`
/// that are shown, which are those from the one at `first` on. Texts that the
/// table does not hold yet are added to it.
pub fn frame_indices(table: &mut FrameTable, bt: &Backtrace, first: usize) -> (fs: Vec<usize>)
    requires
        old(table).wf(),
    ensures
        final(table).wf(),
        (final(table)@, fs@) == intern_all(old(table)@, shown_texts(all_symbols(*bt), first as int)),
{
    let ghost start = table@;
    let mut fs: Vec<usize> = Vec::new();
    let mut skipped: usize = 0;
    let ghost mut visited: Seq<(usize, Symbol)> = Seq::empty();
    let mut k: usize = 0;
    while k < bt.frames.len()
        invariant
            0 <= k <= bt.frames.len(),
            table.wf(),
            visited == symbols_upto(bt.frames@, k as int),
            (table@, fs@) == intern_all(start, shown_texts(visited, first as int)),
            skipped <= first,
            skipped < first ==> skipped == visited.len(),
            skipped == first ==> visited.len() >= first,
        decreases bt.frames.len() - k,
    {
        let frame = &bt.frames[k];
        let ghost before = visited;
        let mut j: usize = 0;
        while j < frame.symbols.len()
            invariant
                0 <= j <= frame.symbols.len(),
                table.wf(),
                visited == before + frame_symbols(*frame, j as int),
                (table@, fs@) == intern_all(start, shown_texts(visited, first as int)),
                skipped <= first,
                skipped < first ==> skipped == visited.len(),
                skipped == first ==> visited.len() >= first,
            decreases frame.symbols.len() - j,
        {
            let symbol = &frame.symbols[j];
            let ghost next = visited.push((frame.ip, *symbol));
            if skipped < first {
                skipped += 1;
                proof {
                    if next.len() > first {
                        assert(shown_texts(next, first as int) =~= shown_texts(
                            visited,
                            first as int,
                        ));
                    }
                }
            } else {
                let text = frame_to_string(frame, symbol);
                let ghost shown = shown_texts(visited, first as int);
                proof {
                    assert(shown_texts(next, first as int) =~= shown.push(text@));
                    lemma_intern_all_push(start, shown, text@);
                }
                let idx = table.intern(text);
                fs.push(idx);
            }
            proof {
                visited = next;
            }
            j += 1;
        }
        k += 1;
    }
    fs
}

} // verus!
