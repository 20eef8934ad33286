//! Call stacks: what is captured, how captured stacks are trimmed, and how a
//! resolved frame is shown.

use crate::maps::{trim_map_of, TrimMap, TB};
use vstd::prelude::*;
use vstd::std_specs::cmp::PartialEqSpecImpl;

verus! {

/// What debug information says of one function at an instruction pointer.
/// A missing part is `None`.
#[derive(Clone, Debug)]
pub struct Symbol {
    /// The function's name, without a trailing hash.
    pub name: Option<String>,
    pub filename: Option<String>,
    pub lineno: Option<u32>,
    pub colno: Option<u32>,
}

/// One frame of a call stack. `symbols` is empty until the frame has been
/// resolved; with inlined functions it then holds more than one symbol.
#[derive(Clone, Debug)]
pub struct Frame {
    pub ip: usize,
    pub symbols: Vec<Symbol>,
}

/// A captured call stack, innermost frame first. Two stacks with the same
/// instruction pointers are the same call site.
#[derive(Clone, Debug)]
pub struct Backtrace {
    pub frames: Vec<Frame>,
}

impl View for Backtrace {
    type V = Seq<usize>;

    /// The instruction pointers of the frames: what makes two stacks the
    /// same call site. The symbols of the frames are no part of it; what is
    /// said of them is said over `all_symbols` and `unresolved`.
    open spec fn view(&self) -> Seq<usize> {
        self.frames@.map_values(|f: Frame| f.ip)
    }
}

impl PartialEq for Backtrace {
    /// Whether the two stacks have the same instruction pointers. What has
    /// been resolved of them does not count.
    fn eq(&self, other: &Self) -> (r: bool) {
        if self.frames.len() != other.frames.len() {
            assert(self@.len() != other@.len());
            return false;
        }
        let mut i: usize = 0;
        while i < self.frames.len()
            invariant
                0 <= i <= self.frames.len(),
                self.frames.len() == other.frames.len(),
                forall|j: int| 0 <= j < i ==> self@[j] == other@[j],
            decreases self.frames.len() - i,
        {
            if self.frames[i].ip != other.frames[i].ip {
                assert(self@[i as int] != other@[i as int]);
                return false;
            }
            i += 1;
        }
        assert(self@ =~= other@);
        true
    }
}

impl PartialEqSpecImpl for Backtrace {
    open spec fn obeys_eq_spec() -> bool {
        true
    }

    open spec fn eq_spec(&self, other: &Self) -> bool {
        self@ == other@
    }
}

impl Eq for Backtrace {

}

/// The number of positions from `i` on at which `a` and `b` agree without a
/// break.
pub open spec fn matches_from(a: Seq<usize>, b: Seq<usize>, i: int) -> nat
    decreases a.len() - i,
{
    if 0 <= i < a.len() && i < b.len() && a[i] == b[i] {
        1 + matches_from(a, b, i + 1)
    } else {
        0
    }
}

/// The number of positions, counted from the end and starting `t` before it,
/// at which `a` and `b` agree without a break.
pub open spec fn matches_back(a: Seq<usize>, b: Seq<usize>, t: int) -> nat
    decreases a.len() - t,
{
    if 0 <= t < a.len() && t < b.len() && a[a.len() - 1 - t] == b[b.len() - 1 - t] {
        1 + matches_back(a, b, t + 1)
    } else {
        0
    }
}

/// The length of the longest common prefix of `a` and `b`.
pub open spec fn shared_prefix(a: Seq<usize>, b: Seq<usize>) -> nat {
    matches_from(a, b, 0)
}

/// The length of the longest common suffix of `a` and `b`.
pub open spec fn shared_suffix(a: Seq<usize>, b: Seq<usize>) -> nat {
    matches_back(a, b, 0)
}

/// The length of the shorter of `a` and `b`.
pub open spec fn shorter_len(a: Seq<usize>, b: Seq<usize>) -> int {
    if a.len() <= b.len() {
        a.len() as int
    } else {
        b.len() as int
    }
}

/// The frames of `a` that top trimming elides: the common prefix of `a` and
/// `b`, or nothing where the prefix leaves at most one frame of either stack.
pub open spec fn top_frames(a: Seq<usize>, b: Seq<usize>) -> Seq<usize> {
    if shared_prefix(a, b) + 1 >= shorter_len(a, b) {
        Seq::empty()
    } else {
        a.take(shared_prefix(a, b) as int)
    }
}

/// Whether the common suffix of `a` and `b` leaves at most one frame of either
/// stack, so that bottom trimming is given up.
pub open spec fn bottom_abandoned(a: Seq<usize>, b: Seq<usize>) -> bool {
    shared_suffix(a, b) + 1 >= shorter_len(a, b)
}

/// The frames of `a` that the walk from the bottom marks: the common suffix,
/// or all but one frame of the shorter stack where bottom trimming is given up.
pub open spec fn bottom_frames(a: Seq<usize>, b: Seq<usize>) -> Seq<usize> {
    if bottom_abandoned(a, b) {
        a.skip(a.len() - (shorter_len(a, b) - 1))
    } else {
        a.skip(a.len() - shared_suffix(a, b))
    }
}

/// The instruction pointers to elide from every captured stack, given a
/// first stack `a` taken while profiling and the stack `b` taken at startup.
///
/// The common top frames are marked `Top` and the common bottom frames
/// `Bottom`. Where a walk would use up a whole stack its marks are dropped, and
/// a pointer that both walks marked counts as marked from the bottom.
pub open spec fn frames_to_trim(a: Seq<usize>, b: Seq<usize>) -> Map<usize, TB> {
    if a.len() == 0 || b.len() == 0 {
        Map::empty()
    } else if bottom_abandoned(a, b) {
        Map::new(
            |ip: usize| top_frames(a, b).contains(ip) && !bottom_frames(a, b).contains(ip),
            |ip: usize| TB::Top,
        )
    } else {
        Map::new(
            |ip: usize| top_frames(a, b).contains(ip) || bottom_frames(a, b).contains(ip),
            |ip: usize|
                if bottom_frames(a, b).contains(ip) {
                    TB::Bottom
                } else {
                    TB::Top
                },
        )
    }
}

/// Whether `ip` is marked `Top`.
pub open spec fn is_top(map: Map<usize, TB>, ip: usize) -> bool {
    map.contains_key(ip) && map[ip] == TB::Top
}

/// Whether `ip` is marked `Bottom`.
pub open spec fn is_bottom(map: Map<usize, TB>, ip: usize) -> bool {
    map.contains_key(ip) && map[ip] == TB::Bottom
}

/// The index of the first frame of `stack`, at `i` or after it, that is marked
/// `Bottom`; the stack's length if there is none.
pub open spec fn bottom_from(stack: Seq<usize>, map: Map<usize, TB>, i: int) -> int
    decreases stack.len() - i,
{
    if i < 0 || i >= stack.len() {
        stack.len() as int
    } else if is_bottom(map, stack[i]) {
        i
    } else {
        bottom_from(stack, map, i + 1)
    }
}

/// The most frames that a capture limited to `max_frames` keeps: the first
/// frame is kept whatever the limit.
pub open spec fn frame_limit(max_frames: usize) -> int {
    if max_frames == 0 {
        1
    } else {
        max_frames as int
    }
}

/// What is kept of the full call stack `stack`.
///
/// Without trimming, all of it. With trimming to `max_frames`: the frames
/// above the first one marked `Bottom`, without those marked `Top`, and of
/// these the first `max_frames`.
pub open spec fn captured(stack: Seq<usize>, trim_backtraces: Option<usize>, map: Map<usize, TB>)
    -> Seq<usize> {
    match trim_backtraces {
        None => stack,
        Some(max_frames) => {
            let visible = stack.take(bottom_from(stack, map, 0)).filter(
                |ip: usize| !is_top(map, ip),
            );
            if visible.len() <= frame_limit(max_frames) {
                visible
            } else {
                visible.take(frame_limit(max_frames))
            }
        },
    }
}

/// The first frame marked `Bottom` from `i` on is at `i` or after it.
pub proof fn lemma_bottom_from_bounds(stack: Seq<usize>, map: Map<usize, TB>, i: int)
    requires
        0 <= i <= stack.len(),
    ensures
        i <= bottom_from(stack, map, i) <= stack.len(),
    decreases stack.len() - i,
{
    if i < stack.len() && !is_bottom(map, stack[i]) {
        lemma_bottom_from_bounds(stack, map, i + 1);
    }
}

impl Backtrace {
    /// Whether no frame has been resolved.
    pub open spec fn unresolved(&self) -> bool {
        forall|i: int| 0 <= i < self.frames@.len() ==> (#[trigger] self.frames@[i]).symbols@.len() == 0
    }

    /// The instruction pointers of the frames.
    pub fn ips(&self) -> (ips: Vec<usize>)
        ensures
            ips@ == self@,
    {
        let mut ips: Vec<usize> = Vec::new();
        let mut i: usize = 0;
        while i < self.frames.len()
            invariant
                0 <= i <= self.frames.len(),
                ips@ == self@.take(i as int),
            decreases self.frames.len() - i,
        {
            ips.push(self.frames[i].ip);
            i += 1;
        }
        ips
    }

    /// Works out what to trim from the top and bottom of all stacks, by
    /// comparing this stack, the first one taken while profiling, with the one
    /// taken at startup.
    pub fn get_frames_to_trim(&self, start_bt: &Backtrace) -> (m: TrimMap)
        ensures
            trim_map_of(m) == frames_to_trim(self@, start_bt@),
    {
        let mut marks = TrimMap::new();
        let n1 = self.frames.len();
        let n2 = start_bt.frames.len();
        if n1 == 0 || n2 == 0 {
            return marks;
        }
        let ghost a = self@;
        let ghost b = start_bt@;

        let mut i: usize = 0;
        loop
            invariant_except_break
                0 <= i < n1,
                i < n2,
                shared_prefix(a, b) == i + matches_from(a, b, i as int),
                trim_map_of(marks) == Map::<usize, TB>::new(
                    |ip: usize| a.take(i as int).contains(ip),
                    |ip: usize| TB::Top,
                ),
            invariant
                n1 == self.frames.len() == a.len(),
                n2 == start_bt.frames.len() == b.len(),
                a == self@,
                b == start_bt@,
                n1 > 0,
                n2 > 0,
            ensures
                trim_map_of(marks) == Map::<usize, TB>::new(
                    |ip: usize| top_frames(a, b).contains(ip),
                    |ip: usize| TB::Top,
                ),
            decreases n1 - i,
        {
            if i == n1 - 1 || i == n2 - 1 {
                // Too much similarity between the stacks: abandon top trimming
                // entirely.
                marks.retain(TB::Bottom);
                assert(trim_map_of(marks) =~= Map::<usize, TB>::new(
                    |ip: usize| top_frames(a, b).contains(ip),
                    |ip: usize| TB::Top,
                ));
                break ;
            }
            if self.frames[i].ip != start_bt.frames[i].ip {
                assert(trim_map_of(marks) =~= Map::<usize, TB>::new(
                    |ip: usize| top_frames(a, b).contains(ip),
                    |ip: usize| TB::Top,
                ));
                break ;
            }
            marks.insert(self.frames[i].ip, TB::Top);
            proof {
                let next = a.take(i + 1);
                assert forall|ip: usize| next.contains(ip) <==> (a.take(i as int).contains(ip)
                    || ip == a[i as int]) by {
                    if a.take(i as int).contains(ip) {
                        let j = choose|j: int| 0 <= j < i && a.take(i as int)[j] == ip;
                        assert(next[j] == ip);
                    }
                    if ip == a[i as int] {
                        assert(next[i as int] == ip);
                    }
                }
                assert(trim_map_of(marks) =~= Map::<usize, TB>::new(
                    |ip: usize| next.contains(ip),
                    |ip: usize| TB::Top,
                ));
            }
            i += 1;
        }

        let ghost top = top_frames(a, b);
        let mut t: usize = 0;
        loop
            invariant_except_break
                0 <= t < n1,
                t < n2,
                shared_suffix(a, b) == t + matches_back(a, b, t as int),
                trim_map_of(marks) == Map::<usize, TB>::new(
                    |ip: usize| top.contains(ip) || a.skip(n1 - t).contains(ip),
                    |ip: usize|
                        if a.skip(n1 - t).contains(ip) {
                            TB::Bottom
                        } else {
                            TB::Top
                        },
                ),
            invariant
                n1 == self.frames.len() == a.len(),
                n2 == start_bt.frames.len() == b.len(),
                a == self@,
                b == start_bt@,
                top == top_frames(a, b),
                n1 > 0,
                n2 > 0,
            ensures
                trim_map_of(marks) == frames_to_trim(a, b),
            decreases n1 - t,
        {
            let i1 = n1 - 1 - t;
            let i2 = n2 - 1 - t;
            if i1 == 0 || i2 == 0 {
                // Too much similarity between the stacks: abandon bottom
                // trimming entirely.
                marks.retain(TB::Top);
                break ;
            }
            if self.frames[i1].ip != start_bt.frames[i2].ip {
                break ;
            }
            marks.insert(self.frames[i1].ip, TB::Bottom);
            proof {
                let before = a.skip(n1 - t);
                let next = a.skip(n1 - t - 1);
                assert forall|ip: usize| next.contains(ip) <==> (before.contains(ip) || ip
                    == a[i1 as int]) by {
                    if before.contains(ip) {
                        let j = choose|j: int| 0 <= j < before.len() && before[j] == ip;
                        assert(next[j + 1] == ip);
                    }
                    if ip == a[i1 as int] {
                        assert(next[0] == ip);
                    }
                    if next.contains(ip) {
                        let j = choose|j: int| 0 <= j < next.len() && next[j] == ip;
                        if j > 0 {
                            assert(before[j - 1] == ip);
                        }
                    }
                }
                assert(trim_map_of(marks) =~= Map::<usize, TB>::new(
                    |ip: usize| top.contains(ip) || next.contains(ip),
                    |ip: usize|
                        if next.contains(ip) {
                            TB::Bottom
                        } else {
                            TB::Top
                        },
                ));
            }
            t += 1;
        }

        marks
    }
}

/// Takes from the full call stack `stack` what a capture keeps: with
/// `trim_backtraces` set, frames marked `Top` are passed over, the first frame
/// marked `Bottom` ends the capture, and so does reaching the limit.
pub fn new_backtrace_inner(
    stack: &Vec<usize>,
    trim_backtraces: Option<usize>,
    frames_to_trim: &TrimMap,
) -> (bt: Backtrace)
    ensures
        bt@ == captured(stack@, trim_backtraces, trim_map_of(*frames_to_trim)),
        bt.unresolved(),
{
    let ghost map = trim_map_of(*frames_to_trim);
    let ghost keep = |ip: usize| !is_top(map, ip);
    let mut frames: Vec<Frame> = Vec::new();
    let mut i: usize = 0;
    let mut done = false;
    while i < stack.len() && !done
        invariant
            0 <= i <= stack.len(),
            map == trim_map_of(*frames_to_trim),
            keep == |ip: usize| !is_top(map, ip),
            forall|j: int| 0 <= j < frames@.len() ==> (#[trigger] frames@[j]).symbols@.len() == 0,
            !done ==> {
                &&& trim_backtraces is Some ==> bottom_from(stack@, map, 0) == bottom_from(
                    stack@,
                    map,
                    i as int,
                )
                &&& trim_backtraces is Some ==> frames@.map_values(|f: Frame| f.ip)
                    == stack@.take(i as int).filter(keep)
                &&& trim_backtraces is None ==> frames@.map_values(|f: Frame| f.ip)
                    == stack@.take(i as int)
                &&& trim_backtraces matches Some(max_frames) ==> frames@.len() < frame_limit(
                    max_frames,
                )
            },
            done ==> frames@.map_values(|f: Frame| f.ip) == captured(
                stack@,
                trim_backtraces,
                map,
            ),
        decreases stack.len() - i, (if done { 0int } else { 1int }),
    {
        let ip = stack[i];
        let mark = if trim_backtraces.is_some() {
            frames_to_trim.get(ip)
        } else {
            None
        };
        proof {
            assert(stack@.take(i + 1) =~= stack@.take(i as int).push(ip));
            stack@.take(i as int).lemma_filter_push(ip, keep);
            lemma_bottom_from_bounds(stack@, map, i as int + 1);
        }
        match mark {
            Some(TB::Top) => {
                // ignore frame and continue
                i += 1;
            },
            Some(TB::Bottom) => {
                // ignore frame and stop
                done = true;
            },
            None => {
                // use this frame
                frames.push(Frame { ip, symbols: Vec::new() });
                i += 1;
                if let Some(max_frames) = trim_backtraces {
                    if frames.len() >= max_frames {
                        // stop: we have enough frames
                        proof {
                            let cut = bottom_from(stack@, map, 0);
                            let head = stack@.take(i as int);
                            let tail = stack@.subrange(i as int, cut);
                            assert(stack@.take(cut) =~= head + tail);
                            Seq::filter_distributes_over_add(head, tail, keep);
                        }
                        done = true;
                    }
                }
            },
        }
    }
    Backtrace { frames }
}

} // verus!
