//! The text of a report: numbers, paths and frames.

use crate::backtrace::{Frame, Symbol};
use thousands::Separable;
use vstd::prelude::*;
use vstd::string::{StrSliceExecFns, StringExecFns};

verus! {

/// The character of a digit below 16, in lower case.
pub open spec fn digit_char(d: nat) -> char {
    if d == 0 {
        '0'
    } else if d == 1 {
        '1'
    } else if d == 2 {
        '2'
    } else if d == 3 {
        '3'
    } else if d == 4 {
        '4'
    } else if d == 5 {
        '5'
    } else if d == 6 {
        '6'
    } else if d == 7 {
        '7'
    } else if d == 8 {
        '8'
    } else if d == 9 {
        '9'
    } else if d == 10 {
        'a'
    } else if d == 11 {
        'b'
    } else if d == 12 {
        'c'
    } else if d == 13 {
        'd'
    } else if d == 14 {
        'e'
    } else {
        'f'
    }
}

/// `n` in decimal: its digits, most significant first, without leading
/// zeros.
pub open spec fn decimal_text(n: nat) -> Seq<char>
    decreases n,
{
    if n < 10 {
        seq![digit_char(n)]
    } else {
        decimal_text(n / 10).push(digit_char(n % 10))
    }
}

/// The digits of `n` in hexadecimal, most significant first, without leading
/// zeros.
pub open spec fn hex_digits(n: nat) -> Seq<char>
    decreases n,
{
    if n < 16 {
        seq![digit_char(n)]
    } else {
        hex_digits(n / 16).push(digit_char(n % 16))
    }
}

/// `n` in hexadecimal, with `0x` in front.
pub open spec fn hex_text(n: nat) -> Seq<char> {
    seq!['0', 'x'] + hex_digits(n)
}

/// `n` in decimal, with a comma before every group of three digits but the
/// first.
pub open spec fn commas_text(n: nat) -> Seq<char>
    decreases n,
{
    if n < 1000 {
        decimal_text(n)
    } else {
        commas_text(n / 1000) + seq![
            ',',
            digit_char(n % 1000 / 100),
            digit_char(n % 100 / 10),
            digit_char(n % 10),
        ]
    }
}

/// `format!` with `{:#x}`, which the standard library documents as lower-case
/// hexadecimal with `0x` in front: the text of an instruction pointer.
#[verifier::external_body]
pub(crate) fn hex_string(ip: usize) -> (s: String)
    ensures
        s@ == hex_text(ip as nat),
{
    format!("{:#x}", ip)
}

/// `format!` with `{}` on a `u32`, which the standard library documents as
/// the number in decimal.
#[verifier::external_body]
pub(crate) fn decimal_string(n: u32) -> (s: String)
    ensures
        s@ == decimal_text(n as nat),
{
    format!("{}", n)
}

/// `Separable::separate_with_commas` of the `thousands` crate, which inserts
/// a comma every three digits from the right of the number in decimal.
#[verifier::external_body]
pub(crate) fn separate_with_commas(n: u64) -> (s: String)
    ensures
        s@ == commas_text(n as nat),
{
    n.separate_with_commas()
}

/// Whether `s` begins with `prefix`.
pub fn starts_with(s: &str, prefix: &str) -> (r: bool)
    ensures
        r == prefix@.is_prefix_of(s@),
{
    let n = prefix.unicode_len();
    if s.unicode_len() < n {
        return false;
    }
    let mut i: usize = 0;
    while i < n
        invariant
            0 <= i <= n,
            n == prefix@.len(),
            n <= s@.len(),
            forall|j: int| 0 <= j < i ==> s@[j] == prefix@[j],
        decreases n - i,
    {
        if s.get_char(i) != prefix.get_char(i) {
            return false;
        }
        i += 1;
    }
    true
}

/// Whether the name of the path `s` that starts at `i` is `.` alone.
pub open spec fn is_dot(s: Seq<char>, i: int) -> bool {
    0 <= i < s.len() && s[i] == '.' && (i + 1 == s.len() || s[i + 1] == '/')
}

/// Whether a component of the path `s` starts at `i`. The components are the
/// root, which is a `/` at the very start, and the names between separators;
/// a name that is `.` alone is a component only at the very start.
pub open spec fn starts_component(s: Seq<char>, i: int) -> bool {
    0 <= i < s.len() && if s[i] == '/' {
        i == 0
    } else {
        i == 0 || (s[i - 1] == '/' && !is_dot(s, i))
    }
}

/// The number of components of the path `s` that start at `i` or after it.
pub open spec fn components_from(s: Seq<char>, i: int) -> nat
    decreases s.len() - i,
{
    if i < 0 || i >= s.len() {
        0
    } else {
        (if starts_component(s, i) {
            1nat
        } else {
            0nat
        }) + components_from(s, i + 1)
    }
}

/// The first index, at `i` or after it, at which the `n`th component from
/// the end of the path `s` starts; the length of `s` if there is none.
pub open spec fn nth_last_from(s: Seq<char>, i: int, n: nat) -> int
    decreases s.len() - i,
{
    if i < 0 || i >= s.len() {
        s.len() as int
    } else if starts_component(s, i) && components_from(s, i) == n {
        i
    } else {
        nth_last_from(s, i + 1, n)
    }
}

/// The index behind the name that `i` is in: that of the first `/` at `i` or
/// after it, or the length of `s`.
pub open spec fn name_end(s: Seq<char>, i: int) -> int
    decreases s.len() - i,
{
    if i < 0 || i >= s.len() {
        s.len() as int
    } else if s[i] == '/' {
        i
    } else {
        name_end(s, i + 1)
    }
}

/// The path `s` cut down to its last three components, where it has more:
/// what stands from the start of the third component from the end to the end
/// of the last one. A path of up to three components is left as it is.
///
/// Components are separated by `/`. A `/` at the start is a component of its
/// own; a `.` between separators or at the end is none.
pub open spec fn trimmed_path(s: Seq<char>) -> Seq<char> {
    if components_from(s, 0) > 3 {
        s.subrange(nth_last_from(s, 0, 3), name_end(s, nth_last_from(s, 0, 1)))
    } else {
        s
    }
}

/// Further on in a path there are no more components left.
proof fn lemma_components_from_decreases(s: Seq<char>, i: int, j: int)
    requires
        0 <= i <= j,
    ensures
        components_from(s, i) >= components_from(s, j),
    decreases j - i,
{
    if i < j {
        lemma_components_from_decreases(s, i + 1, j);
    }
}

/// Whether a component of `path` starts at `i`.
fn starts_component_at(path: &str, len: usize, i: usize, after_sep: bool) -> (starts: bool)
    requires
        len == path@.len(),
        i < len,
        after_sep == (i == 0 || path@[i - 1] == '/'),
    ensures
        starts == starts_component(path@, i as int),
{
    let c = path.get_char(i);
    if c == '/' {
        i == 0
    } else if i == 0 {
        true
    } else if !after_sep {
        false
    } else if c != '.' {
        true
    } else if i + 1 == len {
        false
    } else {
        path.get_char(i + 1) != '/'
    }
}

/// The number of components of `path`.
fn count_components(path: &str, len: usize) -> (count: usize)
    requires
        len == path@.len(),
    ensures
        count == components_from(path@, 0),
{
    let ghost s = path@;
    let mut count: usize = 0;
    let mut after_sep = true;
    let mut i: usize = 0;
    while i < len
        invariant
            0 <= i <= len,
            len == s.len(),
            s == path@,
            count <= i,
            count + components_from(s, i as int) == components_from(s, 0),
            after_sep == (i == 0 || s[i - 1] == '/'),
        decreases len - i,
    {
        if starts_component_at(path, len, i, after_sep) {
            count += 1;
        }
        after_sep = path.get_char(i) == '/';
        i += 1;
    }
    count
}

/// Where the `n`th component from the end of `path` starts, of the `count`
/// that it has.
fn nth_last_start(path: &str, len: usize, count: usize, n: usize) -> (k: usize)
    requires
        len == path@.len(),
        count == components_from(path@, 0),
        1 <= n <= count,
    ensures
        k < len,
        k == nth_last_from(path@, 0, n as nat),
        starts_component(path@, k as int),
        components_from(path@, k as int) == n,
{
    let ghost s = path@;
    let mut seen: usize = 0;
    let mut after_sep = true;
    let mut k: usize = 0;
    loop
        invariant_except_break
            0 <= k < len,
            seen + components_from(s, k as int) == count,
            components_from(s, k as int) >= n,
            nth_last_from(s, 0, n as nat) == nth_last_from(s, k as int, n as nat),
            after_sep == (k == 0 || s[k - 1] == '/'),
        invariant
            len == s.len(),
            s == path@,
            count == components_from(s, 0),
            1 <= n <= count,
            seen <= k,
        ensures
            0 <= k < len,
            k == nth_last_from(s, 0, n as nat),
            starts_component(s, k as int),
            components_from(s, k as int) == n,
        decreases len - k,
    {
        let starts = starts_component_at(path, len, k, after_sep);
        if starts && count - seen == n {
            break ;
        }
        if starts {
            seen += 1;
        }
        after_sep = path.get_char(k) == '/';
        assert(components_from(s, k + 1) >= n);
        k += 1;
    }
    k
}

/// Trims a path with more than three components down to three (e.g.
/// `/aa/bb/cc/dd.rs` becomes `bb/cc/dd.rs`), otherwise returns `path`
/// unchanged.
pub fn trim_path(path: &str) -> (trimmed: &str)
    ensures
        trimmed@ == trimmed_path(path@),
{
    let len = path.unicode_len();
    let ghost s = path@;
    let count = count_components(path, len);
    if count <= 3 {
        return path;
    }
    let first = nth_last_start(path, len, count, 3);
    let last = nth_last_start(path, len, count, 1);
    proof {
        if last <= first {
            lemma_components_from_decreases(s, last as int, first as int);
        }
    }
    let mut end = last;
    while end < len && path.get_char(end) != '/'
        invariant
            last <= end <= len,
            len == s.len(),
            s == path@,
            name_end(s, last as int) == name_end(s, end as int),
        decreases len - end,
    {
        end += 1;
    }
    path.substring_char(first, end)
}

/// What stands for a part that debug information does not give.
pub open spec fn unknown_text() -> Seq<char> {
    "???"@
}

/// The text of one resolved frame: the instruction pointer, the function's
/// name, and the place in the source with its path trimmed, as in
/// `0x10ae2fe20: dhatter::main (dhatter/src/main.rs:8:5)`. A name, path, line
/// or column that is missing is shown as `???`.
pub open spec fn frame_text(ip: usize, symbol: Symbol) -> Seq<char> {
    hex_text(ip as nat) + ": "@ + (match symbol.name {
        Some(name) => name@,
        None => unknown_text(),
    }) + " ("@ + (match symbol.filename {
        Some(path) => trimmed_path(path@),
        None => unknown_text(),
    }) + ":"@ + (match symbol.lineno {
        Some(n) => decimal_text(n as nat),
        None => unknown_text(),
    }) + ":"@ + (match symbol.colno {
        Some(n) => decimal_text(n as nat),
        None => unknown_text(),
    }) + ")"@
}

/// The text of the symbol `symbol` of the frame `frame`.
pub fn frame_to_string(frame: &Frame, symbol: &Symbol) -> (s: String)
    ensures
        s@ == frame_text(frame.ip, *symbol),
{
    let mut s = hex_string(frame.ip);
    s.append(": ");
    match &symbol.name {
        Some(name) => s.append(name.as_str()),
        None => s.append("???"),
    }
    s.append(" (");
    match &symbol.filename {
        Some(path) => s.append(trim_path(path.as_str())),
        None => s.append("???"),
    }
    s.append(":");
    match symbol.lineno {
        Some(n) => s.append(decimal_string(n).as_str()),
        None => s.append("???"),
    }
    s.append(":");
    match symbol.colno {
        Some(n) => s.append(decimal_string(n).as_str()),
        None => s.append("???"),
    }
    s.append(")");
    s
}

} // verus!
