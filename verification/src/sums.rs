//! Sums over every address of the machine. What the counters of the heap
//! record say of the live blocks is stated with them.

use vstd::prelude::*;

verus! {

/// One more than the largest address.
pub open spec fn address_count() -> nat {
    (usize::MAX + 1) as nat
}

/// The sum of `weight(a)` over the addresses `a` below `n`.
pub open spec fn sum_below(weight: spec_fn(usize) -> nat, n: nat) -> nat
    decreases n,
{
    if n == 0 {
        0
    } else {
        sum_below(weight, (n - 1) as nat) + weight((n - 1) as usize)
    }
}

/// The sum of `weight(a)` over all addresses `a`.
pub open spec fn sum_all(weight: spec_fn(usize) -> nat) -> nat {
    sum_below(weight, address_count())
}

/// Two weights that differ at `k` alone have sums that differ by as much.
pub proof fn lemma_sum_below_change(
    f: spec_fn(usize) -> nat,
    g: spec_fn(usize) -> nat,
    k: usize,
    n: nat,
)
    requires
        n <= address_count(),
        forall|a: usize| a != k ==> #[trigger] f(a) == g(a),
    ensures
        sum_below(g, n) + (if k < n {
            f(k)
        } else {
            0
        }) == sum_below(f, n) + (if k < n {
            g(k)
        } else {
            0
        }),
    decreases n,
{
    if n > 0 {
        lemma_sum_below_change(f, g, k, (n - 1) as nat);
    }
}

/// A weight that is nowhere more than another has a sum that is no more.
pub proof fn lemma_sum_below_le(f: spec_fn(usize) -> nat, g: spec_fn(usize) -> nat, n: nat)
    requires
        forall|a: usize| #[trigger] f(a) <= g(a),
    ensures
        sum_below(f, n) <= sum_below(g, n),
    decreases n,
{
    if n > 0 {
        lemma_sum_below_le(f, g, (n - 1) as nat);
    }
}

/// Two weights that differ at `k` alone have sums over all addresses that
/// differ by as much.
pub proof fn lemma_sum_all_change(f: spec_fn(usize) -> nat, g: spec_fn(usize) -> nat, k: usize)
    requires
        forall|a: usize| a != k ==> #[trigger] f(a) == g(a),
    ensures
        sum_all(g) + f(k) == sum_all(f) + g(k),
{
    lemma_sum_below_change(f, g, k, address_count());
}

/// A weight that is nowhere more than another has a sum over all addresses
/// that is no more.
pub proof fn lemma_sum_all_le(f: spec_fn(usize) -> nat, g: spec_fn(usize) -> nat)
    requires
        forall|a: usize| #[trigger] f(a) <= g(a),
    ensures
        sum_all(f) <= sum_all(g),
{
    lemma_sum_below_le(f, g, address_count());
}

/// The weight of one address is no more than the sum over all of them.
pub proof fn lemma_sum_all_member(f: spec_fn(usize) -> nat, k: usize)
    ensures
        f(k) <= sum_all(f),
{
    let g = |a: usize|
        if a == k {
            0nat
        } else {
            f(a)
        };
    lemma_sum_all_change(f, g, k);
}

/// The sum of the weight that is 1 on a finite set and 0 elsewhere is the
/// number of the set's elements.
pub proof fn lemma_sum_all_of_indicator(s: Set<usize>, f: spec_fn(usize) -> nat)
    requires
        s.finite(),
        forall|a: usize| #[trigger] f(a) == (if s.contains(a) { 1nat } else { 0nat }),
    ensures
        sum_all(f) == s.len(),
{
    lemma_sum_below_of_indicator(s, f, address_count());
    assert(s.filter(|a: usize| a < address_count()) =~= s);
}

/// Below `n`, the sum of the weight that is 1 on a finite set and 0
/// elsewhere is the number of the set's elements below `n`.
proof fn lemma_sum_below_of_indicator(s: Set<usize>, f: spec_fn(usize) -> nat, n: nat)
    requires
        s.finite(),
        n <= address_count(),
        forall|a: usize| #[trigger] f(a) == (if s.contains(a) { 1nat } else { 0nat }),
    ensures
        s.filter(|a: usize| a < n).finite(),
        sum_below(f, n) == s.filter(|a: usize| a < n).len(),
    decreases n,
{
    let below = s.filter(|a: usize| a < n);
    s.lemma_len_filter(|a: usize| a < n);
    if n == 0 {
        assert(below =~= Set::empty());
    } else {
        let m = (n - 1) as nat;
        let k = m as usize;
        let before = s.filter(|a: usize| a < m);
        lemma_sum_below_of_indicator(s, f, m);
        if s.contains(k) {
            assert(below =~= before.insert(k));
        } else {
            assert(below =~= before);
        }
    }
}

} // verus!
