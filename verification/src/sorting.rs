//! Ascending order on latency samples: what it means for a list of samples to
//! be sorted, the sorted form of a list, and the sum of a list.
use vstd::prelude::*;
use vstd::relations::{sorted_by, total_ordering};
use vstd::seq_lib::{lemma_fold_left_permutation, lemma_sorted_unique};

verus! {

/// The order by which samples are sorted.
pub open spec fn leq() -> spec_fn(u64, u64) -> bool {
    |a: u64, b: u64| a <= b
}

/// No sample is followed by a smaller one.
pub open spec fn ascending(s: Seq<u64>) -> bool {
    forall|i: int, j: int| 0 <= i <= j < s.len() ==> s[i] <= s[j]
}

/// The samples of `s` in ascending order.
pub open spec fn sorted(s: Seq<u64>) -> Seq<u64> {
    s.sort_by(leq())
}

/// The sum of the samples of `s`.
pub open spec fn sum(s: Seq<u64>) -> int {
    s.fold_left(0int, |acc: int, x: u64| acc + x)
}

/// `sorted(s)` is ascending and holds the samples of `s`, each as often as `s`
/// does.
pub proof fn lemma_sorted(s: Seq<u64>)
    ensures
        ascending(sorted(s)),
        sorted(s).to_multiset() == s.to_multiset(),
        sorted(s).len() == s.len(),
{
    assert(total_ordering(leq()));
    s.lemma_sort_by_ensures(leq());
    let t = sorted(s);
    assert(sorted_by(t, leq()));
    assert forall|i: int, j: int| 0 <= i <= j < t.len() implies t[i] <= t[j] by {
        if i < j {
            assert(leq()(t[i], t[j]));
        }
    }
    s.to_multiset_ensures();
    t.to_multiset_ensures();
}

/// Two ascending lists of the same samples are the same list.
pub proof fn lemma_ascending_unique(a: Seq<u64>, b: Seq<u64>)
    requires
        ascending(a),
        ascending(b),
        a.to_multiset() == b.to_multiset(),
    ensures
        a == b,
{
    assert(total_ordering(leq()));
    assert(sorted_by(a, leq()));
    assert(sorted_by(b, leq()));
    lemma_sorted_unique(a, b, leq());
}

/// An ascending list of the samples of `s` is `sorted(s)`.
pub proof fn lemma_ascending_is_sorted(s: Seq<u64>, t: Seq<u64>)
    requires
        ascending(t),
        t.to_multiset() == s.to_multiset(),
    ensures
        t == sorted(s),
{
    lemma_sorted(s);
    lemma_ascending_unique(t, sorted(s));
}

/// Lists of the same samples have the same sorted form and the same sum,
/// whatever their order.
pub proof fn lemma_order_is_forgotten(a: Seq<u64>, b: Seq<u64>)
    requires
        a.to_multiset() == b.to_multiset(),
    ensures
        sorted(a) == sorted(b),
        sum(a) == sum(b),
        a.len() == b.len(),
{
    lemma_sorted(a);
    lemma_sorted(b);
    lemma_ascending_unique(sorted(a), sorted(b));
    let f = |acc: int, x: u64| acc + x;
    assert forall|x: u64, y: u64, v: int| #[trigger] f(f(v, x), y) == f(f(v, y), x) by {}
    lemma_fold_left_permutation(a, b, f, 0int);
    a.to_multiset_ensures();
    b.to_multiset_ensures();
}

/// The sum of a list that ends in `x` is the sum of the rest and `x`.
pub proof fn lemma_sum_push(s: Seq<u64>, x: u64)
    ensures
        sum(s.push(x)) == sum(s) + x,
{
    assert(s.push(x).drop_last() == s);
}

/// The sum of `n` samples is at most `n` times the largest `u64`.
pub proof fn lemma_sum_bound(s: Seq<u64>)
    ensures
        0 <= sum(s) <= s.len() * u64::MAX,
    decreases s.len(),
{
    if s.len() > 0 {
        lemma_sum_bound(s.drop_last());
        assert((s.len() - 1) * u64::MAX + u64::MAX == s.len() * u64::MAX) by (nonlinear_arith);
    }
}

/// Sorts `v` with `sort` of std's slices, which leaves the elements in
/// ascending order and neither adds nor drops one.
#[verifier::external_body]
pub(crate) fn sort_samples(v: &mut Vec<u64>)
    ensures
        ascending(final(v)@),
        final(v)@.to_multiset() == old(v)@.to_multiset(),
{
    v.sort();
}

} // verus!
