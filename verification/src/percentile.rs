//! The latency percentile table: for each target percentile the first sample,
//! in ascending order, whose rank reaches the target.
use crate::sorting::ascending;
use vstd::prelude::*;

verus! {

/// One line of the percentile table.
#[derive(Debug, Clone, Copy, PartialEq, Eq)]
pub struct LatencyDistribution {
    /// The target percentile.
    pub percentage: u8,
    /// The latency that answers it, in nanoseconds.
    pub latency: u64,
}

/// The number of target percentiles.
pub const TARGETS: usize = 7;

/// The target percentiles, in the order of the table.
pub open spec fn targets() -> Seq<u8> {
    seq![10u8, 25u8, 50u8, 75u8, 90u8, 95u8, 99u8]
}

/// Target `j`, and 100 behind the last one.
pub open spec fn target(j: int) -> int {
    if 0 <= j < TARGETS {
        targets()[j] as int
    } else {
        100
    }
}

/// The rank, in percent, of the sample at index `i` of `n` samples in
/// ascending order: the share of the samples before it, rounded down.
pub open spec fn rank(i: int, n: int) -> int {
    i * 100 / n
}

/// The first index of `n` samples whose rank is at least `p`.
pub open spec fn first_at_rank(p: int, n: int) -> int {
    (p * n + 99) / 100
}

/// The index of the sample that answers target `j` among `n` samples: the
/// first index whose rank reaches the target. One sample may answer several
/// targets. An index of `n` or more says that no sample answers the target.
pub open spec fn pick(n: int, j: int) -> int {
    first_at_rank(target(j), n)
}

/// The number of targets among the first `k` that `n` samples answer.
pub open spec fn answered(n: int, k: int) -> int
    decreases k,
{
    if k <= 0 {
        0
    } else if pick(n, k - 1) < n {
        k
    } else {
        answered(n, k - 1)
    }
}

/// Line `j` of the percentile table of the ascending samples `samples`.
pub open spec fn percentile(samples: Seq<u64>, j: int) -> LatencyDistribution {
    LatencyDistribution {
        percentage: targets()[j],
        latency: samples[pick(samples.len() as int, j)],
    }
}

/// The percentile table of the ascending samples `samples`: one line for
/// each target that they answer, in the order of the targets.
pub open spec fn percentiles_of(samples: Seq<u64>) -> Seq<LatencyDistribution> {
    Seq::new(
        answered(samples.len() as int, TARGETS as int) as nat,
        |j: int| percentile(samples, j),
    )
}

/// The rank of index `i` is at least `p` exactly from `first_at_rank(p, n)`
/// on.
pub proof fn lemma_first_at_rank(i: int, n: int, p: int)
    requires
        0 <= i,
        0 < n,
        0 <= p,
    ensures
        rank(i, n) >= p <==> i >= first_at_rank(p, n),
{
    let a = i * 100;
    let b = p * n;
    assert(a / n >= p <==> a >= b) by (nonlinear_arith)
        requires
            0 < n,
            0 <= a,
            0 <= p,
            b == p * n,
    ;
    assert(0 <= b) by (nonlinear_arith)
        requires
            0 <= p,
            0 < n,
            b == p * n,
    ;
}

/// The targets rise.
pub proof fn lemma_targets_rise(j: int, k: int)
    requires
        0 <= j <= k,
    ensures
        0 <= target(j) <= target(k) <= 100,
        j < k < TARGETS ==> target(j) < target(k),
{
}

/// No target is answered before an earlier one.
pub proof fn lemma_pick_rises(n: int, j: int, k: int)
    requires
        0 <= n,
        0 <= j <= k,
    ensures
        0 <= pick(n, j) <= pick(n, k),
{
    lemma_targets_rise(j, k);
    let p = target(j);
    let q = target(k);
    assert(0 <= p * n <= q * n) by (nonlinear_arith)
        requires
            0 <= p <= q,
            0 <= n,
    ;
}

/// The sample picked for target `j` is the first one whose rank reaches the
/// target.
pub proof fn lemma_pick_is_first(n: int, j: int, i: int)
    requires
        0 < n,
        0 <= j < TARGETS,
        0 <= i,
    ensures
        0 <= pick(n, j),
        rank(pick(n, j), n) >= targets()[j],
        i < pick(n, j) ==> rank(i, n) < targets()[j],
        i >= pick(n, j) ==> rank(i, n) >= targets()[j],
{
    let p = targets()[j] as int;
    lemma_pick_rises(n, j, j);
    lemma_first_at_rank(pick(n, j), n, p);
    lemma_first_at_rank(i, n, p);
}

/// The targets that `n` samples answer are the first `answered(n, k)` of the
/// first `k`: those are answered, and the next one, if there is one, is not.
pub proof fn lemma_answered(n: int, k: int)
    requires
        0 <= n,
        0 <= k,
    ensures
        0 <= answered(n, k) <= k,
        forall|j: int| 0 <= j < answered(n, k) ==> pick(n, j) < n,
        answered(n, k) < k ==> pick(n, answered(n, k)) >= n,
    decreases k,
{
    if k > 0 {
        if pick(n, k - 1) < n {
            assert forall|j: int| 0 <= j < k implies pick(n, j) < n by {
                lemma_pick_rises(n, j, k - 1);
            }
        } else {
            lemma_answered(n, k - 1);
        }
    }
}

/// Targets `0` to `j - 1` answered and target `j` not: `j` targets are
/// answered among the first `k`.
pub proof fn lemma_answered_is(n: int, k: int, j: int)
    requires
        0 <= n,
        0 <= j <= k,
        j > 0 ==> pick(n, j - 1) < n,
        j < k ==> pick(n, j) >= n,
    ensures
        answered(n, k) == j,
    decreases k,
{
    if k > j {
        lemma_pick_rises(n, j, k - 1);
        lemma_answered_is(n, k - 1, j);
    }
}

/// In the table of ascending samples the latencies do not fall and the
/// percentiles rise from line to line. Two lines may hold the same latency:
/// that of a sample which answers both targets.
pub proof fn lemma_percentiles_rise(samples: Seq<u64>)
    requires
        ascending(samples),
    ensures
        forall|a: int, b: int|
            0 <= a <= b < percentiles_of(samples).len() ==> percentiles_of(samples)[a].latency
                <= percentiles_of(samples)[b].latency,
        forall|a: int, b: int|
            0 <= a < b < percentiles_of(samples).len() ==> percentiles_of(samples)[a].percentage
                < percentiles_of(samples)[b].percentage,
{
    let n = samples.len() as int;
    let t = percentiles_of(samples);
    lemma_answered(n, TARGETS as int);
    assert forall|a: int, b: int| 0 <= a <= b < t.len() implies t[a].latency <= t[b].latency by {
        lemma_pick_rises(n, a, b);
    }
}

} // verus!
