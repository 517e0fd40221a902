//! The response-time histogram: eleven bins whose upper bounds, the marks,
//! are spread evenly from the fastest to the slowest sample.
use vstd::prelude::*;

verus! {

/// The number of steps into which the span from the fastest to the slowest
/// sample is cut.
pub const STEPS: u64 = 10;

/// The number of bins of a histogram: one for each step, which ends at the
/// mark where the step begins, and one more, which ends at the slowest sample
/// itself.
pub const BINS: usize = 11;

/// The scale of every ratio that is reported: a ratio `r` is held as the
/// integer part of `r * MILLION`.
pub const MILLION: u64 = 1_000_000;

/// One bin of the histogram.
#[derive(Debug, Clone, Copy, PartialEq, Eq)]
pub struct Bucket {
    /// The upper bound of the bin, in nanoseconds.
    pub mark: u64,
    /// The number of samples in the bin.
    pub count: u64,
    /// The share of all samples that are in the bin, in millionths.
    pub frequency: u64,
}

/// The mark of bin `i`: `i` tenths of the way from `fastest` to `slowest`,
/// rounded down to a whole nanosecond, and `slowest` itself for the last bin.
pub open spec fn mark(fastest: u64, slowest: u64, i: int) -> int {
    if i < STEPS {
        fastest + (slowest - fastest) * i / (STEPS as int)
    } else {
        slowest as int
    }
}

/// Whether a sample `d` belongs to bin `i`: it is at most the bin's mark and
/// above the mark of the bin before, if there is one. The last bin has
/// every sample that is above the mark of the bin before it, those above
/// its own mark too.
pub open spec fn in_bin(fastest: u64, slowest: u64, i: int, d: u64) -> bool {
    &&& i < STEPS ==> d <= mark(fastest, slowest, i)
    &&& i > 0 ==> mark(fastest, slowest, i - 1) < d
}

/// The number of samples of `samples` that belong to bin `i`.
pub open spec fn bin_count(samples: Seq<u64>, fastest: u64, slowest: u64, i: int) -> nat {
    samples.filter(|d: u64| in_bin(fastest, slowest, i, d)).len()
}

/// The share `count / total` in millionths, rounded down.
pub open spec fn share(count: int, total: int) -> int {
    count * MILLION / total
}

/// Bin `i` of the histogram of `samples` between `fastest` and `slowest`.
pub open spec fn bin(samples: Seq<u64>, fastest: u64, slowest: u64, i: int) -> Bucket {
    Bucket {
        mark: mark(fastest, slowest, i) as u64,
        count: bin_count(samples, fastest, slowest, i) as u64,
        frequency: share(bin_count(samples, fastest, slowest, i) as int, samples.len() as int) as u64,
    }
}

/// The histogram of `samples` between `fastest` and `slowest`: empty without
/// samples, else the eleven bins in the order of their marks.
pub open spec fn histogram_of(samples: Seq<u64>, fastest: u64, slowest: u64) -> Seq<Bucket> {
    if samples.len() == 0 {
        Seq::empty()
    } else {
        Seq::new(BINS as nat, |i: int| bin(samples, fastest, slowest, i))
    }
}

/// The sum of the counts of the first `n` bins of `h`.
pub open spec fn counted(h: Seq<Bucket>, n: int) -> int
    decreases n,
{
    if n <= 0 {
        0
    } else {
        counted(h, n - 1) + h[n - 1].count
    }
}

/// The marks rise with the bin, from `fastest` to `slowest`.
pub proof fn lemma_marks_rise(fastest: u64, slowest: u64, i: int, j: int)
    requires
        fastest <= slowest,
        0 <= i <= j,
    ensures
        fastest <= mark(fastest, slowest, i) <= mark(fastest, slowest, j) <= slowest,
        mark(fastest, slowest, 0) == fastest,
{
    let span = slowest - fastest;
    assert(span * i <= span * j) by (nonlinear_arith)
        requires
            0 <= span,
            0 <= i <= j,
    ;
    assert(0 <= span * i) by (nonlinear_arith)
        requires
            0 <= span,
            0 <= i,
    ;
    if j < STEPS {
        assert(span * j <= span * 10) by (nonlinear_arith)
            requires
                0 <= span,
                j <= 10,
        ;
    }
    if i < STEPS {
        assert(span * i <= span * 10) by (nonlinear_arith)
            requires
                0 <= span,
                i <= 10,
        ;
    }
}

/// No sample belongs to two of the eleven bins.
pub proof fn lemma_one_bin(fastest: u64, slowest: u64, d: u64, i: int, j: int)
    requires
        fastest <= slowest,
        0 <= i <= STEPS,
        0 <= j <= STEPS,
        in_bin(fastest, slowest, i, d),
        in_bin(fastest, slowest, j, d),
    ensures
        i == j,
{
    if i < j {
        lemma_marks_rise(fastest, slowest, i, j - 1);
    } else if j < i {
        lemma_marks_rise(fastest, slowest, j, i - 1);
    }
}

/// The number of bins among the first `n` to which the sample `d` belongs.
pub open spec fn bins_holding(fastest: u64, slowest: u64, d: u64, n: int) -> int
    decreases n,
{
    if n <= 0 {
        0
    } else {
        bins_holding(fastest, slowest, d, n - 1) + if in_bin(fastest, slowest, n - 1, d) {
            1int
        } else {
            0int
        }
    }
}

/// Among the first `n` bins a sample is in one bin if they are all the bins
/// or the mark of the last of them reaches it, and in none otherwise.
pub proof fn lemma_bins_holding(fastest: u64, slowest: u64, d: u64, n: int)
    requires
        fastest <= slowest,
        0 <= n <= BINS,
    ensures
        bins_holding(fastest, slowest, d, n) == if n == BINS || (n > 0 && d <= mark(
            fastest,
            slowest,
            n - 1,
        )) {
            1int
        } else {
            0int
        },
    decreases n,
{
    if n > 0 {
        lemma_bins_holding(fastest, slowest, d, n - 1);
        if n > 1 {
            lemma_marks_rise(fastest, slowest, n - 2, n - 1);
        }
    }
}

/// The counts of the first `n` bins, added up.
pub open spec fn bin_counts(samples: Seq<u64>, fastest: u64, slowest: u64, n: int) -> int
    decreases n,
{
    if n <= 0 {
        0
    } else {
        bin_counts(samples, fastest, slowest, n - 1) + bin_count(samples, fastest, slowest, n - 1)
    }
}

/// One more sample raises the count of each bin that it belongs to by one.
pub proof fn lemma_bin_counts_push(samples: Seq<u64>, fastest: u64, slowest: u64, d: u64, n: int)
    requires
        0 <= n,
    ensures
        bin_counts(samples.push(d), fastest, slowest, n) == bin_counts(samples, fastest, slowest, n)
            + bins_holding(fastest, slowest, d, n),
    decreases n,
{
    if n > 0 {
        lemma_bin_counts_push(samples, fastest, slowest, d, n - 1);
        samples.lemma_filter_len_push(|x: u64| in_bin(fastest, slowest, n - 1, x), d);
    }
}

/// Every sample is counted once: the counts of the eleven bins add up to the
/// number of samples.
pub proof fn lemma_every_sample_counted(samples: Seq<u64>, fastest: u64, slowest: u64)
    requires
        fastest <= slowest,
    ensures
        bin_counts(samples, fastest, slowest, BINS as int) == samples.len(),
    decreases samples.len(),
{
    if samples.len() == 0 {
        assert(samples =~= Seq::<u64>::empty());
        lemma_no_sample_no_count(fastest, slowest, BINS as int);
    } else {
        let rest = samples.drop_last();
        let d = samples.last();
        lemma_every_sample_counted(rest, fastest, slowest);
        assert(rest.push(d) == samples);
        lemma_bin_counts_push(rest, fastest, slowest, d, BINS as int);
        lemma_bins_holding(fastest, slowest, d, BINS as int);
    }
}

/// Without samples every bin is empty.
pub proof fn lemma_no_sample_no_count(fastest: u64, slowest: u64, n: int)
    requires
        0 <= n,
    ensures
        bin_counts(Seq::<u64>::empty(), fastest, slowest, n) == 0,
    decreases n,
{
    if n > 0 {
        lemma_no_sample_no_count(fastest, slowest, n - 1);
        reveal(Seq::filter);
    }
}

/// No bin holds more samples than there are.
pub proof fn lemma_bin_count_bound(samples: Seq<u64>, fastest: u64, slowest: u64, i: int)
    ensures
        bin_count(samples, fastest, slowest, i) <= samples.len(),
{
    samples.lemma_filter_len(|d: u64| in_bin(fastest, slowest, i, d));
}

/// The counts of the bins of a histogram add up to the number of its samples.
pub proof fn lemma_histogram_counts_all(samples: Seq<u64>, fastest: u64, slowest: u64)
    requires
        samples.len() > 0 ==> fastest <= slowest,
        samples.len() <= u64::MAX,
    ensures
        counted(
            histogram_of(samples, fastest, slowest),
            histogram_of(samples, fastest, slowest).len() as int,
        ) == samples.len(),
{
    let h = histogram_of(samples, fastest, slowest);
    if samples.len() > 0 {
        lemma_every_sample_counted(samples, fastest, slowest);
        lemma_counted_is_bin_counts(samples, fastest, slowest, BINS as int);
    }
}

/// The counts held in the first `n` bins of a histogram are the counts of
/// those bins.
pub proof fn lemma_counted_is_bin_counts(samples: Seq<u64>, fastest: u64, slowest: u64, n: int)
    requires
        0 <= n <= BINS,
        0 < samples.len() <= u64::MAX,
    ensures
        counted(histogram_of(samples, fastest, slowest), n) == bin_counts(
            samples,
            fastest,
            slowest,
            n,
        ),
    decreases n,
{
    if n > 0 {
        lemma_counted_is_bin_counts(samples, fastest, slowest, n - 1);
        lemma_bin_count_bound(samples, fastest, slowest, n - 1);
    }
}

/// The length of the longest bar when a histogram is drawn.
pub const BAR_WIDTH: u64 = 40;

/// The largest count among the bins `h`, 0 where there are none.
pub open spec fn max_count(h: Seq<Bucket>) -> u64
    decreases h.len(),
{
    if h.len() == 0 {
        0
    } else if h.last().count > max_count(h.drop_last()) {
        h.last().count
    } else {
        max_count(h.drop_last())
    }
}

/// The length of the bar of a bin with `count` samples where the fullest bin
/// has `max`: `count` over `max` of the longest bar, rounded to the nearest
/// whole.
pub open spec fn bar_length(count: u64, max: u64) -> int {
    (count * BAR_WIDTH + max / 2) / (max as int)
}

/// `max_count` is the count of one of the bins, and no bin has more.
pub proof fn lemma_max_count(h: Seq<Bucket>)
    ensures
        forall|i: int| 0 <= i < h.len() ==> (#[trigger] h[i]).count <= max_count(h),
        h.len() > 0 ==> exists|i: int| 0 <= i < h.len() && (#[trigger] h[i]).count == max_count(h),
    decreases h.len(),
{
    if h.len() > 0 {
        let rest = h.drop_last();
        lemma_max_count(rest);
        assert forall|i: int| 0 <= i < h.len() implies (#[trigger] h[i]).count <= max_count(h) by {
            if i < rest.len() {
                assert(h[i] == rest[i]);
            }
        }
        if h.last().count > max_count(rest) || rest.len() == 0 {
            assert(h[h.len() - 1].count == max_count(h));
        } else {
            let i = choose|i: int| 0 <= i < rest.len() && (#[trigger] rest[i]).count == max_count(rest);
            assert(h[i] == rest[i]);
        }
    }
}

/// Bins whose counts add up to more than nothing have a count above zero.
pub proof fn lemma_counted_bins_are_not_all_empty(h: Seq<Bucket>, n: int)
    requires
        0 <= n <= h.len(),
        counted(h, n) > 0,
    ensures
        max_count(h) > 0,
    decreases n,
{
    lemma_max_count(h);
    if n > 0 && h[n - 1].count == 0 {
        lemma_counted_bins_are_not_all_empty(h, n - 1);
    }
}

/// The largest count among the bins `buckets`.
pub fn fullest(buckets: &Vec<Bucket>) -> (max: u64)
    ensures
        max == max_count(buckets@),
{
    let mut max: u64 = 0;
    let mut i: usize = 0;
    assert(buckets@.take(0) =~= Seq::<Bucket>::empty());
    while i < buckets.len()
        invariant
            i <= buckets@.len(),
            max == max_count(buckets@.take(i as int)),
        decreases buckets.len() - i,
    {
        assert(buckets@.take(i + 1).drop_last() =~= buckets@.take(i as int));
        if buckets[i].count > max {
            max = buckets[i].count;
        }
        i += 1;
    }
    assert(buckets@.take(i as int) =~= buckets@);
    max
}

/// The lengths of the bars of the bins `buckets`, in their order. A
/// histogram with bins has samples, so that one of its counts is above zero.
pub fn bars(buckets: &Vec<Bucket>) -> (lengths: Vec<u64>)
    requires
        buckets@.len() > 0 ==> max_count(buckets@) > 0,
    ensures
        lengths@.len() == buckets@.len(),
        forall|i: int|
            0 <= i < buckets@.len() ==> #[trigger] lengths@[i] == bar_length(
                buckets@[i].count,
                max_count(buckets@),
            ),
        forall|i: int| 0 <= i < lengths@.len() ==> #[trigger] lengths@[i] <= BAR_WIDTH,
{
    let max = fullest(buckets);
    proof {
        lemma_max_count(buckets@);
    }
    let mut lengths: Vec<u64> = Vec::with_capacity(buckets.len());
    let mut k: usize = 0;
    while k < buckets.len()
        invariant
            k <= buckets@.len(),
            max == max_count(buckets@),
            buckets@.len() > 0 ==> max > 0,
            forall|i: int| 0 <= i < buckets@.len() ==> (#[trigger] buckets@[i]).count <= max,
            lengths@.len() == k,
            forall|i: int|
                0 <= i < k ==> #[trigger] lengths@[i] == bar_length(buckets@[i].count, max),
            forall|i: int| 0 <= i < k ==> #[trigger] lengths@[i] <= BAR_WIDTH,
        decreases buckets.len() - k,
    {
        let count = buckets[k].count;
        proof {
            assert(buckets@[k as int].count <= max);
            assert((count * BAR_WIDTH + max / 2) / (max as int) <= BAR_WIDTH) by (nonlinear_arith)
                requires
                    0 <= count <= max,
                    max > 0,
                    BAR_WIDTH == 40,
            ;
            assert(count * BAR_WIDTH <= u64::MAX * BAR_WIDTH) by (nonlinear_arith)
                requires
                    0 <= count <= u64::MAX,
                    BAR_WIDTH == 40,
            ;
        }
        let length = ((count as u128) * (BAR_WIDTH as u128) + ((max / 2) as u128)) / (max as u128);
        lengths.push(length as u64);
        k += 1;
    }
    lengths
}

} // verus!
