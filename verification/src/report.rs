//! The accumulator that a run fills with raw samples, and its reduction to
//! the report of the run.
//!
//! All times are whole nanoseconds and all ratios are millionths, rounded
//! down: the statistics are exact integer arithmetic.
use crate::errors::{
    count_failure, count_failures, distinct, entries, failures, lemma_tally, tally, ErrorCount,
};
use crate::histogram::{
    bin, bin_count, counted, histogram_of, in_bin, lemma_bin_count_bound,
    lemma_histogram_counts_all, lemma_marks_rise, lemma_one_bin, mark, share, Bucket, BINS,
    MILLION, STEPS,
};
use crate::percentile::{
    lemma_answered_is, lemma_percentiles_rise, lemma_pick_is_first, lemma_pick_rises, percentile,
    percentiles_of, pick, rank, targets, LatencyDistribution, TARGETS,
};
use crate::sorting::{
    ascending, lemma_ascending_is_sorted, lemma_order_is_forgotten, lemma_sorted, lemma_sum_bound,
    lemma_sum_push, sort_samples, sorted, sum,
};
use crate::work::RequestResult;
use std::collections::HashMap;
use vstd::prelude::*;

verus! {

/// The number of nanoseconds in a second.
pub const NANOS_PER_SEC: u64 = 1_000_000_000;

/// What an accumulator holds, as mathematical values.
pub struct Tally {
    /// The number of attempts.
    pub total: nat,
    /// The number of responses.
    pub success: nat,
    /// The latencies of the responses, in the order in which they came.
    pub durations: Seq<u64>,
    /// The status codes of the responses, in the order in which they came.
    pub status_codes: Seq<u16>,
    /// The bytes that the responses announced, added up.
    pub size_total: nat,
    /// The failures: each description with its count.
    pub errors: Seq<(Seq<char>, nat)>,
}

impl Tally {
    /// The samples are consistent: each response left one latency and one
    /// status code, each attempt was either a response or a failure, and the
    /// error distribution has one entry for each description.
    pub open spec fn wf(self) -> bool {
        &&& self.durations.len() == self.success
        &&& self.status_codes.len() == self.success
        &&& self.total == self.success + failures(self.errors)
        &&& distinct(self.errors)
    }

    /// No samples.
    pub open spec fn empty() -> Tally {
        Tally {
            total: 0,
            success: 0,
            durations: Seq::empty(),
            status_codes: Seq::empty(),
            size_total: 0,
            errors: Seq::empty(),
        }
    }

    /// The samples after one more attempt that ended as `result` says. A
    /// response adds its latency, its status code and its length; a failure
    /// is counted under its description.
    pub open spec fn record(self, result: RequestResult) -> Tally {
        match result {
            Ok(stat) => Tally {
                total: self.total + 1,
                success: self.success + 1,
                durations: self.durations.push(stat.duration),
                status_codes: self.status_codes.push(stat.status_code),
                size_total: self.size_total + stat.content_length as nat,
                errors: self.errors,
            },
            Err(description) => Tally {
                total: self.total + 1,
                success: self.success,
                durations: self.durations,
                status_codes: self.status_codes,
                size_total: self.size_total,
                errors: tally(self.errors, description@),
            },
        }
    }

    /// The samples after the attempts that ended as `results` say, in turn.
    pub open spec fn record_all(self, results: Seq<RequestResult>) -> Tally
        decreases results.len(),
    {
        if results.len() == 0 {
            self
        } else {
            self.record_all(results.drop_last()).record(results.last())
        }
    }
}

/// What a report holds, as mathematical values.
pub struct Summary {
    /// The sum of the latencies, in nanoseconds.
    pub avg_total: int,
    /// The smallest latency, 0 without responses.
    pub fastest: u64,
    /// The largest latency, 0 without responses.
    pub slowest: u64,
    /// The mean latency in whole nanoseconds, 0 without responses.
    pub average: int,
    /// Attempts per second, in millionths; none for a run that took no time.
    pub rps: Option<int>,
    /// The number of attempts.
    pub total_requests: int,
    /// The time that the run took, in nanoseconds.
    pub total: u64,
    /// The failures: each description with its count.
    pub errors: Seq<(Seq<char>, nat)>,
    /// The number of responses with each status code.
    pub status_codes: Map<u16, u64>,
    /// The bytes that the responses announced, added up.
    pub size_total: int,
    /// The bytes per response, rounded down, 0 without responses.
    pub size_req: int,
    /// The percentile table.
    pub latency_dist: Seq<LatencyDistribution>,
    /// The histogram.
    pub histogram: Seq<Bucket>,
}

/// The report of a run.
#[derive(Debug, PartialEq, Eq)]
pub struct Report {
    /// The sum of the latencies, in nanoseconds.
    pub avg_total: u128,
    /// The smallest latency in nanoseconds, 0 without responses.
    pub fastest: u64,
    /// The largest latency in nanoseconds, 0 without responses.
    pub slowest: u64,
    /// The mean latency in whole nanoseconds, 0 without responses.
    pub average: u64,
    /// Attempts per second, in millionths; none for a run that took no time.
    pub rps: Option<u128>,
    /// The number of attempts.
    pub total_requests: u64,
    /// The time that the run took, in nanoseconds.
    pub total: u64,
    /// The requests that failed, by what they reported.
    pub error_dist: Vec<ErrorCount>,
    /// The number of responses with each status code.
    pub status_code_dist: HashMap<u16, u64>,
    /// The bytes that the responses announced, added up.
    pub size_total: u64,
    /// The bytes per response, 0 without responses. The division is
    /// rounded down: what is left over of the bytes does not show.
    pub size_req: u64,
    /// The percentile table.
    pub latency_dist: Vec<LatencyDistribution>,
    /// The histogram.
    pub histogram: Vec<Bucket>,
}

impl View for Report {
    type V = Summary;

    open spec fn view(&self) -> Summary {
        Summary {
            avg_total: self.avg_total as int,
            fastest: self.fastest,
            slowest: self.slowest,
            average: self.average as int,
            rps: match self.rps {
                Some(r) => Some(r as int),
                None => None,
            },
            total_requests: self.total_requests as int,
            total: self.total,
            errors: entries(self.error_dist@),
            status_codes: self.status_code_dist@,
            size_total: self.size_total as int,
            size_req: self.size_req as int,
            latency_dist: self.latency_dist@,
            histogram: self.histogram@,
        }
    }
}

/// The number of responses with each status code of `codes`.
pub open spec fn code_counts(codes: Seq<u16>) -> Map<u16, u64> {
    Map::new(|c: u16| codes.contains(c), |c: u16| codes.to_multiset().count(c) as u64)
}

/// `attempts` in `elapsed` nanoseconds as attempts per second, in millionths
/// and rounded down; none where no time has passed.
pub open spec fn rate(attempts: int, elapsed: u64) -> Option<int> {
    if elapsed == 0 {
        None
    } else {
        Some(attempts * MILLION * NANOS_PER_SEC / (elapsed as int))
    }
}

/// The report of the samples `acc` of a run that took `total` nanoseconds.
pub open spec fn summarize(acc: Tally, total: u64) -> Summary {
    let samples = sorted(acc.durations);
    let fastest = if samples.len() > 0 {
        samples.first()
    } else {
        0
    };
    let slowest = if samples.len() > 0 {
        samples.last()
    } else {
        0
    };
    Summary {
        avg_total: sum(acc.durations),
        fastest,
        slowest,
        average: if acc.success > 0 {
            sum(acc.durations) / (acc.success as int)
        } else {
            0
        },
        rps: rate(acc.total as int, total),
        total_requests: acc.total as int,
        total,
        errors: acc.errors,
        status_codes: code_counts(acc.status_codes),
        size_total: acc.size_total as int,
        size_req: if acc.success > 0 {
            acc.size_total as int / (acc.success as int)
        } else {
            0
        },
        latency_dist: percentiles_of(samples),
        histogram: if acc.success > 0 {
            histogram_of(samples, fastest, slowest)
        } else {
            Seq::empty()
        },
    }
}

/// The counts of the bins of the histogram add up to the number of
/// responses, and the frequency of each bin is its count over that number.
pub proof fn lemma_histogram_counts_responses(acc: Tally, total: u64)
    requires
        acc.durations.len() == acc.success,
        acc.success <= u64::MAX,
    ensures
        counted(summarize(acc, total).histogram, summarize(acc, total).histogram.len() as int)
            == acc.success,
        forall|i: int|
            0 <= i < summarize(acc, total).histogram.len() ==> (#[trigger] summarize(
                acc,
                total,
            ).histogram[i]).frequency == share(
                summarize(acc, total).histogram[i].count as int,
                acc.success as int,
            ),
{
    let report = summarize(acc, total);
    let samples = sorted(acc.durations);
    lemma_sorted(acc.durations);
    if acc.success > 0 {
        lemma_histogram_counts_all(samples, report.fastest, report.slowest);
        assert forall|i: int| 0 <= i < report.histogram.len() implies (
        #[trigger] report.histogram[i]).frequency == share(
            report.histogram[i].count as int,
            acc.success as int,
        ) by {
            let count = bin_count(samples, report.fastest, report.slowest, i) as int;
            let n = samples.len() as int;
            lemma_bin_count_bound(samples, report.fastest, report.slowest, i);
            assert(0 <= count * MILLION / n <= MILLION) by (nonlinear_arith)
                requires
                    0 <= count <= n,
                    0 < n,
            ;
        }
    }
}

/// The latencies of the percentile table do not fall from line to line.
pub proof fn lemma_percentiles_do_not_fall(acc: Tally, total: u64)
    ensures
        forall|a: int, b: int|
            0 <= a <= b < summarize(acc, total).latency_dist.len() ==> summarize(
                acc,
                total,
            ).latency_dist[a].latency <= summarize(acc, total).latency_dist[b].latency,
{
    lemma_sorted(acc.durations);
    lemma_percentiles_rise(sorted(acc.durations));
}

/// Without responses the mean latency and the size of a response are 0 and
/// the histogram and the percentile table are empty.
pub proof fn lemma_no_response(acc: Tally, total: u64)
    requires
        acc.durations.len() == acc.success,
        acc.success == 0,
    ensures
        summarize(acc, total).average == 0,
        summarize(acc, total).size_req == 0,
        summarize(acc, total).histogram.len() == 0,
        summarize(acc, total).latency_dist.len() == 0,
        summarize(acc, total).fastest == 0,
        summarize(acc, total).slowest == 0,
{
    lemma_sorted(acc.durations);
    lemma_pick_rises(0, 0, 0);
    lemma_answered_is(0, TARGETS as int, 0);
}

/// The report does not depend on the order in which the latencies came:
/// samples that differ only in that order, such as a list and its sorted
/// form, have the same report.
pub proof fn lemma_report_forgets_order(acc: Tally, other: Seq<u64>, total: u64)
    requires
        acc.durations.to_multiset() == other.to_multiset(),
    ensures
        summarize(Tally { durations: other, ..acc }, total) == summarize(acc, total),
        summarize(Tally { durations: sorted(acc.durations), ..acc }, total) == summarize(
            acc,
            total,
        ),
{
    lemma_order_is_forgotten(acc.durations, other);
    lemma_sorted(acc.durations);
    lemma_order_is_forgotten(acc.durations, sorted(acc.durations));
}

/// The fastest latency of the report is the smallest of the samples and the
/// slowest the largest.
pub proof fn lemma_fastest_and_slowest(acc: Tally, total: u64)
    requires
        acc.durations.len() > 0,
    ensures
        acc.durations.contains(summarize(acc, total).fastest),
        acc.durations.contains(summarize(acc, total).slowest),
        forall|k: int|
            0 <= k < acc.durations.len() ==> summarize(acc, total).fastest
                <= #[trigger] acc.durations[k] <= summarize(acc, total).slowest,
{
    let samples = sorted(acc.durations);
    lemma_sorted(acc.durations);
    assert(samples.contains(samples.first()));
    assert(samples.contains(samples.last()));
    vstd::seq_lib::to_multiset_contains(samples, samples.first());
    vstd::seq_lib::to_multiset_contains(acc.durations, samples.first());
    vstd::seq_lib::to_multiset_contains(samples, samples.last());
    vstd::seq_lib::to_multiset_contains(acc.durations, samples.last());
    assert forall|k: int| 0 <= k < acc.durations.len() implies samples.first()
        <= #[trigger] acc.durations[k] <= samples.last() by {
        assert(acc.durations.contains(acc.durations[k]));
        vstd::seq_lib::to_multiset_contains(samples, acc.durations[k]);
        vstd::seq_lib::to_multiset_contains(acc.durations, acc.durations[k]);
        assert(samples.contains(acc.durations[k]));
        let j = choose|j: int| 0 <= j < samples.len() && samples[j] == acc.durations[k];
        assert(samples[0] <= samples[j] <= samples[samples.len() - 1]);
    }
}

/// No status code occurs more often than there are responses.
pub proof fn lemma_count_bound(codes: Seq<u16>, code: u16)
    ensures
        codes.to_multiset().count(code) <= codes.len(),
    decreases codes.len(),
{
    broadcast use vstd::seq_lib::group_to_multiset_ensures;

    if codes.len() > 0 {
        lemma_count_bound(codes.drop_last(), code);
        assert(codes.drop_last().push(codes.last()) =~= codes);
    }
}

/// Counts the responses with each status code of `codes`.
pub fn count_codes(codes: &Vec<u16>) -> (dist: HashMap<u16, u64>)
    ensures
        dist@ == code_counts(codes@),
{
    broadcast use vstd::std_specs::hash::group_hash_axioms;
    broadcast use vstd::seq_lib::group_to_multiset_ensures;

    let mut dist: HashMap<u16, u64> = HashMap::new();
    let mut i: usize = 0;
    assert(dist@ =~= code_counts(codes@.take(0)));
    while i < codes.len()
        invariant
            i <= codes.len(),
            dist@ == code_counts(codes@.take(i as int)),
        decreases codes.len() - i,
    {
        let code = codes[i];
        let ghost before = codes@.take(i as int);
        let ghost after = codes@.take(i + 1);
        let seen = match dist.get(&code) {
            Some(count) => *count,
            None => 0,
        };
        proof {
            assert(after == before.push(code));
            vstd::seq_lib::to_multiset_build(before, code);
            vstd::seq_lib::to_multiset_contains(before, code);
            lemma_count_bound(before, code);
            if dist@.contains_key(code) {
                assert(seen == dist@[code]);
            } else {
                assert(seen == 0);
            }
            assert(seen == before.to_multiset().count(code));
        }
        dist.insert(code, seen + 1);
        i += 1;
        proof {
            assert forall|c: u16| after.contains(c) <==> (c == code || before.contains(c)) by {
                if before.contains(c) {
                    let k = choose|k: int| 0 <= k < before.len() && before[k] == c;
                    assert(after[k] == c);
                }
                if c == code {
                    assert(after[after.len() - 1] == c);
                }
            }
            assert(dist@ =~= code_counts(after));
        }
    }
    assert(codes@.take(codes.len() as int) =~= codes@);
    dist
}

/// The raw samples of a run.
#[derive(Debug)]
pub struct Reporter {
    /// The number of requests that were attempted.
    pub total_requests: u64,
    /// The number of requests that got a response.
    pub success_requests: u64,
    /// The status code of each response.
    pub status_codes: Vec<u16>,
    /// The number of bytes that the responses announced, added up.
    pub size_total: u64,
    /// The requests that failed, by what they reported.
    pub error_dist: Vec<ErrorCount>,
    /// The latency of each response, in nanoseconds.
    pub durations: Vec<u64>,
}

impl View for Reporter {
    type V = Tally;

    open spec fn view(&self) -> Tally {
        Tally {
            total: self.total_requests as nat,
            success: self.success_requests as nat,
            durations: self.durations@,
            status_codes: self.status_codes@,
            size_total: self.size_total as nat,
            errors: entries(self.error_dist@),
        }
    }
}

impl Default for Reporter {
    fn default() -> (reporter: Reporter)
        ensures
            reporter.wf(),
            reporter@ == Tally::empty(),
    {
        Reporter::new()
    }
}

impl Reporter {
    /// The samples are consistent: each response left one latency and one
    /// status code, each attempt was either a response or a failure, and the
    /// error distribution has one entry for each description.
    pub open spec fn wf(&self) -> bool {
        self@.wf()
    }

    /// Whether the samples are consistent.
    pub fn is_valid(&self) -> (valid: bool)
        ensures
            valid == self.wf(),
    {
        if self.durations.len() as u64 != self.success_requests || self.status_codes.len() as u64
            != self.success_requests {
            return false;
        }
        match count_failures(&self.error_dist) {
            Some(failed) => self.success_requests <= self.total_requests && failed == ((
            self.total_requests - self.success_requests) as u128),
            None => false,
        }
    }

    /// An accumulator without samples.
    pub fn new() -> (reporter: Reporter)
        ensures
            reporter.wf(),
            reporter@ == Tally::empty(),
    {
        let reporter = Reporter {
            total_requests: 0,
            success_requests: 0,
            status_codes: Vec::new(),
            size_total: 0,
            error_dist: Vec::new(),
            durations: Vec::new(),
        };
        assert(reporter@.durations =~= Seq::empty());
        assert(reporter@.status_codes =~= Seq::empty());
        assert(reporter@.errors =~= Seq::empty());
        reporter
    }

    /// Whether the counters have room for one more attempt that ended as
    /// `result` says.
    pub open spec fn has_room(&self, result: RequestResult) -> bool {
        &&& self.total_requests < u64::MAX
        &&& result matches Ok(stat) ==> self.size_total + stat.content_length <= u64::MAX
    }

    /// Whether the counters have room for one more attempt that ended as
    /// `result` says.
    pub fn fits(&self, result: &RequestResult) -> (fits: bool)
        ensures
            fits == self.has_room(*result),
    {
        self.total_requests < u64::MAX && match result {
            Ok(stat) => stat.content_length <= u64::MAX - self.size_total,
            Err(_) => true,
        }
    }

    /// Takes in one more attempt, which ended as `result` says.
    pub fn record(&mut self, result: RequestResult)
        requires
            old(self).wf(),
            old(self).has_room(result),
        ensures
            final(self).wf(),
            final(self)@ == old(self)@.record(result),
    {
        self.total_requests = self.total_requests + 1;
        match result {
            Ok(stat) => {
                self.success_requests = self.success_requests + 1;
                self.durations.push(stat.duration);
                self.status_codes.push(stat.status_code);
                self.size_total = self.size_total + stat.content_length;
            },
            Err(description) => {
                proof {
                    lemma_tally(entries(self.error_dist@), description@);
                }
                count_failure(&mut self.error_dist, description);
            },
        }
    }

    /// The histogram of the latencies, which are in ascending order, between
    /// `fastest` and `slowest`. Latencies above `slowest` are counted in
    /// the last bin. Without responses there is no bin.
    pub fn histogram(&self, fastest: u64, slowest: u64) -> (buckets: Vec<Bucket>)
        requires
            self.durations@.len() == self.success_requests,
            ascending(self.durations@),
            self.success_requests > 0 ==> fastest <= slowest,
        ensures
            buckets@ == histogram_of(self.durations@, fastest, slowest),
            counted(buckets@, buckets@.len() as int) == self.success_requests,
    {
        let ghost samples = self.durations@;
        proof {
            lemma_histogram_counts_all(samples, fastest, slowest);
        }
        if self.success_requests == 0 {
            return Vec::new();
        }
        let n = self.durations.len();
        let span = slowest - fastest;
        let mut marks: Vec<u64> = Vec::with_capacity(BINS);
        let mut step: u64 = 0;
        while step < STEPS
            invariant
                step <= STEPS,
                span == slowest - fastest,
                marks@.len() == step,
                forall|b: int| 0 <= b < step ==> marks@[b] == mark(fastest, slowest, b),
            decreases STEPS - step,
        {
            proof {
                lemma_marks_rise(fastest, slowest, step as int, step as int);
                assert(span * step <= u64::MAX * 10) by (nonlinear_arith)
                    requires
                        0 <= span <= u64::MAX,
                        0 <= step <= 10,
                ;
            }
            let offset = ((span as u128) * (step as u128) / (STEPS as u128)) as u64;
            marks.push(fastest + offset);
            step += 1;
        }
        marks.push(slowest);

        let mut counts: Vec<u64> = vec![0u64; BINS];
        let mut bi: usize = 0;
        let mut i: usize = 0;
        proof {
            assert forall|b: int| 0 <= b <= STEPS implies counts@[b] == bin_count(
                samples.take(0),
                fastest,
                slowest,
                b,
            ) by {
                lemma_bin_count_bound(samples.take(0), fastest, slowest, b);
            }
        }
        while i < n
            invariant
                n == samples.len(),
                samples == self.durations@,
                ascending(samples),
                fastest <= slowest,
                i <= n,
                bi <= STEPS,
                marks@.len() == BINS,
                counts@.len() == BINS,
                forall|b: int| 0 <= b <= STEPS ==> marks@[b] == mark(fastest, slowest, b),
                forall|b: int|
                    0 <= b <= STEPS ==> counts@[b] == bin_count(
                        samples.take(i as int),
                        fastest,
                        slowest,
                        b,
                    ),
                bi > 0 && i < n ==> mark(fastest, slowest, bi - 1) < samples[i as int],
            decreases (n - i) + (STEPS - bi),
        {
            let d = self.durations[i];
            if d <= marks[bi] || bi >= BINS - 1 {
                proof {
                    let before = samples.take(i as int);
                    let after = samples.take(i + 1);
                    assert(after =~= before.push(d));
                    assert(in_bin(fastest, slowest, bi as int, d));
                    assert forall|b: int| 0 <= b <= STEPS implies bin_count(
                        after,
                        fastest,
                        slowest,
                        b,
                    ) == bin_count(before, fastest, slowest, b) + if b == bi {
                        1int
                    } else {
                        0int
                    } by {
                        before.lemma_filter_len_push(|x: u64| in_bin(fastest, slowest, b, x), d);
                        if in_bin(fastest, slowest, b, d) {
                            lemma_one_bin(fastest, slowest, d, b, bi as int);
                        }
                    }
                    lemma_bin_count_bound(after, fastest, slowest, bi as int);
                }
                counts.set(bi, counts[bi] + 1);
                i += 1;
                proof {
                    if i < n {
                        assert(samples[i - 1] <= samples[i as int]);
                    }
                }
            } else {
                bi += 1;
            }
        }
        assert(samples.take(n as int) =~= samples);

        let mut buckets: Vec<Bucket> = Vec::with_capacity(BINS);
        let mut b: usize = 0;
        while b < BINS
            invariant
                b <= BINS,
                0 < n == samples.len(),
                marks@.len() == BINS,
                counts@.len() == BINS,
                forall|k: int| 0 <= k <= STEPS ==> marks@[k] == mark(fastest, slowest, k),
                forall|k: int|
                    0 <= k <= STEPS ==> counts@[k] == bin_count(samples, fastest, slowest, k),
                buckets@.len() == b,
                forall|k: int| 0 <= k < b ==> buckets@[k] == bin(samples, fastest, slowest, k),
            decreases BINS - b,
        {
            let count = counts[b];
            proof {
                lemma_bin_count_bound(samples, fastest, slowest, b as int);
                assert(count * MILLION / (n as int) <= MILLION) by (nonlinear_arith)
                    requires
                        0 <= count <= n,
                        0 < n,
                ;
            }
            let frequency = ((count as u128) * (MILLION as u128) / (n as u128)) as u64;
            buckets.push(Bucket { mark: marks[b], count, frequency });
            b += 1;
        }
        assert(buckets@ =~= histogram_of(samples, fastest, slowest));
        buckets
    }

    /// The percentile table of the latencies, which are in ascending order.
    pub fn latencies(&self) -> (table: Vec<LatencyDistribution>)
        requires
            ascending(self.durations@),
        ensures
            table@ == percentiles_of(self.durations@),
            forall|a: int, b: int|
                0 <= a <= b < table@.len() ==> table@[a].latency <= table@[b].latency,
    {
        let ghost samples = self.durations@;
        let pctls: [u8; 7] = [10, 25, 50, 75, 90, 95, 99];
        assert(pctls@ =~= targets());
        let n = self.durations.len();
        let mut table: Vec<LatencyDistribution> = Vec::new();
        let mut i: usize = 0;
        let mut j: usize = 0;
        while i < n && j < TARGETS
            invariant
                samples == self.durations@,
                n == samples.len(),
                pctls@ == targets(),
                i <= n,
                j <= TARGETS,
                table@.len() == j,
                j < TARGETS ==> pick(n as int, j as int) >= i,
                forall|k: int| 0 <= k < j ==> pick(n as int, k) < n,
                forall|k: int| 0 <= k < j ==> table@[k] == percentile(samples, k),
            decreases (n - i) + (TARGETS - j),
        {
            proof {
                lemma_pick_is_first(n as int, j as int, i as int);
                lemma_pick_rises(n as int, j as int, j + 1);
            }
            let current = (i as u128) * 100 / (n as u128);
            assert(current == rank(i as int, n as int));
            if current >= pctls[j] as u128 {
                table.push(LatencyDistribution { percentage: pctls[j], latency: self.durations[i] });
                j += 1;
            } else {
                i += 1;
            }
        }
        proof {
            lemma_answered_is(n as int, TARGETS as int, j as int);
            assert(table@ =~= percentiles_of(samples));
            lemma_percentiles_rise(samples);
        }
        table
    }

    /// Reduces the samples to the report of a run that took `total`
    /// nanoseconds. There is one latency for each response.
    pub fn into_report(self, total: u64) -> (report: Report)
        requires
            self.durations@.len() == self.success_requests,
        ensures
            report@ == summarize(self@, total),
            counted(report.histogram@, report.histogram@.len() as int) == self.success_requests,
            forall|a: int, b: int|
                0 <= a <= b < report.latency_dist@.len() ==> report.latency_dist@[a].latency
                    <= report.latency_dist@[b].latency,
    {
        let ghost acc = self@;
        let mut this = self;
        let n = this.durations.len();
        let mut avg_total: u128 = 0;
        let mut i: usize = 0;
        assert(this.durations@.take(0) =~= Seq::<u64>::empty());
        while i < n
            invariant
                n == this.durations@.len(),
                i <= n,
                avg_total == sum(this.durations@.take(i as int)),
            decreases n - i,
        {
            proof {
                let before = this.durations@.take(i as int);
                assert(this.durations@.take(i + 1) == before.push(this.durations@[i as int]));
                lemma_sum_push(before, this.durations@[i as int]);
                lemma_sum_bound(this.durations@.take(i + 1));
                assert((i + 1) * u64::MAX <= u64::MAX * u64::MAX) by (nonlinear_arith)
                    requires
                        0 <= i + 1 <= u64::MAX,
                ;
            }
            avg_total = avg_total + (this.durations[i] as u128);
            i += 1;
        }
        assert(this.durations@.take(n as int) =~= this.durations@);
        let average: u64;
        let size_req: u64;
        if this.success_requests > 0 {
            proof {
                lemma_sum_bound(this.durations@);
                assert(avg_total as int / (n as int) <= u64::MAX) by (nonlinear_arith)
                    requires
                        0 <= avg_total <= n * u64::MAX,
                        0 < n,
                ;
            }
            average = (avg_total / (this.success_requests as u128)) as u64;
            size_req = this.size_total / this.success_requests;
        } else {
            average = 0;
            size_req = 0;
        }
        let rps: Option<u128> = if total == 0 {
            None
        } else {
            assert(this.total_requests * MILLION * NANOS_PER_SEC <= u64::MAX * MILLION
                * NANOS_PER_SEC) by (nonlinear_arith)
                requires
                    0 <= this.total_requests <= u64::MAX,
            ;
            Some(
                (this.total_requests as u128) * (MILLION as u128) * (NANOS_PER_SEC as u128) / (
                total as u128),
            )
        };

        sort_samples(&mut this.durations);
        proof {
            lemma_ascending_is_sorted(acc.durations, this.durations@);
            acc.durations.to_multiset_ensures();
            this.durations@.to_multiset_ensures();
        }
        let fastest = if n > 0 {
            this.durations[0]
        } else {
            0
        };
        let slowest = if n > 0 {
            this.durations[n - 1]
        } else {
            0
        };
        let histogram = this.histogram(fastest, slowest);
        let latency_dist = this.latencies();
        let status_code_dist = count_codes(&this.status_codes);
        let report = Report {
            avg_total,
            fastest,
            slowest,
            average,
            rps,
            total_requests: this.total_requests,
            total,
            error_dist: this.error_dist,
            status_code_dist,
            size_total: this.size_total,
            size_req,
            latency_dist,
            histogram,
        };
        assert(report@.histogram =~= summarize(acc, total).histogram);
        report
    }
}

} // verus!
