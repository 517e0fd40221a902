//! The decisions of a run: how the requests are shared out among the
//! workers, what a worker does next, and what the collector does with each
//! thing that reaches it. The run itself (the clock, the network, the
//! channel between the workers and the collector) is the caller's.
use crate::client::ClientBuilder;
use crate::histogram::MILLION;
use crate::errors::{failures, lemma_tally};
use crate::report::{Reporter, Tally};
use http::Method;
use reqwest::Url;
use vstd::prelude::*;

verus! {

/// The number of microseconds in a second.
pub const MICROS_PER_SEC: u64 = 1_000_000;

/// What one response told: how long it took, in nanoseconds, its status code
/// and the length of its body.
#[derive(Debug, Clone, Copy, PartialEq, Eq)]
pub struct SourceStat {
    pub duration: u64,
    pub status_code: u16,
    pub content_length: u64,
}

/// How one attempt ended: with a response, or with the description of what
/// went wrong.
pub type RequestResult = Result<SourceStat, String>;

/// The name and the password, if any, that go with each request.
#[derive(Debug, Clone, PartialEq)]
pub struct BasicAuth {
    pub username: String,
    pub password: Option<String>,
}

/// What a response told. Its length is the one that it announced, and 0 where
/// it announced none: the body is not measured.
pub fn source_stat(duration: u64, status_code: u16, announced: Option<u64>) -> (stat: SourceStat)
    ensures
        stat.duration == duration,
        stat.status_code == status_code,
        stat.content_length == match announced {
            Some(length) => length,
            None => 0,
        },
{
    SourceStat {
        duration,
        status_code,
        content_length: match announced {
            Some(length) => length,
            None => 0,
        },
    }
}

/// The number of requests of each of `workers` workers that share
/// `total_requests` evenly: what is left over when the total is divided is
/// not requested at all.
pub open spec fn quota(total_requests: u64, workers: u16) -> int {
    total_requests as int / workers as int
}

/// The pause, in microseconds, before each request of a worker that is held
/// to `rate` requests per second, `rate` in millionths.
pub open spec fn interval(rate: u64) -> int {
    MICROS_PER_SEC * MILLION / (rate as int)
}

/// For a rate of `qps` whole requests per second the pause is a million
/// microseconds over `qps`, rounded down.
pub proof fn lemma_interval_of_whole_rate(qps: u64)
    requires
        qps > 0,
        qps * MILLION <= u64::MAX,
    ensures
        interval((qps * MILLION) as u64) == MICROS_PER_SEC / qps,
{
    let q = qps as int;
    let m = 1_000_000int;
    assert((m * m) / (q * m) == m / q) by (nonlinear_arith)
        requires
            q > 0,
            m > 0,
    ;
}

/// What a worker does next.
#[derive(Debug, Clone, Copy, PartialEq, Eq)]
pub enum Step {
    /// Pause for `delay` microseconds, if there is a delay; then make one
    /// request and send how it ended to the collector.
    Issue { delay: Option<u64> },
    /// Stop.
    Stop,
}

/// A worker: the requests that it still has to make and the pause before
/// each of them.
#[derive(Debug, Clone, Copy, PartialEq, Eq)]
pub struct Worker {
    /// The number of requests that are still to be made.
    pub requests: u64,
    /// The pause before each request, in microseconds.
    pub interval: Option<u64>,
}

impl Worker {
    /// A worker that is to make `requests` requests, at most `rate_limit` of
    /// them per second, `rate_limit` in millionths.
    pub fn new(requests: u64, rate_limit: Option<u64>) -> (worker: Worker)
        requires
            rate_limit matches Some(rate) ==> rate > 0,
        ensures
            worker.requests == requests,
            match rate_limit {
                Some(rate) => worker.interval == Some(interval(rate) as u64),
                None => worker.interval is None,
            },
    {
        let interval = match rate_limit {
            Some(rate) => {
                assert(MICROS_PER_SEC * MILLION / (rate as int) <= MICROS_PER_SEC * MILLION)
                    by (nonlinear_arith)
                    requires
                        rate > 0,
                ;
                Some(MICROS_PER_SEC * MILLION / rate)
            },
            None => None,
        };
        Worker { requests, interval }
    }

    /// What the worker does next: one more request, after its pause, as long
    /// as it has requests left.
    pub open spec fn spec_next(self) -> Step {
        if self.requests == 0 {
            Step::Stop
        } else {
            Step::Issue { delay: self.interval }
        }
    }

    /// The worker after the collector took (`accepted`) or refused what it
    /// sent. A refusal ends the worker: the requests that it had left are not
    /// made.
    pub open spec fn spec_sent(self, accepted: bool) -> Worker {
        Worker {
            requests: if accepted && self.requests > 0 {
                (self.requests - 1) as u64
            } else {
                0
            },
            interval: self.interval,
        }
    }

    /// What the worker does next.
    pub fn next(&self) -> (step: Step)
        ensures
            step == self.spec_next(),
    {
        if self.requests == 0 {
            Step::Stop
        } else {
            Step::Issue { delay: self.interval }
        }
    }

    /// Takes note that the collector took or refused what the worker sent.
    pub fn sent(&mut self, accepted: bool)
        ensures
            *final(self) == old(self).spec_sent(accepted),
    {
        if accepted && self.requests > 0 {
            self.requests = self.requests - 1;
        } else {
            self.requests = 0;
        }
    }
}

/// The number of requests that `worker` makes until it stops, where each of
/// its sends is accepted.
pub open spec fn issues(worker: Worker) -> nat
    decreases worker.requests,
{
    match worker.spec_next() {
        Step::Stop => 0,
        Step::Issue { delay } => 1 + issues(worker.spec_sent(true)),
    }
}

/// The time, in microseconds, for which `worker` pauses until it stops,
/// where each of its sends is accepted.
pub open spec fn pauses(worker: Worker) -> nat
    decreases worker.requests,
{
    match worker.spec_next() {
        Step::Stop => 0,
        Step::Issue { delay } => (match delay {
            Some(micros) => micros as nat,
            None => 0,
        }) + pauses(worker.spec_sent(true)),
    }
}

/// A worker whose sends are all accepted makes as many requests as it was
/// given, and pauses before each of them, the first one too: a worker that is
/// held to a rate has paused for its interval times the number of its
/// requests when it stops.
pub proof fn lemma_issues_and_pauses(worker: Worker)
    ensures
        issues(worker) == worker.requests,
        pauses(worker) == match worker.interval {
            Some(micros) => worker.requests * micros,
            None => 0,
        },
    decreases worker.requests,
{
    if worker.requests > 0 {
        let rest = worker.spec_sent(true);
        lemma_issues_and_pauses(rest);
        match worker.interval {
            Some(micros) => {
                assert(micros + (worker.requests - 1) * micros == worker.requests * micros)
                    by (nonlinear_arith);
            },
            None => {},
        }
    }
}

/// A worker whose send is refused stops, whatever it had left.
pub proof fn lemma_worker_stops_when_refused(worker: Worker)
    ensures
        worker.spec_sent(false).spec_next() == Step::Stop,
{
}

/// What reaches the collector while it waits: the signal to stop, the next
/// result from a worker, or the news that every worker is done.
#[derive(Debug, PartialEq, Eq)]
pub enum Event {
    Cancelled,
    Received(RequestResult),
    Closed,
}

/// What the collector does after an event.
#[derive(Debug, Clone, Copy, PartialEq, Eq)]
pub enum Action {
    /// Wait for the next event.
    Continue,
    /// Close the receiving side, so that no worker can send any more, and
    /// wait no longer.
    Close,
    /// Wait no longer.
    Stop,
}

/// What a collector holds, as mathematical values.
pub struct Collected {
    /// The samples so far.
    pub tally: Tally,
    /// Whether the collector has stopped.
    pub done: bool,
}

impl Collected {
    /// A collector that has seen nothing yet.
    pub open spec fn start() -> Collected {
        Collected { tally: Tally::empty(), done: false }
    }

    /// The collector after `event`, and what it does then. Until it stops it
    /// takes in each result that it receives; the signal to stop and the end
    /// of the workers both stop it, and once stopped it takes in nothing.
    pub open spec fn step(self, event: Event) -> (Collected, Action) {
        if self.done {
            (self, Action::Stop)
        } else {
            match event {
                Event::Cancelled => (Collected { tally: self.tally, done: true }, Action::Close),
                Event::Closed => (Collected { tally: self.tally, done: true }, Action::Stop),
                Event::Received(result) => (
                    Collected { tally: self.tally.record(result), done: false },
                    Action::Continue,
                ),
            }
        }
    }

    /// The collector after `events`, in turn.
    pub open spec fn run(self, events: Seq<Event>) -> Collected
        decreases events.len(),
    {
        if events.len() == 0 {
            self
        } else {
            self.run(events.drop_last()).step(events.last()).0
        }
    }
}

/// The events in which `results` are received, in turn.
pub open spec fn received(results: Seq<RequestResult>) -> Seq<Event> {
    results.map_values(|result: RequestResult| Event::Received(result))
}

/// The collector of a run: the samples that it has taken in, and whether it
/// has stopped.
#[derive(Debug)]
pub struct Collector {
    pub reporter: Reporter,
    pub done: bool,
}

impl View for Collector {
    type V = Collected;

    open spec fn view(&self) -> Collected {
        Collected { tally: self.reporter@, done: self.done }
    }
}

impl Collector {
    /// The samples are consistent.
    pub open spec fn wf(&self) -> bool {
        self.reporter.wf()
    }

    /// Whether the counters have room for what `event` brings.
    pub open spec fn has_room(&self, event: Event) -> bool {
        !self.done ==> (event matches Event::Received(result) ==> self.reporter.has_room(result))
    }

    /// A collector that has seen nothing yet.
    pub fn new() -> (collector: Collector)
        ensures
            collector.wf(),
            collector@ == Collected::start(),
    {
        Collector { reporter: Reporter::new(), done: false }
    }

    /// Whether the counters have room for what `event` brings.
    pub fn fits(&self, event: &Event) -> (fits: bool)
        ensures
            fits == self.has_room(*event),
    {
        self.done || match event {
            Event::Received(result) => self.reporter.fits(result),
            _ => true,
        }
    }

    /// Takes `event` and says what to do next.
    pub fn step(&mut self, event: Event) -> (action: Action)
        requires
            old(self).wf(),
            old(self).has_room(event),
        ensures
            final(self).wf(),
            (final(self)@, action) == old(self)@.step(event),
    {
        if self.done {
            return Action::Stop;
        }
        match event {
            Event::Cancelled => {
                self.done = true;
                Action::Close
            },
            Event::Closed => {
                self.done = true;
                Action::Stop
            },
            Event::Received(result) => {
                self.reporter.record(result);
                Action::Continue
            },
        }
    }

    /// The samples that were taken in.
    pub fn into_reporter(self) -> (reporter: Reporter)
        ensures
            reporter == self.reporter,
    {
        self.reporter
    }
}

/// Each attempt that is taken in counts once: as a response, with one
/// latency and one status code, or as a failure.
pub proof fn lemma_record_all(results: Seq<RequestResult>)
    ensures
        Tally::empty().record_all(results).total == results.len(),
        Tally::empty().record_all(results).success == Tally::empty().record_all(
            results,
        ).durations.len(),
        Tally::empty().record_all(results).success == Tally::empty().record_all(
            results,
        ).status_codes.len(),
        Tally::empty().record_all(results).total == Tally::empty().record_all(results).success
            + failures(Tally::empty().record_all(results).errors),
    decreases results.len(),
{
    if results.len() > 0 {
        lemma_record_all(results.drop_last());
        let before = Tally::empty().record_all(results.drop_last());
        match results.last() {
            Ok(_) => {},
            Err(description) => {
                lemma_tally(before.errors, description@);
            },
        }
    }
}

/// Attempts that all fail with one description leave one entry in the error
/// distribution, which counts them all, and no latency and no status code.
pub proof fn lemma_all_fail_alike(results: Seq<RequestResult>, description: String)
    requires
        results.len() > 0,
        forall|i: int| 0 <= i < results.len() ==> #[trigger] results[i] == Err::<
            SourceStat,
            String,
        >(description),
    ensures
        Tally::empty().record_all(results).errors == seq![(description@, results.len())],
        Tally::empty().record_all(results).total == results.len(),
        Tally::empty().record_all(results).success == 0,
        Tally::empty().record_all(results).durations.len() == 0,
        Tally::empty().record_all(results).status_codes.len() == 0,
    decreases results.len(),
{
    let rest = results.drop_last();
    assert(results.last() == results[results.len() - 1]);
    if rest.len() == 0 {
        reveal_with_fuel(Tally::record_all, 2);
        reveal_with_fuel(crate::errors::position, 2);
        assert(Tally::empty().record_all(rest) == Tally::empty());
        assert(Tally::empty().record_all(results).errors =~= seq![(description@, 1nat)]);
    } else {
        assert forall|i: int| 0 <= i < rest.len() implies #[trigger] rest[i] == Err::<
            SourceStat,
            String,
        >(description) by {
            assert(rest[i] == results[i]);
        }
        lemma_all_fail_alike(rest, description);
        let before = Tally::empty().record_all(rest).errors;
        reveal_with_fuel(crate::errors::position, 2);
        assert(before[0].0 == description@);
        assert(Tally::empty().record_all(results).errors =~= seq![
            (description@, results.len()),
        ]);
    }
}

/// A collector that receives `results` and nothing else has taken in all of
/// them and waits for more.
pub proof fn lemma_collects_what_it_receives(results: Seq<RequestResult>)
    ensures
        Collected::start().run(received(results)) == (Collected {
            tally: Tally::empty().record_all(results),
            done: false,
        }),
    decreases results.len(),
{
    if results.len() > 0 {
        lemma_collects_what_it_receives(results.drop_last());
        assert(received(results).drop_last() == received(results.drop_last()));
    }
}

/// Once it has stopped a collector takes in nothing.
pub proof fn lemma_stopped_stays(stopped: Collected, events: Seq<Event>)
    requires
        stopped.done,
    ensures
        stopped.run(events) == stopped,
    decreases events.len(),
{
    if events.len() > 0 {
        lemma_stopped_stays(stopped, events.drop_last());
    }
}

/// Running through two lists of events is running through the first and
/// then through the second.
pub proof fn lemma_run_append(from: Collected, first: Seq<Event>, second: Seq<Event>)
    ensures
        from.run(first + second) == from.run(first).run(second),
    decreases second.len(),
{
    if second.len() == 0 {
        assert(first + second == first);
    } else {
        lemma_run_append(from, first, second.drop_last());
        assert((first + second).drop_last() == first + second.drop_last());
    }
}

/// A collector that is stopped after it has received `results`, by the
/// signal or by the end of the workers, holds exactly those: what comes
/// `later` is not taken in.
pub proof fn lemma_collects_until_stopped(
    results: Seq<RequestResult>,
    stop: Event,
    later: Seq<Event>,
)
    requires
        stop is Cancelled || stop is Closed,
    ensures
        Collected::start().run(received(results) + seq![stop] + later) == (Collected {
            tally: Tally::empty().record_all(results),
            done: true,
        }),
        Tally::empty().record_all(results).total == results.len(),
{
    let start = Collected::start();
    lemma_collects_what_it_receives(results);
    lemma_run_append(start, received(results) + seq![stop], later);
    lemma_run_append(start, received(results), seq![stop]);
    let waiting = start.run(received(results));
    assert(waiting.run(seq![stop]) == waiting.step(stop).0) by {
        reveal_with_fuel(Collected::run, 2);
        assert(seq![stop].drop_last() == Seq::<Event>::empty());
        assert(seq![stop].last() == stop);
    }
    lemma_stopped_stays(waiting.step(stop).0, later);
    lemma_record_all(results);
}

/// How a run is set up: what is requested, by how many workers, how often
/// in all and at what rate.
#[derive(Debug)]
pub struct Work {
    /// What the client is built from.
    pub client_builder: ClientBuilder,
    /// The target of the requests.
    pub url: Url,
    /// The method of the requests.
    pub method: Method,
    /// The name and password that go with each request, if any.
    pub auth: Option<BasicAuth>,
    /// The body of each request.
    pub body: Vec<u8>,
    /// The number of workers that run side by side.
    pub workers: u16,
    /// The number of requests that was asked for.
    pub total_requests: u64,
    /// The most requests that one worker makes in a second, in millionths.
    pub rate_limit: Option<u64>,
}

impl Work {
    /// There is a worker, and a rate limit is above zero.
    pub open spec fn wf(&self) -> bool {
        &&& self.workers > 0
        &&& self.rate_limit matches Some(rate) ==> rate > 0
    }

    /// Whether there is a worker and the rate limit, if any, is above zero.
    pub fn is_valid(&self) -> (valid: bool)
        ensures
            valid == self.wf(),
    {
        self.workers > 0 && match self.rate_limit {
            Some(rate) => rate > 0,
            None => true,
        }
    }

    /// The number of requests that each worker makes: the even share of
    /// the requests that were asked for. Where the workers do not divide them
    /// evenly, what is left over is requested by nobody, so that fewer
    /// requests are made than were asked for.
    pub fn requests_per_worker(&self) -> (requests: u64)
        requires
            self.workers > 0,
        ensures
            requests == quota(self.total_requests, self.workers),
    {
        self.total_requests / (self.workers as u64)
    }

    /// The number of results that may wait between the workers and the
    /// collector: one for each worker.
    pub fn capacity(&self) -> (capacity: usize)
        ensures
            capacity == self.workers,
    {
        self.workers as usize
    }

    /// One of the workers of the run: it has its even share of the requests
    /// and pauses as the rate limit asks.
    pub open spec fn spec_worker(&self) -> Worker {
        Worker {
            requests: quota(self.total_requests, self.workers) as u64,
            interval: match self.rate_limit {
                Some(rate) => Some(interval(rate) as u64),
                None => None,
            },
        }
    }

    /// One of the workers of the run. They are all alike.
    pub fn worker(&self) -> (worker: Worker)
        requires
            self.wf(),
        ensures
            worker == self.spec_worker(),
    {
        Worker::new(self.requests_per_worker(), self.rate_limit)
    }
}

/// Whether `sent` is what the workers of `work` send where each of them
/// makes all its requests: one list of results for each worker, as long as
/// the worker has requests.
pub open spec fn all_send(work: Work, sent: Seq<Seq<RequestResult>>) -> bool {
    &&& sent.len() == work.workers
    &&& forall|w: int| 0 <= w < sent.len() ==> (#[trigger] sent[w]).len() == issues(work.spec_worker())
}

/// Whether `results` is what reaches the collector where the workers send
/// `sent` and nothing is lost: each result that a worker sends arrives once,
/// in whatever order the workers take their turns.
pub open spec fn all_arrive(results: Seq<RequestResult>, sent: Seq<Seq<RequestResult>>) -> bool {
    results.to_multiset() == sent.flatten().to_multiset()
}

/// Lists of `k` results each hold `k` results for each list.
pub proof fn lemma_results_of_all(sent: Seq<Seq<RequestResult>>, k: nat)
    requires
        forall|w: int| 0 <= w < sent.len() ==> (#[trigger] sent[w]).len() == k,
    ensures
        sent.flatten().len() == sent.len() * k,
    decreases sent.len(),
{
    if sent.len() > 0 {
        let rest = sent.drop_first();
        assert forall|w: int| 0 <= w < rest.len() implies (#[trigger] rest[w]).len() == k by {
            assert(rest[w] == sent[w + 1]);
        }
        lemma_results_of_all(rest, k);
        assert(sent.first() == sent[0]);
        assert(k + (sent.len() - 1) * k == sent.len() * k) by (nonlinear_arith);
    }
}

/// The share of the workers: what all of them request is what was asked for
/// less what is left over when it is divided among them.
pub proof fn lemma_shares(work: Work)
    requires
        work.workers > 0,
    ensures
        issues(work.spec_worker()) == work.total_requests as int / (work.workers as int),
        work.workers * issues(work.spec_worker()) == work.total_requests - work.total_requests
            % (work.workers as u64),
        work.workers * issues(work.spec_worker()) <= work.total_requests,
{
    lemma_issues_and_pauses(work.spec_worker());
    let t = work.total_requests as int;
    let w = work.workers as int;
    assert(t == w * (t / w) + t % w && 0 <= t % w < w && 0 <= t / w <= t) by (nonlinear_arith)
        requires
            w > 0,
            t >= 0,
    ;
}

/// Where nothing stops the run early, so that each worker makes all its
/// requests and every result is collected, the attempts that are counted are
/// as many as the workers times the requests of each: all that were asked
/// for where the workers divide them evenly, and fewer by what is left over
/// where they do not.
pub proof fn lemma_attempts_of_a_run(
    work: Work,
    sent: Seq<Seq<RequestResult>>,
    results: Seq<RequestResult>,
)
    requires
        work.workers > 0,
        all_send(work, sent),
        all_arrive(results, sent),
    ensures
        Collected::start().run(received(results) + seq![Event::Closed]).tally
            == Tally::empty().record_all(results),
        Tally::empty().record_all(results).total == work.workers * (work.total_requests as int / (
        work.workers as int)),
        Tally::empty().record_all(results).total == work.total_requests - work.total_requests
            % (work.workers as u64),
        work.total_requests % (work.workers as u64) == 0 ==> Tally::empty().record_all(
            results,
        ).total == work.total_requests,
        work.total_requests % (work.workers as u64) != 0 ==> Tally::empty().record_all(
            results,
        ).total < work.total_requests,
{
    lemma_collects_until_stopped(results, Event::Closed, Seq::empty());
    assert(received(results) + seq![Event::Closed] + Seq::<Event>::empty() == received(results)
        + seq![Event::Closed]);
    lemma_results_of_all(sent, issues(work.spec_worker()));
    results.to_multiset_ensures();
    sent.flatten().to_multiset_ensures();
    lemma_shares(work);
}

/// Where the run is stopped after `taken` of the results that reach the
/// collector were collected, exactly those are counted: never more than the
/// workers send in all, and so never more than were asked for.
pub proof fn lemma_attempts_of_a_stopped_run(
    work: Work,
    sent: Seq<Seq<RequestResult>>,
    results: Seq<RequestResult>,
    taken: int,
    stop: Event,
    later: Seq<Event>,
)
    requires
        work.workers > 0,
        all_send(work, sent),
        all_arrive(results, sent),
        0 <= taken <= results.len(),
        stop is Cancelled || stop is Closed,
    ensures
        Collected::start().run(received(results.take(taken)) + seq![stop] + later).tally
            == Tally::empty().record_all(results.take(taken)),
        Tally::empty().record_all(results.take(taken)).total == taken,
        taken <= work.workers * (work.total_requests as int / (work.workers as int))
            <= work.total_requests,
{
    lemma_collects_until_stopped(results.take(taken), stop, later);
    lemma_results_of_all(sent, issues(work.spec_worker()));
    results.to_multiset_ensures();
    sent.flatten().to_multiset_ensures();
    lemma_shares(work);
}

} // verus!
