use rey::arg::{parse_content_type, parse_method, parse_url, parse_user_agent};
use rey::client::ClientBuilder;
use rey::work::{source_stat, Action, Collector, Event, SourceStat, Step, Work, Worker};

fn work(total_requests: u64, workers: u16, rate_limit: Option<u64>) -> Work {
    Work {
        client_builder: ClientBuilder {
            headers: vec![],
            timeout: None,
            content_type: parse_content_type("text/html").unwrap(),
            accept: None,
            user_agent: parse_user_agent("rey/0.1.0").unwrap(),
            proxy: None,
            host: None,
            disable_redirect: false,
        },
        url: parse_url("http://localhost:8080/").unwrap(),
        method: parse_method("GET").unwrap(),
        auth: None,
        body: vec![],
        workers,
        total_requests,
        rate_limit,
    }
}

fn ok(duration: u64) -> Result<SourceStat, String> {
    Ok(SourceStat {
        duration,
        status_code: 200,
        content_length: 50,
    })
}

/// Runs the workers of `work` one after the other, each until it stops, with
/// a collector that takes everything, and returns the collector and the
/// pauses of all workers added up.
fn run(work: &Work) -> (Collector, u64) {
    assert!(work.is_valid());
    let mut collector = Collector::new();
    let mut paused = 0;
    for _ in 0..work.capacity() {
        let mut worker = work.worker();
        while let Step::Issue { delay } = worker.next() {
            paused += delay.unwrap_or(0);
            let event = Event::Received(ok(100_000_000));
            assert!(collector.fits(&event));
            let action = collector.step(event);
            worker.sent(action == Action::Continue);
        }
    }
    assert_eq!(collector.step(Event::Closed), Action::Stop);
    (collector, paused)
}

#[test]
fn requests_are_shared_out_evenly() {
    assert_eq!(work(100, 10, None).requests_per_worker(), 10);
    assert_eq!(work(200, 50, None).requests_per_worker(), 4);
    assert_eq!(work(7, 7, None).requests_per_worker(), 1);
    assert_eq!(work(0, 3, None).requests_per_worker(), 0);
    assert_eq!(work(u64::MAX, 1, None).requests_per_worker(), u64::MAX);
}

#[test]
fn what_is_left_over_is_not_requested() {
    assert_eq!(work(105, 10, None).requests_per_worker(), 10);
    assert_eq!(work(9, 10, None).requests_per_worker(), 0);
    assert_eq!(work(u64::MAX, u16::MAX, None).requests_per_worker(), 281479271743489);
}

#[test]
fn requests_are_shared_out_whatever_the_rate() {
    assert_eq!(work(100, 10, Some(0)).requests_per_worker(), 10);
    assert_eq!(work(100, 3, Some(1)).requests_per_worker(), 33);
}

#[test]
fn capacity_is_the_number_of_workers() {
    assert_eq!(work(100, 10, None).capacity(), 10);
    assert_eq!(work(100, u16::MAX, None).capacity(), 65535);
}

#[test]
fn work_without_workers_or_rate_is_not_valid() {
    assert!(work(100, 10, Some(1)).is_valid());
    assert!(!work(100, 0, None).is_valid());
    assert!(!work(100, 10, Some(0)).is_valid());
}

#[test]
fn all_requests_are_attempted_where_the_workers_divide_them() {
    let (collector, _) = run(&work(100, 10, None));
    let reporter = collector.into_reporter();
    assert_eq!(reporter.total_requests, 100);
    assert_eq!(reporter.success_requests, 100);
    let report = reporter.into_report(1_000_000_000);
    assert_eq!(report.total_requests, 100);
    assert_eq!(report.average, 100_000_000);
    assert_eq!(report.size_total, 5000);
    assert_eq!(report.size_req, 50);
    assert_eq!(report.status_code_dist.len(), 1);
    assert_eq!(report.status_code_dist[&200], 100);
}

#[test]
fn the_remainder_is_never_attempted() {
    let (collector, _) = run(&work(105, 10, None));
    assert_eq!(collector.reporter.total_requests, 100);
    let (collector, _) = run(&work(9, 10, None));
    assert_eq!(collector.reporter.total_requests, 0);
    let (collector, _) = run(&work(29, 3, None));
    assert_eq!(collector.reporter.total_requests, 27);
}

#[test]
fn interval_is_a_second_over_the_rate() {
    assert_eq!(Worker::new(1, Some(10_000_000)).interval, Some(100_000));
    assert_eq!(Worker::new(1, Some(3_000_000)).interval, Some(333_333));
    assert_eq!(Worker::new(1, Some(500_000)).interval, Some(2_000_000));
    assert_eq!(Worker::new(1, Some(1)).interval, Some(1_000_000_000_000));
    assert_eq!(Worker::new(1, Some(2_000_000_000_000)).interval, Some(0));
    assert_eq!(Worker::new(1, Some(u64::MAX)).interval, Some(0));
    assert_eq!(Worker::new(1, None).interval, None);
}

#[test]
fn rate_limited_worker_pauses_before_every_request() {
    let mut worker = Worker::new(5, Some(10_000_000));
    let mut paused = 0;
    let mut issued = 0;
    while let Step::Issue { delay } = worker.next() {
        assert_eq!(delay, Some(100_000));
        paused += delay.unwrap();
        issued += 1;
        worker.sent(true);
    }
    assert_eq!(issued, 5);
    assert_eq!(paused, 500_000);
    assert!(paused >= 4 * 100_000);
    let (_, paused) = run(&work(5, 1, Some(10_000_000)));
    assert_eq!(paused, 500_000);
}

#[test]
fn worker_without_rate_limit_does_not_pause() {
    let mut worker = Worker::new(3, None);
    assert_eq!(worker.next(), Step::Issue { delay: None });
    worker.sent(true);
    assert_eq!(worker.requests, 2);
    assert_eq!(worker.next(), Step::Issue { delay: None });
    worker.sent(true);
    worker.sent(true);
    assert_eq!(worker.next(), Step::Stop);
    worker.sent(true);
    assert_eq!(worker.requests, 0);
    assert_eq!(worker.next(), Step::Stop);
}

#[test]
fn worker_without_requests_stops_at_once() {
    assert_eq!(Worker::new(0, Some(1_000_000)).next(), Step::Stop);
    assert_eq!(Worker::new(0, None).next(), Step::Stop);
}

#[test]
fn worker_stops_when_its_send_is_refused() {
    let mut worker = Worker::new(10, None);
    worker.sent(true);
    assert_eq!(worker.requests, 9);
    worker.sent(false);
    assert_eq!(worker.requests, 0);
    assert_eq!(worker.next(), Step::Stop);
}

#[test]
fn cancelled_collector_reports_what_came_before() {
    let mut collector = Collector::new();
    assert_eq!(collector.step(Event::Received(ok(1))), Action::Continue);
    assert_eq!(collector.step(Event::Received(ok(2))), Action::Continue);
    assert_eq!(collector.step(Event::Cancelled), Action::Close);
    assert!(collector.done);
    assert_eq!(collector.step(Event::Received(ok(3))), Action::Stop);
    assert_eq!(collector.step(Event::Cancelled), Action::Stop);
    assert_eq!(collector.step(Event::Closed), Action::Stop);
    let report = collector.into_reporter().into_report(1_000_000);
    assert_eq!(report.total_requests, 2);
    assert_eq!(report.avg_total, 3);
    assert!(report.total_requests <= 10);
}

#[test]
fn collector_stops_when_the_workers_are_done() {
    let mut collector = Collector::new();
    assert!(!collector.done);
    assert_eq!(collector.step(Event::Received(Err("reset".to_string()))), Action::Continue);
    assert_eq!(collector.step(Event::Closed), Action::Stop);
    assert!(collector.done);
    assert_eq!(collector.reporter.total_requests, 1);
    assert_eq!(collector.reporter.success_requests, 0);
}

#[test]
fn collector_tells_when_the_counters_are_full() {
    let mut collector = Collector::new();
    collector.reporter.total_requests = u64::MAX;
    assert!(!collector.fits(&Event::Received(ok(1))));
    assert!(collector.fits(&Event::Cancelled));
    assert!(collector.fits(&Event::Closed));
    collector.done = true;
    assert!(collector.fits(&Event::Received(ok(1))));
}

#[test]
fn source_stat_takes_the_announced_length() {
    assert_eq!(
        source_stat(5, 200, Some(1234)),
        SourceStat {
            duration: 5,
            status_code: 200,
            content_length: 1234
        }
    );
    assert_eq!(
        source_stat(5, 204, None),
        SourceStat {
            duration: 5,
            status_code: 204,
            content_length: 0
        }
    );
}
