use share_rates::clock::{Span, Timestamp};
use share_rates::extract::ParsedEntry;
use share_rates::pipeline::{run, Outcome, Pipeline, Report, TimeError};
use share_rates::window::{window_before, Window};

fn clock(hour: i64, minute: i64) -> Timestamp {
    Timestamp { secs: 1546387200 + hour * 3600 + minute * 60, nanos: 0 }
}

fn log(lines: &[&str]) -> Vec<String> {
    lines.iter().map(|l| l.to_string()).collect()
}

fn report(outcome: Result<Outcome, TimeError>) -> Report {
    match outcome {
        Ok(Outcome::Reported(r)) => r,
        other => panic!("no report: {:?}", other),
    }
}

fn pairs(r: &Report) -> Vec<(String, u64)> {
    r.workers.iter().map(|w| (w.name.clone(), w.shares)).collect()
}

fn three_lines() -> Vec<String> {
    log(&[
        "20190102 10:00:00.000 INFO mining: share submitted by alice",
        "20190102 10:05:00.000 INFO mining: new job",
        "20190102 10:10:00.000 INFO mining: share submitted by bob",
    ])
}

#[test]
fn whole_log_reports_every_worker_over_its_span() {
    let r = report(run(&three_lines(), None, clock(12, 0)));
    assert_eq!(pairs(&r), vec![("alice".to_string(), 1), ("bob".to_string(), 1)]);
    assert_eq!(r.span_secs, 600);
    assert_eq!(r.span_minutes, 10);
}

#[test]
fn window_longer_than_the_log_is_insufficient_data() {
    let w = window_before(clock(12, 0), 60).unwrap();
    match run(&three_lines(), Some(w), clock(12, 0)) {
        Ok(Outcome::InsufficientData { requested_minutes, available_minutes }) => {
            assert_eq!(requested_minutes, 60);
            assert_eq!(available_minutes, 10);
        },
        other => panic!("expected insufficient data: {:?}", other),
    }
}

#[test]
fn window_as_long_as_the_log_is_insufficient_data() {
    let w = window_before(clock(10, 10), 10).unwrap();
    assert!(matches!(
        run(&three_lines(), Some(w), clock(10, 10)),
        Ok(Outcome::InsufficientData { requested_minutes: 10, available_minutes: 10 })
    ));
}

#[test]
fn log_without_tagged_lines_reports_no_workers() {
    let lines = log(&[
        "20190102 10:00:00 INFO p2p: peer connected",
        "20190102 10:20:00 INFO chain: block submitted by nobody",
    ]);
    let r = report(run(&lines, None, clock(12, 0)));
    assert!(r.workers.is_empty());
    assert_eq!(r.span_secs, 1200);
    assert_eq!(r.span_minutes, 20);
}

#[test]
fn window_counts_only_what_lies_in_it_but_spans_see_all() {
    let now = clock(10, 12);
    let w = window_before(now, 5).unwrap();
    let r = report(run(&three_lines(), Some(w), now));
    assert_eq!(pairs(&r), vec![("bob".to_string(), 1)]);
    // From the cutoff at 10:07 to the last line at 10:10.
    assert_eq!(r.span_secs, 180);
    assert_eq!(r.span_minutes, 3);
}

#[test]
fn entry_on_the_cutoff_counts() {
    let now = clock(10, 15);
    let w = Window { minutes: 5, cutoff: clock(10, 10) };
    let r = report(run(&three_lines(), Some(w), now));
    assert_eq!(pairs(&r), vec![("bob".to_string(), 1)]);
    assert_eq!(r.span_secs, 0);
}

#[test]
fn lines_without_a_timestamp_are_passed_over() {
    let lines = log(&[
        "",
        "stack backtrace:",
        "20190102 10:00:00 INFO mining: share submitted by alice",
        "   0: mining submitted by ghost",
        "20190102",
        "20190102 INFO mining: submitted by ghost",
        "20190102 10:01:00 INFO mining: share submitted by alice",
    ]);
    let r = report(run(&lines, None, clock(12, 0)));
    assert_eq!(pairs(&r), vec![("alice".to_string(), 2)]);
    assert_eq!(r.span_secs, 60);
    assert_eq!(r.span_minutes, 1);
}

#[test]
fn running_twice_gives_the_same_counts_and_span() {
    let a = report(run(&three_lines(), None, clock(12, 0)));
    let b = report(run(&three_lines(), None, clock(12, 0)));
    assert_eq!(pairs(&a), pairs(&b));
    assert_eq!((a.span_secs, a.span_minutes), (b.span_secs, b.span_minutes));
}

#[test]
fn empty_log_spans_nothing() {
    let r = report(run(&Vec::new(), None, clock(12, 0)));
    assert!(r.workers.is_empty());
    assert_eq!((r.span_secs, r.span_minutes), (0, 0));
    let w = window_before(clock(12, 0), 1).unwrap();
    assert!(matches!(
        run(&Vec::new(), Some(w), clock(12, 0)),
        Ok(Outcome::InsufficientData { requested_minutes: 1, available_minutes: 0 })
    ));
}

#[test]
fn out_of_order_log_measures_to_the_last_line() {
    let lines = log(&[
        "20190102 10:00:00 mining submitted by a",
        "20190102 09:00:00 mining submitted by a",
        "20190102 09:30:00 mining submitted by b",
    ]);
    let r = report(run(&lines, None, clock(12, 0)));
    assert_eq!(pairs(&r), vec![("a".to_string(), 2), ("b".to_string(), 1)]);
    assert_eq!(r.span_secs, 1800);
    assert_eq!(r.span_minutes, 30);
}

#[test]
fn starting_time_before_the_log_stretches_the_span() {
    let r = report(run(&three_lines(), None, clock(9, 0)));
    assert_eq!(r.span_secs, 4200);
    assert_eq!(r.span_minutes, 70);
}

#[test]
fn fractions_of_a_second_do_not_round_up() {
    let lines = log(&[
        "20190102 10:00:00.750 mining submitted by a",
        "20190102 10:01:00.250 mining submitted by a",
    ]);
    let r = report(run(&lines, None, clock(12, 0)));
    assert_eq!(r.span_secs, 59);
    assert_eq!(r.span_minutes, 0);
}

#[test]
fn feeding_line_by_line_is_the_same_as_a_run() {
    let mut p = Pipeline::start(None, clock(12, 0));
    for line in three_lines() {
        p.feed(&line);
    }
    assert_eq!(p.shares_counted(), 2);
    assert_eq!(p.count("alice"), 1);
    assert_eq!(p.count("bob"), 1);
    assert_eq!(p.count("carol"), 0);
    assert_eq!(p.tracker().first_seen, clock(10, 0));
    assert_eq!(p.tracker().last_seen, clock(10, 10));
    let r = report(p.finish());
    assert_eq!(r.span_secs, 600);
}

#[test]
fn accept_takes_an_entry_as_given() {
    let mut p = Pipeline::start(Some(Window { minutes: 1, cutoff: clock(10, 0) }), clock(10, 1));
    p.accept(ParsedEntry { timestamp: clock(9, 59), message: "mining submitted by early".to_string() });
    p.accept(ParsedEntry { timestamp: clock(10, 0), message: "mining submitted by late".to_string() });
    p.accept(ParsedEntry { timestamp: clock(10, 0), message: "submitted by nobody".to_string() });
    assert_eq!(p.count("early"), 0);
    assert_eq!(p.count("late"), 1);
    assert_eq!(p.count("nobody"), 0);
    assert_eq!(p.tracker().first_seen, clock(9, 59));
}

#[test]
fn conclude_decides_from_the_spans_it_is_given() {
    let fresh = || Pipeline::start(Some(Window { minutes: 10, cutoff: clock(0, 0) }), clock(0, 10));
    assert!(matches!(fresh().conclude(None, None), Err(TimeError::OutOfRange)));
    assert!(matches!(
        fresh().conclude(Some(Span { secs: 600, nanos: 0 }), None),
        Ok(Outcome::InsufficientData { requested_minutes: 10, available_minutes: 10 })
    ));
    assert!(matches!(
        fresh().conclude(Some(Span { secs: 600, nanos: 1 }), None),
        Err(TimeError::OutOfRange)
    ));
    let r = report(fresh().conclude(
        Some(Span { secs: 600, nanos: 1 }),
        Some(Span { secs: 125, nanos: 7 }),
    ));
    assert_eq!((r.span_secs, r.span_minutes), (125, 2));
    let unwindowed = Pipeline::start(None, clock(0, 0));
    let r = report(unwindowed.conclude(
        Some(Span { secs: -5, nanos: 0 }),
        Some(Span { secs: -125, nanos: 0 }),
    ));
    assert_eq!((r.span_secs, r.span_minutes), (-125, -2));
}

#[test]
fn timestamps_outside_the_calendar_end_in_an_error() {
    let nowhere = Timestamp { secs: i64::MAX, nanos: 0 };
    assert!(matches!(Pipeline::start(None, nowhere).finish(), Err(TimeError::OutOfRange)));
    let half = Timestamp { secs: 0, nanos: 1_500_000_000 };
    assert!(matches!(Pipeline::start(None, half).finish(), Err(TimeError::OutOfRange)));
}

#[test]
fn half_a_second_more_than_the_window_is_enough() {
    let lines = log(&[
        "20190102 10:00:00.000 mining submitted by a",
        "20190102 10:10:00.500 mining submitted by b",
    ]);
    let now = Timestamp { secs: clock(10, 10).secs, nanos: 500_000_000 };
    let w = window_before(now, 10).unwrap();
    assert_eq!(w.cutoff, Timestamp { secs: clock(10, 0).secs, nanos: 500_000_000 });
    let r = report(run(&lines, Some(w), now));
    assert_eq!(pairs(&r), vec![("b".to_string(), 1)]);
    assert_eq!((r.span_secs, r.span_minutes), (600, 10));
}

#[test]
fn leap_second_counts_as_a_second_of_its_own() {
    let lines = log(&[
        "20150630 22:59:60.500 mining submitted by a",
        "20150630 23:00:01.000 mining submitted by a",
    ]);
    let now = Timestamp { secs: 1435708900, nanos: 0 };
    let r = report(run(&lines, None, now));
    assert_eq!(pairs(&r), vec![("a".to_string(), 2)]);
    assert_eq!(r.span_secs, 1);
}
