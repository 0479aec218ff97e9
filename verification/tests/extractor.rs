use share_rates::clock::Timestamp;
use share_rates::extract::parse_log_timestamp;

#[test]
fn plain_line_splits_into_stamp_and_message() {
    let e = parse_log_timestamp("20190102 03:04:05.250 INFO mining: started").unwrap();
    // 2019-01-02 03:04:05 is 1546398245 seconds after the epoch.
    assert_eq!(e.timestamp, Timestamp { secs: 1546398245, nanos: 250_000_000 });
    assert_eq!(e.message, "INFO mining: started");
}

#[test]
fn fraction_is_optional() {
    let e = parse_log_timestamp("20190102 03:04:05 x").unwrap();
    assert_eq!(e.timestamp, Timestamp { secs: 1546398245, nanos: 0 });
    assert_eq!(e.message, "x");
}

#[test]
fn empty_line_yields_nothing() {
    assert!(parse_log_timestamp("").is_none());
}

#[test]
fn line_starting_with_a_word_yields_nothing() {
    assert!(parse_log_timestamp("thread 'main' panicked at src/lib.rs").is_none());
}

#[test]
fn date_without_time_yields_nothing() {
    assert!(parse_log_timestamp("20190102").is_none());
    assert!(parse_log_timestamp("20190102 INFO hello").is_none());
}

#[test]
fn runs_of_whitespace_collapse_in_message() {
    let e = parse_log_timestamp("  20190102\t03:04:05   a  \t b   ").unwrap();
    assert_eq!(e.message, "a b");
}

#[test]
fn line_of_only_stamp_has_empty_message() {
    let e = parse_log_timestamp("20190102 03:04:05").unwrap();
    assert_eq!(e.message, "");
}

#[test]
fn message_is_the_line_without_stamp_and_one_separator() {
    let line = "20190102 03:04:05.5 WARN mining: share submitted by rig one";
    let e = parse_log_timestamp(line).unwrap();
    assert_eq!(e.message, &line["20190102 03:04:05.5 ".len()..]);
}

#[test]
fn leap_second_runs_past_a_full_second_of_nanoseconds() {
    let e = parse_log_timestamp("20150630 23:59:60.500 x").unwrap();
    assert_eq!(e.timestamp, Timestamp { secs: 1435708799, nanos: 1_500_000_000 });
}

#[test]
fn impossible_dates_and_times_yield_nothing() {
    assert!(parse_log_timestamp("20190230 03:04:05 x").is_none());
    assert!(parse_log_timestamp("20190102 24:00:00 x").is_none());
    assert!(parse_log_timestamp("20190102 03:04 x").is_none());
    assert!(parse_log_timestamp("2019-01-02 03:04:05 x").is_none());
    assert!(parse_log_timestamp("INFO 20190102 03:04:05").is_none());
}

#[test]
fn timestamp_before_the_epoch_has_negative_seconds() {
    let e = parse_log_timestamp("19691231 23:59:59.25 x").unwrap();
    assert_eq!(e.timestamp, Timestamp { secs: -1, nanos: 250_000_000 });
}
