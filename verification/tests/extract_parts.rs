use share_rates::clock::Timestamp;
use share_rates::extract::{entry_with, head_of};

fn ws(words: &[&str]) -> Vec<Vec<char>> {
    words.iter().map(|w| w.chars().collect()).collect()
}

#[test]
fn head_is_the_first_two_words() {
    assert_eq!(head_of(&ws(&["20190102", "03:04:05", "INFO", "x"])), "20190102 03:04:05");
    assert_eq!(head_of(&ws(&["20190102", "03:04:05"])), "20190102 03:04:05");
    assert_eq!(head_of(&ws(&["20190102"])), "20190102");
    assert_eq!(head_of(&ws(&[])), "");
}

#[test]
fn entry_needs_a_timestamp() {
    assert!(entry_with(None, &ws(&["a", "b", "c"])).is_none());
}

#[test]
fn entry_holds_the_words_after_the_second() {
    let t = Timestamp { secs: 7, nanos: 9 };
    let e = entry_with(Some(t), &ws(&["a", "b", "c", "d"])).unwrap();
    assert_eq!(e.timestamp, t);
    assert_eq!(e.message, "c d");
    assert_eq!(entry_with(Some(t), &ws(&["a", "b"])).unwrap().message, "");
    assert_eq!(entry_with(Some(t), &ws(&["a"])).unwrap().message, "");
    assert_eq!(entry_with(Some(t), &ws(&[])).unwrap().message, "");
}
