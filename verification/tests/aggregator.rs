use share_rates::tally::ShareCounts;

#[test]
fn three_for_alice_one_for_bob() {
    let mut c = ShareCounts::new();
    c.record("alice".to_string());
    c.record("bob".to_string());
    c.record("alice".to_string());
    c.record("alice".to_string());
    assert_eq!(c.count("alice"), 3);
    assert_eq!(c.count("bob"), 1);
    assert_eq!(c.count("carol"), 0);
    assert_eq!(c.len(), 2);
    assert_eq!(c.shares_recorded(), 4);
    let es = c.into_entries();
    assert_eq!(es.len(), 2);
    assert_eq!((es[0].name.as_str(), es[0].shares), ("alice", 3));
    assert_eq!((es[1].name.as_str(), es[1].shares), ("bob", 1));
}

#[test]
fn new_counts_are_empty() {
    let c = ShareCounts::new();
    assert_eq!(c.len(), 0);
    assert_eq!(c.shares_recorded(), 0);
    assert_eq!(c.count(""), 0);
    assert!(c.into_entries().is_empty());
}

#[test]
fn keys_are_exact_strings() {
    let mut c = ShareCounts::new();
    c.record("alice".to_string());
    c.record("Alice".to_string());
    c.record("".to_string());
    assert_eq!(c.count("alice"), 1);
    assert_eq!(c.count("Alice"), 1);
    assert_eq!(c.count(""), 1);
    assert_eq!(c.count("alice "), 0);
    assert_eq!(c.len(), 3);
}
