use commit_race::author_counts::AuthorCounts;

#[test]
fn new_counts_are_empty() {
    let counts = AuthorCounts::new();
    assert_eq!(counts.len(), 0);
    assert!(counts.is_empty());
    assert_eq!(counts.get("ann"), None);
    assert!(counts.entries().is_empty());
}

#[test]
fn record_sets_and_overwrites() {
    let mut counts = AuthorCounts::new();
    counts.record(&"ann".to_string(), 3);
    counts.record(&"bob".to_string(), 4);
    counts.record(&"ann".to_string(), 1);
    assert_eq!(counts.len(), 2);
    assert!(!counts.is_empty());
    assert_eq!(counts.get("ann"), Some(&1));
    assert_eq!(counts.get("bob"), Some(&4));
    assert_eq!(counts.get("kim"), None);
    assert_eq!(counts.entries(), vec![("ann".to_string(), 1), ("bob".to_string(), 4)]);
}

#[test]
fn accumulate_adds_and_starts_at_the_given_count() {
    let mut counts = AuthorCounts::new();
    assert!(counts.accumulate(&"ann".to_string(), 3));
    assert!(counts.accumulate(&"bob".to_string(), 4));
    assert!(counts.accumulate(&"ann".to_string(), 5));
    assert_eq!(counts.get("ann"), Some(&8));
    assert_eq!(counts.get("bob"), Some(&4));
    assert_eq!(counts.len(), 2);
}

#[test]
fn accumulate_refuses_a_sum_beyond_u32_and_changes_nothing() {
    let mut counts = AuthorCounts::new();
    assert!(counts.accumulate(&"ann".to_string(), u32::MAX - 1));
    assert!(!counts.accumulate(&"ann".to_string(), 2));
    assert_eq!(counts.get("ann"), Some(&(u32::MAX - 1)));
    assert!(counts.accumulate(&"ann".to_string(), 1));
    assert_eq!(counts.get("ann"), Some(&u32::MAX));
}

#[test]
fn a_clone_holds_the_same_counts() {
    let mut counts = AuthorCounts::new();
    counts.record(&"ann".to_string(), 3);
    counts.record(&"bob".to_string(), 4);
    let copy = counts.clone();
    counts.record(&"ann".to_string(), 9);
    assert_eq!(copy.entries(), vec![("ann".to_string(), 3), ("bob".to_string(), 4)]);
    assert_eq!(counts.get("ann"), Some(&9));
}
