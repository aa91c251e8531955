//! Batch chunking balance and retry backoff behaviour.

use rustgscholar::retry::LookupOutcome;
use rustgscholar::retry::RetryDecision;
use rustgscholar::retry::RetryState;
use rustgscholar::semanticscholar::chunk_count;
use rustgscholar::semanticscholar::chunk_items;
use rustgscholar::semanticscholar::chunk_size;
use rustgscholar::semanticscholar::collect_valid_dois;
use rustgscholar::semanticscholar::format_doi_ids;

#[test]
fn test_batch_chunking() {
    let total = 1200;
    let batch_count = chunk_count(total, 500);
    assert_eq!(batch_count, 3);

    let size = chunk_size(total, batch_count);
    assert_eq!(size, 400);
}

#[test]
fn test_chunk_balance() {
    // ten items under a bound of four: three batches whose sizes
    // differ by at most one and concatenate back to the input
    let items: Vec<String> = (0..10).map(|i| format!("id{}", i)).collect();
    let batches = chunk_items(&items, 4);
    assert_eq!(batches.len(), 3);
    let sizes: Vec<usize> = batches.iter().map(|b| b.len()).collect();
    assert_eq!(sizes, vec![4, 3, 3]);
    let flat: Vec<String> = batches.into_iter().flatten().collect();
    assert_eq!(flat, items);
}

#[test]
fn test_chunk_small_and_empty() {
    let items: Vec<String> = vec!["a".to_string(), "b".to_string()];
    let batches = chunk_items(&items, 500);
    assert_eq!(batches.len(), 1);
    assert_eq!(batches[0], items);

    let none: Vec<String> = Vec::new();
    assert!(chunk_items(&none, 500).is_empty());
}

#[test]
fn test_valid_dois_and_ids() {
    let dois = vec!["10.1/a".to_string(), String::new(), "10.1/b".to_string()];
    let valid = collect_valid_dois(&dois);
    assert_eq!(valid, vec!["10.1/a".to_string(), "10.1/b".to_string()]);
    let ids = format_doi_ids(&valid);
    assert_eq!(ids, vec!["DOI:10.1/a".to_string(), "DOI:10.1/b".to_string()]);
}

#[test]
fn test_backoff_monotonic_and_exhausts() {
    // one failing task: waits never shrink, and the lookup resolves
    // to no result after exactly three attempts
    let mut st = RetryState::new(3);
    let d1 = st.step(LookupOutcome::Transient);
    let w1 = match d1 {
        RetryDecision::Backoff(w) => w,
        _ => panic!("first failure must back off"),
    };
    assert_eq!(w1, 500);
    let d2 = st.step(LookupOutcome::Transient);
    let w2 = match d2 {
        RetryDecision::Backoff(w) => w,
        _ => panic!("second failure must back off"),
    };
    assert_eq!(w2, 1000);
    assert!(w2 >= w1);
    let d3 = st.step(LookupOutcome::Transient);
    assert_eq!(d3, RetryDecision::GiveUp);
}

#[test]
fn test_rate_limit_hint_respected() {
    let mut st = RetryState::new(3);
    let d = st.step(LookupOutcome::RateLimited(5));
    // the wait honours the server hint when it exceeds the backoff
    assert_eq!(d, RetryDecision::Backoff(5000));
    let d2 = st.step(LookupOutcome::RateLimited(0));
    // and falls back to the doubled backoff when the hint is smaller
    assert_eq!(d2, RetryDecision::Backoff(1000));
}

#[test]
fn test_permanent_failure_not_retried() {
    let mut st = RetryState::new(3);
    assert_eq!(st.step(LookupOutcome::Permanent), RetryDecision::GiveUp);

    let mut st2 = RetryState::new(3);
    assert_eq!(st2.step(LookupOutcome::NotFound), RetryDecision::Resolved);
}
