//! Ranking cache memoization and the declarative filters.

use rustgscholar::rankings::gate_wait_ms;
use rustgscholar::rankings::extract_metrics;
use rustgscholar::rankings::get_value;
use rustgscholar::rankings::RankFetchOutcome;
use rustgscholar::rankings::RankingClient;
use rustgscholar::rankings::RankingMetrics;
use rustgscholar::rankings::RankPlan;

fn metrics_with_if(v: &str) -> RankingMetrics {
    RankingMetrics {
        sciif: Some(v.to_string()),
        jci: None,
        sci: None,
        sci_up_top: None,
        sci_base: None,
        sci_up: None,
    }
}

#[test]
fn test_passes_numeric_filter() {
    assert!(RankingClient::passes_numeric_filter(Some("5.5"), "5.0"));
    assert!(!RankingClient::passes_numeric_filter(Some("4.9"), "5.0"));
    assert!(!RankingClient::passes_numeric_filter(None, "5.0"));
    assert!(!RankingClient::passes_numeric_filter(Some("invalid"), "5.0"));
}

#[test]
fn test_passes_numeric_filter_exact() {
    assert!(RankingClient::passes_numeric_filter(Some("5.0"), "5"));
    assert!(RankingClient::passes_numeric_filter(Some("5"), "5.0"));
    assert!(RankingClient::passes_numeric_filter(Some("-1.5"), "-2"));
    assert!(!RankingClient::passes_numeric_filter(Some("-2.5"), "-2"));
    assert!(RankingClient::passes_numeric_filter(Some("10.25"), "10.2"));
    assert!(!RankingClient::passes_numeric_filter(Some("10.19"), "10.2"));
}

#[test]
fn test_passes_string_filter() {
    assert!(RankingClient::passes_string_filter(Some("Q1"), "Q1"));
    assert!(RankingClient::passes_string_filter(Some("Q1/Q2"), "Q1"));
    assert!(!RankingClient::passes_string_filter(Some("Q2"), "Q1"));
    assert!(!RankingClient::passes_string_filter(None, "Q1"));
}

#[test]
fn test_cache_one_fetch_per_distinct_venue() {
    // duplicate lookups of one venue cost exactly one underlying call
    let mut client = RankingClient::new("SECRET-REDACTED".to_string());
    let venues = ["Nature", "Science", "Nature", " Nature ", "Science"];
    let mut network_calls = 0usize;
    for v in venues {
        match client.get_rank_plan(v) {
            RankPlan::SkipEmpty => {}
            RankPlan::Hit(_) => {}
            RankPlan::Fetch(trimmed) => {
                network_calls += 1;
                // whatever the network answered is stored, found or not
                let answer = if trimmed == "Nature" {
                    Some(metrics_with_if("50.5"))
                } else {
                    None
                };
                client.store(trimmed, answer);
            }
        }
    }
    assert_eq!(network_calls, 2);
    assert_eq!(client.fetches(), 2);
    // a cached "not found" answers without another call
    match client.get_rank_plan("Science") {
        RankPlan::Hit(m) => assert!(m.is_none()),
        _ => panic!("second lookup must hit the cache"),
    }
    // blank venues never touch the network
    match client.get_rank_plan("   ") {
        RankPlan::SkipEmpty => {}
        _ => panic!("blank venue must resolve to nothing"),
    }
    assert_eq!(client.fetches(), 2);
}

#[test]
fn test_failed_fetch_is_not_cached() {
    // a transport error caches nothing: the venue is fetched again on
    // its next occurrence; a definitive "unranked" answer is cached
    let mut client = RankingClient::new("SECRET-REDACTED".to_string());
    match client.get_rank_plan("Nature") {
        RankPlan::Fetch(venue) => client.record_fetch(venue, RankFetchOutcome::Error),
        _ => panic!("an unknown venue must be fetched"),
    }
    assert_eq!(client.fetches(), 0);
    match client.get_rank_plan("Nature") {
        RankPlan::Fetch(venue) => client.record_fetch(venue, RankFetchOutcome::NotFound),
        _ => panic!("an errored venue must stay retryable"),
    }
    assert_eq!(client.fetches(), 1);
    match client.get_rank_plan("Nature") {
        RankPlan::Hit(m) => assert!(m.is_none()),
        _ => panic!("a definitive answer must be cached"),
    }
    match client.get_rank_plan("Science") {
        RankPlan::Fetch(venue) => {
            client.record_fetch(venue, RankFetchOutcome::Found(metrics_with_if("9.1")))
        }
        _ => panic!("an unknown venue must be fetched"),
    }
    match client.get_rank_plan("Science") {
        RankPlan::Hit(Some(m)) => assert_eq!(m.sciif, Some("9.1".to_string())),
        _ => panic!("found metrics must be cached"),
    }
}

#[test]
fn test_get_metric() {
    let m = metrics_with_if("7.1");
    assert_eq!(RankingClient::get_metric(&m, "sciif"), Some("7.1".to_string()));
    assert_eq!(RankingClient::get_metric(&m, "jci"), None);
    assert_eq!(RankingClient::get_metric(&m, "unknown"), None);
}

#[test]
fn test_gate_wait() {
    assert_eq!(gate_wait_ms(None, 1_000), 0);
    assert_eq!(gate_wait_ms(Some(500), 1_000), 600);
    assert_eq!(gate_wait_ms(Some(100), 1_000), 0);
    assert_eq!(gate_wait_ms(Some(401), 1_000), 600);
}

#[test]
fn test_get_value_prefers_and_hides() {
    let preferred = vec![
        ("sciif".to_string(), Some("5.5".to_string())),
        ("jci".to_string(), None),
    ];
    let fallback = vec![
        ("sciif".to_string(), Some("9.9".to_string())),
        ("jci".to_string(), Some("1.2".to_string())),
        ("sci".to_string(), Some("Q1".to_string())),
    ];
    assert_eq!(get_value(&preferred, &fallback, "sciif"), Some("5.5".to_string()));
    // an explicitly null preferred value is final and hides the fallback
    assert_eq!(get_value(&preferred, &fallback, "jci"), None);
    assert_eq!(get_value(&preferred, &fallback, "sci"), Some("Q1".to_string()));
    assert_eq!(get_value(&preferred, &fallback, "none"), None);

    let m = extract_metrics(&preferred, &fallback);
    assert_eq!(m.sciif, Some("5.5".to_string()));
    assert_eq!(m.jci, None);
    assert_eq!(m.sci, Some("Q1".to_string()));
}
