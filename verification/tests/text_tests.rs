//! Text utilities: tag stripping, rendering, parsing, sanitizing.

use rustgscholar::crossref::strip_html_tags;
use rustgscholar::pipeline::parse_pages;
use rustgscholar::pipeline::sanitize_keyword;
use rustgscholar::prompts::relevance_filter::build_user_prompt;
use rustgscholar::text::i64_to_string;
use rustgscholar::text::replace_all;
use rustgscholar::text::str_contains;
use rustgscholar::text::to_ascii_lowercase;
use rustgscholar::text::trim_str;
use rustgscholar::text::u64_to_string;

#[test]
fn test_strip_html_tags() {
    assert_eq!(strip_html_tags("<p>Hello</p>"), "Hello");
    assert_eq!(strip_html_tags("No tags"), "No tags");
    assert_eq!(
        strip_html_tags("<b>Bold</b> and <i>italic</i>"),
        "Bold and italic"
    );
}

#[test]
fn test_strip_html_tags_edges() {
    assert_eq!(strip_html_tags(""), "");
    // an empty pair and an unclosed bracket are not tags
    assert_eq!(strip_html_tags("a<>b"), "a<>b");
    assert_eq!(strip_html_tags("a<unclosed"), "a<unclosed");
    assert_eq!(strip_html_tags("<jats:p>text</jats:p>"), "text");
}

#[test]
fn test_build_user_prompt() {
    let prompt = build_user_prompt("landslide, slope", r#"{"title": "test"}"#);
    assert!(prompt.contains("landslide, slope"));
    assert!(prompt.contains(r#"{"title": "test"}"#));
}

#[test]
fn test_parse_pages_single() {
    let pages = parse_pages("3").unwrap();
    assert_eq!(pages, vec![3]);
}

#[test]
fn test_parse_pages_range() {
    let pages = parse_pages("1-5").unwrap();
    assert_eq!(pages, vec![1, 2, 3, 4, 5]);
}

#[test]
fn test_parse_pages_rejects_malformed() {
    assert!(parse_pages("1-2-3").is_err());
    assert!(parse_pages("abc").is_err());
    assert!(parse_pages("").is_err());
    assert!(parse_pages("1-").is_err());
}

#[test]
fn test_sanitize_keyword() {
    assert_eq!(sanitize_keyword("machine learning"), "machine_learning");
    assert_eq!(sanitize_keyword("  a/b: c  "), "ab_c");
    assert_eq!(sanitize_keyword("snow-melt_2024"), "snow-melt_2024");
}

#[test]
fn test_number_rendering() {
    assert_eq!(u64_to_string(0), "0");
    assert_eq!(u64_to_string(1234), "1234");
    assert_eq!(i64_to_string(-45), "-45");
    assert_eq!(i64_to_string(2023), "2023");
}

#[test]
fn test_lowercase_and_trim() {
    assert_eq!(to_ascii_lowercase("10.1234/AbC"), "10.1234/abc");
    assert_eq!(trim_str("  Nature \t"), "Nature");
    assert_eq!(trim_str("\r\n"), "");
}

#[test]
fn test_replace_and_contains() {
    assert_eq!(replace_all("a-b-c", "-", "+"), "a+b+c");
    assert_eq!(
        replace_all("https://doi.org/10.1/x", "https://doi.org/", ""),
        "10.1/x"
    );
    assert!(str_contains("Q1/Q2", "Q1"));
    assert!(!str_contains("Q2", "Q1"));
}
