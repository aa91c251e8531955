//! Fusion, idempotence, and the per-title metadata parser.

use rustgscholar::crossref::parse_crossref_item;
use rustgscholar::crossref::CrossrefAuthor;
use rustgscholar::crossref::CrossrefItem;
use rustgscholar::crossref::CrossrefPublished;
use rustgscholar::semanticscholar::SemanticScholarResult;
use rustgscholar::unified::generate_unified;
use rustgscholar::unified::EnrichedInput;

fn base(doi: &str) -> EnrichedInput {
    EnrichedInput {
        title: format!("title {}", doi),
        author: "A. Author".to_string(),
        year: "2023".to_string(),
        publication_date: String::new(),
        doi: doi.to_string(),
        article_url: String::new(),
        abstract_text: "base abstract".to_string(),
        journal: "J".to_string(),
        if_score: String::new(),
        jci_score: String::new(),
        sci_partition: String::new(),
    }
}

fn ss(doi: &str, abs: &str, url: &str) -> SemanticScholarResult {
    SemanticScholarResult {
        title: format!("ss {}", doi),
        doi: doi.to_string(),
        ss_abstract: abs.to_string(),
        tldr: format!("tldr {}", doi),
        ss_url: url.to_string(),
        is_oa: true,
        oa_pdf_url: format!("https://pdf/{}", doi),
        paper_id: "p".to_string(),
        embedding: String::new(),
    }
}

#[test]
fn test_doi_join_case_insensitive() {
    // the empty-DOI record is dropped; the others join their source
    // records case-insensitively
    let bases = vec![base("10.1/a"), base(""), base("10.1/B")];
    let sources = vec![ss("10.1/a", "X abs", "https://x"), ss("10.1/b", "Y abs", "https://y")];
    let fused = generate_unified(&bases, &sources);
    assert_eq!(fused.len(), 2);
    assert_eq!(fused[0].doi, "10.1/a");
    assert_eq!(fused[0].abstract_text, "X abs");
    assert_eq!(fused[1].doi, "10.1/B");
    assert_eq!(fused[1].abstract_text, "Y abs");
    assert_eq!(fused[1].tldr, "tldr 10.1/b");
}

#[test]
fn test_fusion_idempotent() {
    let bases = vec![base("10.1/a"), base("10.1/B"), base("")];
    let sources = vec![ss("10.1/A", "abs", "https://x")];
    let once = generate_unified(&bases, &sources);
    let twice = generate_unified(&bases, &sources);
    assert_eq!(once.len(), twice.len());
    for (u, v) in once.iter().zip(twice.iter()) {
        assert_eq!(u.title, v.title);
        assert_eq!(u.author, v.author);
        assert_eq!(u.date, v.date);
        assert_eq!(u.doi, v.doi);
        assert_eq!(u.article_url, v.article_url);
        assert_eq!(u.pdf_url, v.pdf_url);
        assert_eq!(u.abstract_text, v.abstract_text);
        assert_eq!(u.tldr, v.tldr);
        assert_eq!(u.journal, v.journal);
        assert_eq!(u.if_score, v.if_score);
        assert_eq!(u.jci_score, v.jci_score);
        assert_eq!(u.sci_partition, v.sci_partition);
    }
}

#[test]
fn test_fusion_field_priorities() {
    // empty source abstract falls back to the base; the full date
    // beats the bare year; the base URL beats the source URL
    let mut b = base("10.1/a");
    b.publication_date = "2023-06-15".to_string();
    b.article_url = "https://base".to_string();
    let sources = vec![ss("10.1/a", "", "https://ss")];
    let fused = generate_unified(&vec![b], &sources);
    assert_eq!(fused.len(), 1);
    assert_eq!(fused[0].abstract_text, "base abstract");
    assert_eq!(fused[0].date, "2023-06-15");
    assert_eq!(fused[0].article_url, "https://base");

    // without a joined source record the date falls back to the year
    let fused2 = generate_unified(&vec![base("10.9/z")], &Vec::new());
    assert_eq!(fused2[0].date, "2023");
    assert_eq!(fused2[0].pdf_url, "");
    assert_eq!(fused2[0].tldr, "");
}

#[test]
fn test_parse_crossref_item() {
    let item = CrossrefItem {
        doi: "10.1234/test".to_string(),
        title: vec!["Test Title".to_string()],
        author: vec![CrossrefAuthor {
            given: "John".to_string(),
            family: "Doe".to_string(),
        }],
        container_title: vec!["Nature".to_string()],
        published: Some(CrossrefPublished {
            date_parts: vec![vec![2023, 6, 15]],
        }),
        abstract_text: Some("<p>This is abstract</p>".to_string()),
    };

    let metadata = parse_crossref_item(item);
    assert_eq!(metadata.doi, "10.1234/test");
    assert_eq!(metadata.authors, "John Doe");
    assert_eq!(metadata.date, "2023-6-15");
    assert_eq!(metadata.abstract_text, "This is abstract");
    assert_eq!(metadata.journal, "Nature");
    assert_eq!(metadata.crossref_title, "Test Title");
}
