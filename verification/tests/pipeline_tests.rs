//! Orchestrator decisions: page reassembly, ranking filters, stages.

use rustgscholar::llm_filter::FilterResult;
use rustgscholar::openalex::OpenAlexResult;
use rustgscholar::pipeline::apply_rankings;
use rustgscholar::pipeline::assemble_pages;
use rustgscholar::pipeline::count_labels;
use rustgscholar::pipeline::extract_relevant;
use rustgscholar::pipeline::next_stage;
use rustgscholar::pipeline::year_floor;
use rustgscholar::pipeline::EnrichedResult;
use rustgscholar::pipeline::FilterSpec;
use rustgscholar::pipeline::PipelineConfig;
use rustgscholar::pipeline::PipelineStage;
use rustgscholar::rankings::RankingClient;
use rustgscholar::rankings::RankingMetrics;
use rustgscholar::unified::UnifiedResult;

fn oa(title: &str) -> OpenAlexResult {
    OpenAlexResult {
        title: title.to_string(),
        author: String::new(),
        year: String::new(),
        publication_date: String::new(),
        venue: String::new(),
        source_type: String::new(),
        doi: String::new(),
        article_url: String::new(),
        pdf_url: String::new(),
        citations: String::new(),
        snippet: String::new(),
        openalex_id: String::new(),
        is_oa: false,
        oa_status: String::new(),
        oa_url: String::new(),
        language: String::new(),
        work_type: String::new(),
        keywords: String::new(),
        primary_topic: String::new(),
        referenced_works: String::new(),
        related_works: String::new(),
        referenced_works_count: 0,
        related_works_count: 0,
        locations_count: 0,
    }
}

fn enriched(journal: &str) -> EnrichedResult {
    EnrichedResult {
        title: format!("t {}", journal),
        author: String::new(),
        year: String::new(),
        publication_date: String::new(),
        venue: String::new(),
        article_url: String::new(),
        citations: String::new(),
        snippet: String::new(),
        doi: String::new(),
        journal: journal.to_string(),
        crossref_authors: String::new(),
        crossref_date: String::new(),
        abstract_text: String::new(),
        if_score: String::new(),
        jci_score: String::new(),
        sci_partition: String::new(),
        sci_up_top: String::new(),
        sci_base: String::new(),
        sci_up: String::new(),
    }
}

fn no_filters() -> FilterSpec {
    FilterSpec {
        sciif: None,
        jci: None,
        sci: None,
        sci_up_top: None,
        sci_base: None,
        sci_up: None,
    }
}

#[test]
fn test_partial_failure_isolation() {
    // page 2 failed: the final list is pages 1 and 3 concatenated in
    // page order, with no error raised
    let requested = vec![1, 2, 3];
    let got = vec![
        (3, vec![oa("c1"), oa("c2")]),
        (1, vec![oa("a1")]),
    ];
    let all = assemble_pages(&requested, &got);
    let titles: Vec<&str> = all.iter().map(|r| r.title.as_str()).collect();
    assert_eq!(titles, vec!["a1", "c1", "c2"]);
}

#[test]
fn test_filter_semantics() {
    // numericMin("impactFactor", 5.0): a 4.9 record is excluded, a
    // record with no metrics is excluded while the filter is active
    let mut client = RankingClient::new("SECRET-REDACTED".to_string());
    client.store(
        "Low Journal".to_string(),
        Some(RankingMetrics {
            sciif: Some("4.9".to_string()),
            jci: None,
            sci: None,
            sci_up_top: None,
            sci_base: None,
            sci_up: None,
        }),
    );
    client.store(
        "High Journal".to_string(),
        Some(RankingMetrics {
            sciif: Some("5.5".to_string()),
            jci: None,
            sci: None,
            sci_up_top: None,
            sci_base: None,
            sci_up: None,
        }),
    );
    client.store("Unranked Journal".to_string(), None);

    let items = vec![
        enriched("Low Journal"),
        enriched("High Journal"),
        enriched("Unranked Journal"),
        enriched(""),
    ];

    let active = FilterSpec { sciif: Some("5.0".to_string()), ..no_filters() };
    let kept = apply_rankings(&items, &client, &active);
    assert_eq!(kept.len(), 1);
    assert_eq!(kept[0].journal, "High Journal");
    assert_eq!(kept[0].if_score, "5.5");

    // with no filter active, every record is kept: metrics attached
    // when found, unattached when not
    let all = apply_rankings(&items, &client, &no_filters());
    assert_eq!(all.len(), 4);
    assert_eq!(all[0].if_score, "4.9");
    assert_eq!(all[1].if_score, "5.5");
    assert_eq!(all[2].if_score, "");
    assert_eq!(all[3].if_score, "");
}

fn unified(doi: &str) -> UnifiedResult {
    UnifiedResult {
        title: format!("u {}", doi),
        author: String::new(),
        date: String::new(),
        doi: doi.to_string(),
        article_url: String::new(),
        pdf_url: String::new(),
        abstract_text: String::new(),
        tldr: String::new(),
        journal: String::new(),
        if_score: String::new(),
        jci_score: String::new(),
        sci_partition: String::new(),
    }
}

fn verdict(id: &str, label: &str) -> FilterResult {
    FilterResult {
        id: id.to_string(),
        title: String::new(),
        label: label.to_string(),
        confidence: "0.9".to_string(),
        evidence: String::new(),
        reason: String::new(),
    }
}

#[test]
fn test_extract_relevant_joins_case_insensitive() {
    let unified_rows = vec![unified("10.1/A"), unified("10.1/b"), unified("10.1/c")];
    let verdicts = vec![
        verdict("10.1/a", "relevant"),
        verdict("10.1/B", "irrelevant"),
        verdict("10.1/c", "weird-label"),
    ];
    let kept = extract_relevant(&unified_rows, &verdicts);
    assert_eq!(kept.len(), 1);
    assert_eq!(kept[0].doi, "10.1/A");
    assert_eq!(kept[0].confidence, "0.9");
}

#[test]
fn test_count_labels() {
    let verdicts = vec![
        verdict("a", "relevant"),
        verdict("b", "irrelevant"),
        verdict("c", "relevant"),
        verdict("d", "uncertain"),
        verdict("e", "other"),
    ];
    assert_eq!(count_labels(&verdicts), (2, 1, 1));
}

#[test]
fn test_stage_sequencing() {
    let cfg = PipelineConfig { use_openalex: false, ranking_key: true, llm: true };
    assert_eq!(next_stage(&cfg, PipelineStage::Search, true), PipelineStage::Enrich);
    assert_eq!(next_stage(&cfg, PipelineStage::Enrich, true), PipelineStage::Rank);
    assert_eq!(next_stage(&cfg, PipelineStage::Rank, true), PipelineStage::BatchMetadata);
    assert_eq!(next_stage(&cfg, PipelineStage::BatchMetadata, true), PipelineStage::Fuse);
    assert_eq!(next_stage(&cfg, PipelineStage::Fuse, true), PipelineStage::Classify);
    assert_eq!(next_stage(&cfg, PipelineStage::Classify, true), PipelineStage::Extract);
    assert_eq!(next_stage(&cfg, PipelineStage::Extract, true), PipelineStage::Done);

    // empty output ends the run early, as the expected no-results case
    assert_eq!(next_stage(&cfg, PipelineStage::Search, false), PipelineStage::Done);

    // the catalog source skips enrichment; a missing ranking key or
    // classification endpoint ends the run after the last enabled stage
    let oa_cfg = PipelineConfig { use_openalex: true, ranking_key: true, llm: false };
    assert_eq!(next_stage(&oa_cfg, PipelineStage::Search, true), PipelineStage::Rank);
    assert_eq!(next_stage(&oa_cfg, PipelineStage::Fuse, true), PipelineStage::Done);
    let bare = PipelineConfig { use_openalex: false, ranking_key: false, llm: false };
    assert_eq!(next_stage(&bare, PipelineStage::Search, true), PipelineStage::Enrich);
    assert_eq!(next_stage(&bare, PipelineStage::Enrich, true), PipelineStage::Done);
}

#[test]
fn test_year_floor() {
    assert_eq!(year_floor(2026, None), 2021);
    assert_eq!(year_floor(2026, Some(2019)), 2019);
}
