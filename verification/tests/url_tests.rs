//! Request construction: search URLs, cookies, response conversion.

use rustgscholar::cookies::Cookie;
use rustgscholar::cookies::CookieManager;
use rustgscholar::gscholar;
use rustgscholar::gscholar::build_cookie_header;
use rustgscholar::openalex;
use rustgscholar::openalex::reconstruct_abstract;
use rustgscholar::openalex::convert_work;
use rustgscholar::openalex::OpenAlexLocationFields;
use rustgscholar::openalex::OpenAlexOpenAccessFields;
use rustgscholar::openalex::OpenAlexWorkFields;

fn cookie(name: &str, value: &str, domain: &str) -> Cookie {
    Cookie {
        name: name.to_string(),
        value: value.to_string(),
        domain: domain.to_string(),
        path: "/".to_string(),
        secure: false,
        http_only: false,
    }
}

#[test]
fn gscholar_test_build_search_url() {
    let url = gscholar::build_search_url(
        "https://scholar.google.com",
        "machine learning",
        0,
        "0,5",
        Some(2020),
    );
    assert!(url.contains("q=machine+learning"));
    assert!(url.contains("as_ylo=2020"));
    assert!(url.starts_with("https://scholar.google.com/scholar?"));
    assert!(url.contains("hl=en-US"));
}

fn empty_work() -> OpenAlexWorkFields {
    OpenAlexWorkFields {
        id: None,
        title: None,
        display_name: None,
        publication_year: None,
        publication_date: None,
        doi: None,
        cited_by_count: None,
        abstract_index: None,
        authorships: None,
        primary_location: None,
        best_oa_location: None,
        open_access: None,
        language: None,
        work_type: None,
        keywords: None,
        primary_topic: None,
        referenced_works: None,
        referenced_works_count: None,
        related_works: None,
        locations_count: None,
    }
}

#[test]
fn openalex_test_build_search_url() {
    let options = openalex::QueryOptions {
        pages: vec![1],
        ylo: Some(2020),
        yhi: None,
        all_results: true,
    };

    let url = openalex::build_search_url("machine learning", 1, &options);
    assert!(url.contains("search=machine%20learning"));
    assert!(url.contains("per-page=200"));
    assert!(url.contains("mailto="));
    assert!(url.contains("publication_year:>2019"));
}

#[test]
fn test_cookie_header_filters_domains() {
    let cookies = vec![
        cookie("NID", "abc", ".google.com"),
        cookie("other", "x", ".example.com"),
        cookie("SID", "def", "scholar.google.com"),
    ];
    assert_eq!(build_cookie_header(&cookies), "NID=abc; SID=def");
    assert_eq!(build_cookie_header(&Vec::new()), "");
}

#[test]
fn test_cookie_manager_paths() {
    let m = CookieManager::with_path("/tmp/cookies.json".to_string());
    assert_eq!(m.path().as_str(), "/tmp/cookies.json");

    let cookies = vec![
        cookie("a", "1", "d"),
        cookie("b", "2", "d"),
        cookie("a", "3", "d"),
    ];
    let map = m.load_as_map(&cookies);
    assert_eq!(map.len(), 2);
    // the later cookie of a name wins
    let a = map.iter().find(|(n, _)| n.as_str() == "a").unwrap();
    assert_eq!(a.1, "3");
    let b = map.iter().find(|(n, _)| n.as_str() == "b").unwrap();
    assert_eq!(b.1, "2");
}

#[test]
fn test_reconstruct_abstract() {
    // words regain their positions whatever order the index lists them
    let index = vec![
        ("landslides".to_string(), vec![2i64]),
        ("about".to_string(), vec![1]),
        ("research".to_string(), vec![0, 3]),
    ];
    assert_eq!(reconstruct_abstract(&index), "research about landslides research");
    assert_eq!(reconstruct_abstract(&Vec::new()), "");
}

#[test]
fn test_convert_work_fallbacks() {
    let mut w = empty_work();
    w.title = Some("plain title".to_string());
    w.doi = Some("https://doi.org/10.5/X".to_string());
    w.publication_year = Some(2021);
    w.cited_by_count = Some(42);
    w.authorships = Some(vec![
        Some("A One".to_string()),
        None,
        Some("B Two".to_string()),
        Some("C Three".to_string()),
    ]);
    w.best_oa_location = Some(OpenAlexLocationFields {
        source_name: None,
        source_type: None,
        landing_page_url: Some("https://land".to_string()),
        pdf_url: Some("https://pdf".to_string()),
    });
    w.open_access = Some(OpenAlexOpenAccessFields {
        is_oa: Some(true),
        oa_status: Some("gold".to_string()),
        oa_url: Some("https://oa".to_string()),
    });
    w.keywords = Some(vec![Some("k1".to_string()), None, Some("k2".to_string())]);
    w.referenced_works = Some(vec!["W1".to_string(), "W2".to_string()]);

    let r = convert_work(w);
    assert_eq!(r.title, "plain title");
    assert_eq!(r.doi, "10.5/X");
    assert_eq!(r.year, "2021");
    assert_eq!(r.citations, "42");
    // two named authors among the first three authorships, and a
    // fourth authorship adds the ellipsis
    assert_eq!(r.author, "A One, B Two ...");
    assert_eq!(r.article_url, "https://land");
    assert_eq!(r.pdf_url, "https://pdf");
    assert!(r.is_oa);
    assert_eq!(r.oa_status, "gold");
    assert_eq!(r.keywords, "k1, k2");
    assert_eq!(r.referenced_works, "W1,W2");
    assert_eq!(r.referenced_works_count, 2);
    assert_eq!(r.related_works_count, 0);
}
