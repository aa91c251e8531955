//! The run orchestrator's decision logic.
//!
//! A run walks a linear sequence of stages — search, enrichment,
//! ranking, batch metadata, fusion, classification, extraction — each
//! consuming the previous stage's output, skipping stages the
//! configuration turns off, and ending early (not failing) when a
//! stage produces nothing.  Everything the orchestrator decides —
//! page-range parsing, stage transitions, record merging, declarative
//! filtering, page reassembly, relevant-record extraction — is here;
//! the I/O driver only moves bytes.

use crate::crossref::CrossrefMetadata;
use crate::decimal::numeric_filter_passes;
use crate::error::GscholarError;
use crate::gscholar::ScholarResult;
use crate::llm_filter::FilterResult;
use crate::openalex::OpenAlexResult;
use crate::rankings::RankingClient;
use crate::rankings::RankingMetrics;
use crate::rankings::string_filter_passes;
use crate::text::first_index_spec;
use crate::text::find_char;
use crate::text::lower_seq;
use crate::text::parse_i32;
use crate::text::parse_int_seq;
use crate::text::push_char;
use crate::text::str_eq;
use crate::text::trim_seq;
use crate::text::trim_str;
use crate::unified::UnifiedResult;
use vstd::prelude::*;

use vstd::string::StrSliceExecFns;
use vstd::string::StringExecFns;

verus! {

broadcast use vstd::string::group_string_axioms;

/// The consecutive pages `start..=end` as 1-indexed page numbers;
/// empty when the range is reversed.
pub open spec fn page_range(start: int, end: int) -> Seq<i32> {
    if end >= start {
        Seq::new((end - start + 1) as nat, |k: int| (start + k) as i32)
    } else {
        Seq::<i32>::empty()
    }
}

/// The pages a `--pages` argument denotes: either one number, or two
/// numbers around a single `-` making an inclusive range; anything
/// else — a second dash, a non-number, a value outside 32 bits — is
/// rejected.
pub open spec fn parse_pages_spec(s: Seq<char>) -> Option<Seq<i32>> {
    let d = first_index_spec(s, '-');
    if d < s.len() {
        let a = s.take(d);
        let b = s.skip(d + 1);
        if first_index_spec(b, '-') < b.len() {
            None
        } else {
            match (parse_int_seq(a), parse_int_seq(b)) {
                (Some(x), Some(y)) => if -2147483648 <= x <= 2147483647 && -2147483648 <= y
                    <= 2147483647 {
                    Some(page_range(x, y))
                } else {
                    None
                },
                _ => None,
            }
        }
    } else {
        match parse_int_seq(s) {
            Some(x) => if -2147483648 <= x <= 2147483647 {
                Some(seq![x as i32])
            } else {
                None
            },
            None => None,
        }
    }
}

/// Parses a page argument such as `"3"` or `"1-10"` into the page
/// list, rejecting malformed ranges.
pub fn parse_pages(pages_str: &str) -> (r: Result<Vec<i32>, GscholarError>)
    ensures
        match parse_pages_spec(pages_str@) {
            Some(ps) => r is Ok && r->Ok_0@ == ps,
            None => r is Err && r->Err_0 is Validation,
        },
{
    let n = pages_str.unicode_len();
    let d = find_char(pages_str, '-');
    if d < n {
        let a = pages_str.substring_char(0, d);
        let b = pages_str.substring_char(d + 1, n);
        assert(a@ =~= pages_str@.take(d as int));
        assert(b@ =~= pages_str@.skip(d + 1));
        let d2 = find_char(b, '-');
        let bn = b.unicode_len();
        if d2 < bn {
            return Err(
                GscholarError::Validation(String::from_str("Invalid page range format")),
            );
        }
        match (parse_i32(a), parse_i32(b)) {
            (Some(x), Some(y)) => {
                let mut pages: Vec<i32> = Vec::new();
                if y >= x {
                    let mut cur = x;
                    loop
                        invariant_except_break
                            x <= cur <= y,
                            pages@ =~= page_range(x as int, y as int).take(cur - x),
                        ensures
                            pages@ == page_range(x as int, y as int),
                        decreases y - cur,
                    {
                        pages.push(cur);
                        assert(pages@ =~= page_range(x as int, y as int).take(cur - x + 1));
                        if cur == y {
                            assert(pages@ =~= page_range(x as int, y as int));
                            break ;
                        }
                        cur = cur + 1;
                    }
                } else {
                    assert(pages@ =~= page_range(x as int, y as int));
                }
                Ok(pages)
            },
            _ => Err(GscholarError::Validation(String::from_str("Invalid page number"))),
        }
    } else {
        assert(pages_str@.take(n as int) =~= pages_str@);
        match parse_i32(pages_str) {
            Some(x) => {
                let mut pages: Vec<i32> = Vec::new();
                pages.push(x);
                assert(pages@ =~= seq![x]);
                Ok(pages)
            },
            None => Err(GscholarError::Validation(String::from_str("Invalid page number"))),
        }
    }
}

/// The default page list: the first page alone.
pub fn default_pages() -> (r: Vec<i32>)
    ensures
        r@ == seq![1i32],
{
    let mut pages: Vec<i32> = Vec::new();
    pages.push(1);
    assert(pages@ =~= seq![1i32]);
    pages
}

/// Whether a character counts as alphanumeric for file-name
/// sanitizing.
pub uninterp spec fn is_alnum_char(c: char) -> bool;

/// Whether the character is alphanumeric.
///
/// Relies on `char::is_alphanumeric`: the result depends on the
/// character alone.
#[verifier::external_body]
fn char_is_alphanumeric(c: char) -> (r: bool)
    ensures
        r == is_alnum_char(c),
{
    c.is_alphanumeric()
}

/// A character kept when sanitizing a keyword into a folder name.
pub open spec fn keep_kw_char(c: char) -> bool {
    is_alnum_char(c) || c == ' ' || c == '-' || c == '_'
}

/// The folder-name form of a keyword: unsafe characters dropped, the
/// ends trimmed, spaces turned to underscores.
pub open spec fn sanitize_spec(s: Seq<char>) -> Seq<char> {
    trim_seq(s.filter(|c: char| keep_kw_char(c))).map_values(
        |c: char| if c == ' ' {
            '_'
        } else {
            c
        },
    )
}

/// Sanitizes a keyword for use in an output folder name.
pub fn sanitize_keyword(keyword: &str) -> (r: String)
    ensures
        r@ == sanitize_spec(keyword@),
{
    broadcast use vstd::seq_lib::group_seq_lib_default;

    let n = keyword.unicode_len();
    let mut filtered = String::new();
    let mut i: usize = 0;
    while i < n
        invariant
            n == keyword@.len(),
            i <= n,
            filtered@ == keyword@.take(i as int).filter(|c: char| keep_kw_char(c)),
        decreases n - i,
    {
        let ghost prefix = keyword@.take(i as int);
        proof {
            reveal_with_fuel(Seq::filter, 2);
            assert(keyword@.take(i + 1).drop_last() =~= prefix);
            assert(keyword@.take(i + 1).last() == keyword@[i as int]);
        }
        let c = keyword.get_char(i);
        if char_is_alphanumeric(c) || c == ' ' || c == '-' || c == '_' {
            push_char(&mut filtered, c);
            assert(filtered@ =~= keyword@.take(i + 1).filter(|c: char| keep_kw_char(c)));
        } else {
            assert(filtered@ =~= keyword@.take(i + 1).filter(|c: char| keep_kw_char(c)));
        }
        i = i + 1;
    }
    assert(keyword@.take(n as int) =~= keyword@);
    let trimmed = trim_str(filtered.as_str());
    let ts = trimmed.as_str();
    let m = ts.unicode_len();
    let mut out = String::new();
    let mut j: usize = 0;
    while j < m
        invariant
            m == ts@.len(),
            j <= m,
            out@ == ts@.take(j as int).map_values(
                |c: char| if c == ' ' {
                    '_'
                } else {
                    c
                },
            ),
        decreases m - j,
    {
        let c = ts.get_char(j);
        if c == ' ' {
            push_char(&mut out, '_');
        } else {
            push_char(&mut out, c);
        }
        j = j + 1;
        assert(out@ =~= ts@.take(j as int).map_values(
            |c: char| if c == ' ' {
                '_'
            } else {
                c
            },
        ));
    }
    assert(ts@.take(m as int) =~= ts@);
    out
}

/// The year floor of a run: the caller's, or five years before the
/// current year.
pub fn year_floor(current_year: i32, ylo: Option<i32>) -> (r: i32)
    requires
        current_year >= i32::MIN + 5,
    ensures
        r as int == (if ylo is Some {
            ylo->0 as int
        } else {
            current_year - 5
        }),
{
    match ylo {
        Some(y) => y,
        None => current_year - 5,
    }
}

/// The stages of one run, in order.
#[derive(Debug, Clone, Copy, PartialEq, Eq, Structural)]
pub enum PipelineStage {
    /// Query the search source for candidate records.
    Search,
    /// Enrich candidates with per-title metadata.
    Enrich,
    /// Attach venue rankings and apply the declarative filters.
    Rank,
    /// Resolve per-id metadata in bounded batches.
    BatchMetadata,
    /// Fuse the per-source records into canonical records.
    Fuse,
    /// Classify each canonical record's relevance.
    Classify,
    /// Keep the records classified relevant.
    Extract,
    /// The run is over.
    Done,
}

/// What a run is configured to do.
#[derive(Debug, Clone, Copy, PartialEq, Eq, Structural)]
pub struct PipelineConfig {
    /// Search the works catalog (which already carries DOIs and needs
    /// no per-title enrichment) instead of the scholar pages.
    pub use_openalex: bool,
    /// A ranking key was supplied, enabling the ranking stage and all
    /// later stages.
    pub ranking_key: bool,
    /// A classification endpoint was supplied.
    pub llm: bool,
}

/// The stage after `s`: an empty result ends the run at once; the
/// catalog source skips enrichment; without a ranking key the run ends
/// after search or enrichment; without a classification endpoint it
/// ends after fusion.
pub open spec fn next_stage_spec(cfg: PipelineConfig, s: PipelineStage, has_items: bool)
    -> PipelineStage {
    if !has_items {
        PipelineStage::Done
    } else {
        match s {
            PipelineStage::Search => if cfg.use_openalex {
                if cfg.ranking_key {
                    PipelineStage::Rank
                } else {
                    PipelineStage::Done
                }
            } else {
                PipelineStage::Enrich
            },
            PipelineStage::Enrich => if cfg.ranking_key {
                PipelineStage::Rank
            } else {
                PipelineStage::Done
            },
            PipelineStage::Rank => PipelineStage::BatchMetadata,
            PipelineStage::BatchMetadata => PipelineStage::Fuse,
            PipelineStage::Fuse => if cfg.llm {
                PipelineStage::Classify
            } else {
                PipelineStage::Done
            },
            PipelineStage::Classify => PipelineStage::Extract,
            PipelineStage::Extract => PipelineStage::Done,
            PipelineStage::Done => PipelineStage::Done,
        }
    }
}

/// Advances the run to its next stage, given whether the stage just
/// finished produced any items.
pub fn next_stage(cfg: &PipelineConfig, s: PipelineStage, has_items: bool) -> (r: PipelineStage)
    ensures
        r == next_stage_spec(*cfg, s, has_items),
{
    if !has_items {
        return PipelineStage::Done;
    }
    match s {
        PipelineStage::Search => if cfg.use_openalex {
            if cfg.ranking_key {
                PipelineStage::Rank
            } else {
                PipelineStage::Done
            }
        } else {
            PipelineStage::Enrich
        },
        PipelineStage::Enrich => if cfg.ranking_key {
            PipelineStage::Rank
        } else {
            PipelineStage::Done
        },
        PipelineStage::Rank => PipelineStage::BatchMetadata,
        PipelineStage::BatchMetadata => PipelineStage::Fuse,
        PipelineStage::Fuse => if cfg.llm {
            PipelineStage::Classify
        } else {
            PipelineStage::Done
        },
        PipelineStage::Classify => PipelineStage::Extract,
        PipelineStage::Extract => PipelineStage::Done,
        PipelineStage::Done => PipelineStage::Done,
    }
}

/// Counts the verdicts of each label: relevant, irrelevant, uncertain.
pub fn count_labels(verdicts: &Vec<FilterResult>) -> (r: (usize, usize, usize))
    ensures
        r.0 == verdicts@.filter(|f: FilterResult| f.label@ == "relevant"@).len(),
        r.1 == verdicts@.filter(|f: FilterResult| f.label@ == "irrelevant"@).len(),
        r.2 == verdicts@.filter(|f: FilterResult| f.label@ == "uncertain"@).len(),
{
    broadcast use vstd::seq_lib::group_seq_lib_default;

    proof {
        reveal_strlit("relevant");
        reveal_strlit("irrelevant");
        reveal_strlit("uncertain");
    }
    let mut rel: usize = 0;
    let mut irr: usize = 0;
    let mut unc: usize = 0;
    let mut i: usize = 0;
    while i < verdicts.len()
        invariant
            i <= verdicts@.len(),
            rel == verdicts@.take(i as int).filter(|f: FilterResult| f.label@ == "relevant"@).len(),
            irr == verdicts@.take(i as int).filter(
                |f: FilterResult| f.label@ == "irrelevant"@,
            ).len(),
            unc == verdicts@.take(i as int).filter(
                |f: FilterResult| f.label@ == "uncertain"@,
            ).len(),
        decreases verdicts@.len() - i,
    {
        let ghost prefix = verdicts@.take(i as int);
        proof {
            reveal_strlit("relevant");
            reveal_strlit("irrelevant");
            reveal_strlit("uncertain");
            reveal_with_fuel(Seq::filter, 2);
            assert(verdicts@.take(i + 1).drop_last() =~= prefix);
            assert(verdicts@.take(i + 1).last() == verdicts@[i as int]);
        }
        let f = &verdicts[i];
        let is_rel = str_eq(f.label.as_str(), "relevant");
        let is_irr = str_eq(f.label.as_str(), "irrelevant");
        let is_unc = str_eq(f.label.as_str(), "uncertain");
        if is_rel {
            rel = rel + 1;
        }
        if is_irr {
            irr = irr + 1;
        }
        if is_unc {
            unc = unc + 1;
        }
        proof {
            assert(rel == verdicts@.take(i + 1).filter(
                |f: FilterResult| f.label@ == "relevant"@,
            ).len());
            assert(irr == verdicts@.take(i + 1).filter(
                |f: FilterResult| f.label@ == "irrelevant"@,
            ).len());
            assert(unc == verdicts@.take(i + 1).filter(
                |f: FilterResult| f.label@ == "uncertain"@,
            ).len());
        }
        i = i + 1;
    }
    assert(verdicts@.take(verdicts@.len() as int) =~= verdicts@);
    (rel, irr, unc)
}


/// One record as it moves between the middle stages, every source's
/// contribution accumulated additively.
#[derive(Debug, Clone)]
pub struct EnrichedResult {
    pub title: String,
    pub author: String,
    pub year: String,
    pub publication_date: String,
    pub venue: String,
    pub article_url: String,
    pub citations: String,
    pub snippet: String,
    pub doi: String,
    pub journal: String,
    pub crossref_authors: String,
    pub crossref_date: String,
    pub abstract_text: String,
    pub if_score: String,
    pub jci_score: String,
    pub sci_partition: String,
    pub sci_up_top: String,
    pub sci_base: String,
    pub sci_up: String,
}

/// The text of every field of an enriched record.
pub struct EnrichedView {
    pub title: Seq<char>,
    pub author: Seq<char>,
    pub year: Seq<char>,
    pub publication_date: Seq<char>,
    pub venue: Seq<char>,
    pub article_url: Seq<char>,
    pub citations: Seq<char>,
    pub snippet: Seq<char>,
    pub doi: Seq<char>,
    pub journal: Seq<char>,
    pub crossref_authors: Seq<char>,
    pub crossref_date: Seq<char>,
    pub abstract_text: Seq<char>,
    pub if_score: Seq<char>,
    pub jci_score: Seq<char>,
    pub sci_partition: Seq<char>,
    pub sci_up_top: Seq<char>,
    pub sci_base: Seq<char>,
    pub sci_up: Seq<char>,
}

/// The view of an executable enriched record.
pub open spec fn enriched_view(e: EnrichedResult) -> EnrichedView {
    EnrichedView {
        title: e.title@,
        author: e.author@,
        year: e.year@,
        publication_date: e.publication_date@,
        venue: e.venue@,
        article_url: e.article_url@,
        citations: e.citations@,
        snippet: e.snippet@,
        doi: e.doi@,
        journal: e.journal@,
        crossref_authors: e.crossref_authors@,
        crossref_date: e.crossref_date@,
        abstract_text: e.abstract_text@,
        if_score: e.if_score@,
        jci_score: e.jci_score@,
        sci_partition: e.sci_partition@,
        sci_up_top: e.sci_up_top@,
        sci_base: e.sci_base@,
        sci_up: e.sci_up@,
    }
}

/// A copy of an enriched record, with its contents pinned.
pub fn enriched_dup(e: &EnrichedResult) -> (r: EnrichedResult)
    ensures
        r == *e,
{
    EnrichedResult {
        title: e.title.clone(),
        author: e.author.clone(),
        year: e.year.clone(),
        publication_date: e.publication_date.clone(),
        venue: e.venue.clone(),
        article_url: e.article_url.clone(),
        citations: e.citations.clone(),
        snippet: e.snippet.clone(),
        doi: e.doi.clone(),
        journal: e.journal.clone(),
        crossref_authors: e.crossref_authors.clone(),
        crossref_date: e.crossref_date.clone(),
        abstract_text: e.abstract_text.clone(),
        if_score: e.if_score.clone(),
        jci_score: e.jci_score.clone(),
        sci_partition: e.sci_partition.clone(),
        sci_up_top: e.sci_up_top.clone(),
        sci_base: e.sci_base.clone(),
        sci_up: e.sci_up.clone(),
    }
}

/// The text of an optional string, empty when absent.
pub open spec fn opt_field_text(o: Option<String>) -> Seq<char> {
    if o is Some {
        o->0@
    } else {
        Seq::<char>::empty()
    }
}

/// The view of an optional string.
pub open spec fn opt_view(o: Option<String>) -> Option<Seq<char>> {
    match o {
        Some(s) => Some(s@),
        None => None,
    }
}

/// The enriched record one search hit and its optional per-title
/// metadata merge into: hit fields verbatim, metadata fields or empty,
/// ranking fields still empty.
pub open spec fn merge_one(g: ScholarResult, c: Option<CrossrefMetadata>) -> EnrichedView {
    EnrichedView {
        title: g.title@,
        author: g.author@,
        year: g.year@,
        publication_date: if c is Some {
            c->0.date@
        } else {
            Seq::<char>::empty()
        },
        venue: g.venue@,
        article_url: g.article_url@,
        citations: g.citations@,
        snippet: g.snippet@,
        doi: if c is Some {
            c->0.doi@
        } else {
            Seq::<char>::empty()
        },
        journal: if c is Some {
            c->0.journal@
        } else {
            Seq::<char>::empty()
        },
        crossref_authors: if c is Some {
            c->0.authors@
        } else {
            Seq::<char>::empty()
        },
        crossref_date: if c is Some {
            c->0.date@
        } else {
            Seq::<char>::empty()
        },
        abstract_text: if c is Some {
            c->0.abstract_text@
        } else {
            Seq::<char>::empty()
        },
        if_score: Seq::<char>::empty(),
        jci_score: Seq::<char>::empty(),
        sci_partition: Seq::<char>::empty(),
        sci_up_top: Seq::<char>::empty(),
        sci_base: Seq::<char>::empty(),
        sci_up: Seq::<char>::empty(),
    }
}

/// Merges search hits with their per-title metadata, one to one.
pub fn merge_crossref(gs: &Vec<ScholarResult>, cr: &Vec<Option<CrossrefMetadata>>) -> (r: Vec<
    EnrichedResult,
>)
    requires
        gs@.len() == cr@.len(),
    ensures
        r@.len() == gs@.len(),
        forall|i: int|
            0 <= i < r@.len() ==> enriched_view(#[trigger] r@[i]) == merge_one(gs@[i], cr@[i]),
{
    let mut r: Vec<EnrichedResult> = Vec::new();
    let mut i: usize = 0;
    while i < gs.len()
        invariant
            gs@.len() == cr@.len(),
            i <= gs@.len(),
            r@.len() == i,
            forall|j: int|
                0 <= j < i ==> enriched_view(#[trigger] r@[j]) == merge_one(gs@[j], cr@[j]),
        decreases gs@.len() - i,
    {
        let g = &gs[i];
        let (publication_date, doi, journal, crossref_authors, crossref_date, abstract_text): (
            String,
            String,
            String,
            String,
            String,
            String,
        ) = match &cr[i] {
            Some(c) => (
                c.date.clone(),
                c.doi.clone(),
                c.journal.clone(),
                c.authors.clone(),
                c.date.clone(),
                c.abstract_text.clone(),
            ),
            None => (
                String::new(),
                String::new(),
                String::new(),
                String::new(),
                String::new(),
                String::new(),
            ),
        };
        let e = EnrichedResult {
            title: g.title.clone(),
            author: g.author.clone(),
            year: g.year.clone(),
            publication_date,
            venue: g.venue.clone(),
            article_url: g.article_url.clone(),
            citations: g.citations.clone(),
            snippet: g.snippet.clone(),
            doi,
            journal,
            crossref_authors,
            crossref_date,
            abstract_text,
            if_score: String::new(),
            jci_score: String::new(),
            sci_partition: String::new(),
            sci_up_top: String::new(),
            sci_base: String::new(),
            sci_up: String::new(),
        };
        assert(enriched_view(e) == merge_one(gs@[i as int], cr@[i as int]));
        r.push(e);
        i = i + 1;
    }
    r
}

/// The enriched record one catalog result carries over: its venue
/// doubles as the journal for ranking lookups and its snippet as the
/// abstract, with no separate per-title metadata.
pub open spec fn from_openalex_one(oa: OpenAlexResult) -> EnrichedView {
    EnrichedView {
        title: oa.title@,
        author: oa.author@,
        year: oa.year@,
        publication_date: oa.publication_date@,
        venue: oa.venue@,
        article_url: oa.article_url@,
        citations: oa.citations@,
        snippet: oa.snippet@,
        doi: oa.doi@,
        journal: oa.venue@,
        crossref_authors: Seq::<char>::empty(),
        crossref_date: Seq::<char>::empty(),
        abstract_text: oa.snippet@,
        if_score: Seq::<char>::empty(),
        jci_score: Seq::<char>::empty(),
        sci_partition: Seq::<char>::empty(),
        sci_up_top: Seq::<char>::empty(),
        sci_base: Seq::<char>::empty(),
        sci_up: Seq::<char>::empty(),
    }
}

/// Carries catalog results into the enrichment pipeline, one to one.
pub fn enriched_from_openalex(oa: &Vec<OpenAlexResult>) -> (r: Vec<EnrichedResult>)
    ensures
        r@.len() == oa@.len(),
        forall|i: int|
            0 <= i < r@.len() ==> enriched_view(#[trigger] r@[i]) == from_openalex_one(oa@[i]),
{
    let mut r: Vec<EnrichedResult> = Vec::new();
    let mut i: usize = 0;
    while i < oa.len()
        invariant
            i <= oa@.len(),
            r@.len() == i,
            forall|j: int|
                0 <= j < i ==> enriched_view(#[trigger] r@[j]) == from_openalex_one(oa@[j]),
        decreases oa@.len() - i,
    {
        let o = &oa[i];
        let e = EnrichedResult {
            title: o.title.clone(),
            author: o.author.clone(),
            year: o.year.clone(),
            publication_date: o.publication_date.clone(),
            venue: o.venue.clone(),
            article_url: o.article_url.clone(),
            citations: o.citations.clone(),
            snippet: o.snippet.clone(),
            doi: o.doi.clone(),
            journal: o.venue.clone(),
            crossref_authors: String::new(),
            crossref_date: String::new(),
            abstract_text: o.snippet.clone(),
            if_score: String::new(),
            jci_score: String::new(),
            sci_partition: String::new(),
            sci_up_top: String::new(),
            sci_base: String::new(),
            sci_up: String::new(),
        };
        assert(enriched_view(e) == from_openalex_one(oa@[i as int]));
        r.push(e);
        i = i + 1;
    }
    r
}

/// The declarative metric filters of a run: minimum thresholds held as
/// decimal text, substring patterns held verbatim; an absent entry
/// means no constraint.
#[derive(Debug, Clone)]
pub struct FilterSpec {
    /// Impact factor at least this.
    pub sciif: Option<String>,
    /// Citation indicator at least this.
    pub jci: Option<String>,
    /// Partition contains this.
    pub sci: Option<String>,
    /// Top partition variant contains this.
    pub sci_up_top: Option<String>,
    /// Base partition variant contains this.
    pub sci_base: Option<String>,
    /// Up partition variant contains this.
    pub sci_up: Option<String>,
}

/// Whether any filter is present.
pub open spec fn filters_active(f: &FilterSpec) -> bool {
    f.sciif is Some || f.jci is Some || f.sci is Some || f.sci_up_top is Some || f.sci_base is Some
        || f.sci_up is Some
}

/// Whether any filter is present.
pub fn filter_active(f: &FilterSpec) -> (r: bool)
    ensures
        r == filters_active(f),
{
    f.sciif.is_some() || f.jci.is_some() || f.sci.is_some() || f.sci_up_top.is_some()
        || f.sci_base.is_some() || f.sci_up.is_some()
}

/// A record''s metrics pass when every present filter passes: numeric
/// minimums on the impact factor and citation indicator, substring
/// matches on the partitions.
pub open spec fn metrics_pass(m: &RankingMetrics, f: &FilterSpec) -> bool {
    &&& (f.sciif is Some ==> numeric_filter_passes(opt_view(m.sciif), f.sciif->0@))
    &&& (f.jci is Some ==> numeric_filter_passes(opt_view(m.jci), f.jci->0@))
    &&& (f.sci is Some ==> string_filter_passes(opt_view(m.sci), f.sci->0@))
    &&& (f.sci_up_top is Some ==> string_filter_passes(opt_view(m.sci_up_top), f.sci_up_top->0@))
    &&& (f.sci_base is Some ==> string_filter_passes(opt_view(m.sci_base), f.sci_base->0@))
    &&& (f.sci_up is Some ==> string_filter_passes(opt_view(m.sci_up), f.sci_up->0@))
}

/// The metrics the ranking stage resolves for a record: its trimmed
/// journal''s cache entry, when the journal is non-blank, was looked
/// up, and was found.
pub open spec fn item_metrics(
    cache: Map<Seq<char>, Option<RankingMetrics>>,
    journal: Seq<char>,
) -> Option<RankingMetrics> {
    let t = trim_seq(journal);
    if t.len() == 0 {
        None
    } else if cache.contains_key(t) && cache[t] is Some {
        Some(cache[t]->0)
    } else {
        None
    }
}

/// One record''s metric fields filled from found metrics.
pub open spec fn with_metrics(e: EnrichedView, m: RankingMetrics) -> EnrichedView {
    EnrichedView {
        if_score: opt_field_text(m.sciif),
        jci_score: opt_field_text(m.jci),
        sci_partition: opt_field_text(m.sci),
        sci_up_top: opt_field_text(m.sci_up_top),
        sci_base: opt_field_text(m.sci_base),
        sci_up: opt_field_text(m.sci_up),
        ..e
    }
}

/// The ranking stage''s output: per record, metrics are resolved from
/// the cache; a record without metrics is kept unchanged when no
/// filter is active and dropped otherwise; a record with metrics is
/// kept, with its metric fields filled, exactly when no filter is
/// active or every present filter passes.
pub open spec fn apply_rankings_spec(
    items: Seq<EnrichedResult>,
    cache: Map<Seq<char>, Option<RankingMetrics>>,
    f: &FilterSpec,
) -> Seq<EnrichedView>
    decreases items.len(),
{
    if items.len() == 0 {
        Seq::<EnrichedView>::empty()
    } else {
        let e = items[0];
        let rest = apply_rankings_spec(items.drop_first(), cache, f);
        let m = item_metrics(cache, e.journal@);
        if m is None {
            if filters_active(f) {
                rest
            } else {
                seq![enriched_view(e)] + rest
            }
        } else {
            if !filters_active(f) || metrics_pass(&m->0, f) {
                seq![with_metrics(enriched_view(e), m->0)] + rest
            } else {
                rest
            }
        }
    }
}

/// Attaches rankings and applies the filters over a whole record list.
pub fn apply_rankings(
    items: &Vec<EnrichedResult>,
    client: &RankingClient,
    filters: &FilterSpec,
) -> (r: Vec<EnrichedResult>)
    requires
        client.wf(),
    ensures
        r@.map_values(|e: EnrichedResult| enriched_view(e)) == apply_rankings_spec(
            items@,
            client.cache(),
            filters,
        ),
{
    let mut r: Vec<EnrichedResult> = Vec::new();
    let mut i: usize = 0;
    let active = filter_active(filters);
    proof {
        assert(items@.skip(0) =~= items@);
        assert(r@.map_values(|e: EnrichedResult| enriched_view(e)) + apply_rankings_spec(
            items@,
            client.cache(),
            filters,
        ) =~= apply_rankings_spec(items@, client.cache(), filters));
    }
    while i < items.len()
        invariant
            client.wf(),
            i <= items@.len(),
            active == filters_active(filters),
            apply_rankings_spec(items@, client.cache(), filters) == r@.map_values(
                |e: EnrichedResult| enriched_view(e),
            ) + apply_rankings_spec(items@.skip(i as int), client.cache(), filters),
        decreases items@.len() - i,
    {
        let ghost rest = items@.skip(i as int);
        proof {
            assert(rest[0] == items@[i as int]);
            assert(rest.drop_first() =~= items@.skip(i + 1));
        }
        let e = &items[i];
        let trimmed = trim_str(e.journal.as_str());
        let metrics_opt: Option<RankingMetrics> = if trimmed.as_str().is_empty() {
            None
        } else {
            match client.cached(trimmed.as_str()) {
                Some(Some(m)) => Some(m),
                _ => None,
            }
        };
        proof {
            assert(metrics_opt == item_metrics(client.cache(), items@[i as int].journal@));
        }
        let ghost prev = r@;
        match metrics_opt {
            None => {
                if !active {
                    r.push(enriched_dup(e));
                    proof {
                        assert(r@.map_values(|e: EnrichedResult| enriched_view(e)) =~= prev
                            .map_values(|e: EnrichedResult| enriched_view(e)).push(
                            enriched_view(items@[i as int]),
                        ));
                        assert(prev.map_values(|e: EnrichedResult| enriched_view(e)).push(
                            enriched_view(items@[i as int]),
                        ) + apply_rankings_spec(items@.skip(i + 1), client.cache(), filters)
                            =~= prev.map_values(|e: EnrichedResult| enriched_view(e)) + (seq![
                            enriched_view(items@[i as int]),
                        ] + apply_rankings_spec(items@.skip(i + 1), client.cache(), filters)));
                    }
                }
            },
            Some(m) => {
                let ghost mg = m;
                let keep: bool = !active || ({
                    let ok1 = match &filters.sciif {
                        Some(t) => RankingClient::passes_numeric_filter(
                            match &m.sciif {
                                Some(s) => Some(s.as_str()),
                                None => None,
                            },
                            t.as_str(),
                        ),
                        None => true,
                    };
                    let ok2 = match &filters.jci {
                        Some(t) => RankingClient::passes_numeric_filter(
                            match &m.jci {
                                Some(s) => Some(s.as_str()),
                                None => None,
                            },
                            t.as_str(),
                        ),
                        None => true,
                    };
                    let ok3 = match &filters.sci {
                        Some(t) => RankingClient::passes_string_filter(
                            match &m.sci {
                                Some(s) => Some(s.as_str()),
                                None => None,
                            },
                            t.as_str(),
                        ),
                        None => true,
                    };
                    let ok4 = match &filters.sci_up_top {
                        Some(t) => RankingClient::passes_string_filter(
                            match &m.sci_up_top {
                                Some(s) => Some(s.as_str()),
                                None => None,
                            },
                            t.as_str(),
                        ),
                        None => true,
                    };
                    let ok5 = match &filters.sci_base {
                        Some(t) => RankingClient::passes_string_filter(
                            match &m.sci_base {
                                Some(s) => Some(s.as_str()),
                                None => None,
                            },
                            t.as_str(),
                        ),
                        None => true,
                    };
                    let ok6 = match &filters.sci_up {
                        Some(t) => RankingClient::passes_string_filter(
                            match &m.sci_up {
                                Some(s) => Some(s.as_str()),
                                None => None,
                            },
                            t.as_str(),
                        ),
                        None => true,
                    };
                    ok1 && ok2 && ok3 && ok4 && ok5 && ok6
                });
                proof {
                    assert(keep == (!filters_active(filters) || metrics_pass(&mg, filters)));
                }
                if keep {
                    let filled = EnrichedResult {
                        if_score: crate::semanticscholar::unwrap_or_empty(m.sciif),
                        jci_score: crate::semanticscholar::unwrap_or_empty(m.jci),
                        sci_partition: crate::semanticscholar::unwrap_or_empty(m.sci),
                        sci_up_top: crate::semanticscholar::unwrap_or_empty(m.sci_up_top),
                        sci_base: crate::semanticscholar::unwrap_or_empty(m.sci_base),
                        sci_up: crate::semanticscholar::unwrap_or_empty(m.sci_up),
                        ..enriched_dup(e)
                    };
                    proof {
                        assert(enriched_view(filled) == with_metrics(
                            enriched_view(items@[i as int]),
                            mg,
                        ));
                    }
                    r.push(filled);
                    proof {
                        assert(r@.map_values(|e: EnrichedResult| enriched_view(e)) =~= prev
                            .map_values(|e: EnrichedResult| enriched_view(e)).push(
                            with_metrics(enriched_view(items@[i as int]), mg),
                        ));
                        assert(prev.map_values(|e: EnrichedResult| enriched_view(e)).push(
                            with_metrics(enriched_view(items@[i as int]), mg),
                        ) + apply_rankings_spec(items@.skip(i + 1), client.cache(), filters)
                            =~= prev.map_values(|e: EnrichedResult| enriched_view(e)) + (seq![
                            with_metrics(enriched_view(items@[i as int]), mg),
                        ] + apply_rankings_spec(items@.skip(i + 1), client.cache(), filters)));
                    }
                }
            },
        }
        i = i + 1;
    }
    proof {
        assert(items@.skip(items@.len() as int) =~= Seq::<EnrichedResult>::empty());
        assert(r@.map_values(|e: EnrichedResult| enriched_view(e)) + Seq::<
            EnrichedView,
        >::empty() =~= r@.map_values(|e: EnrichedResult| enriched_view(e)));
    }
    r
}


/// A copy of a catalog record, with its contents pinned.
pub fn openalex_dup(o: &OpenAlexResult) -> (r: OpenAlexResult)
    ensures
        r == *o,
{
    OpenAlexResult {
        title: o.title.clone(),
        author: o.author.clone(),
        year: o.year.clone(),
        publication_date: o.publication_date.clone(),
        venue: o.venue.clone(),
        source_type: o.source_type.clone(),
        doi: o.doi.clone(),
        article_url: o.article_url.clone(),
        pdf_url: o.pdf_url.clone(),
        citations: o.citations.clone(),
        snippet: o.snippet.clone(),
        openalex_id: o.openalex_id.clone(),
        is_oa: o.is_oa,
        oa_status: o.oa_status.clone(),
        oa_url: o.oa_url.clone(),
        language: o.language.clone(),
        work_type: o.work_type.clone(),
        keywords: o.keywords.clone(),
        primary_topic: o.primary_topic.clone(),
        referenced_works: o.referenced_works.clone(),
        related_works: o.related_works.clone(),
        referenced_works_count: o.referenced_works_count,
        related_works_count: o.related_works_count,
        locations_count: o.locations_count,
    }
}

/// The items fetched for one page: the first tagged batch carrying the
/// page number, or nothing when that page failed or never returned.
pub open spec fn page_items(got: Seq<(i32, Vec<OpenAlexResult>)>, p: i32) -> Seq<OpenAlexResult>
    decreases got.len(),
{
    if got.len() == 0 {
        Seq::<OpenAlexResult>::empty()
    } else if got[0].0 == p {
        got[0].1@
    } else {
        page_items(got.drop_first(), p)
    }
}

/// The reassembled result list of a paginated search: the requested
/// pages'' items concatenated in requested-page order, a failed or
/// missing page contributing nothing.
pub open spec fn assembled(requested: Seq<i32>, got: Seq<(i32, Vec<OpenAlexResult>)>) -> Seq<
    OpenAlexResult,
> {
    requested.map_values(|p: i32| page_items(got, p)).flatten()
}

proof fn lemma_page_items_skip(got: Seq<(i32, Vec<OpenAlexResult>)>, p: i32, i: int)
    requires
        0 <= i <= got.len(),
        forall|j: int| 0 <= j < i ==> (#[trigger] got[j]).0 != p,
    ensures
        page_items(got, p) == (if i < got.len() && got[i].0 == p {
            got[i].1@
        } else {
            page_items(got.skip(i), p)
        }),
    decreases i,
{
    if i > 0 {
        let tail = got.drop_first();
        assert(forall|j: int| 0 <= j < i - 1 ==> (#[trigger] tail[j]).0 == got[j + 1].0);
        lemma_page_items_skip(tail, p, i - 1);
        assert(tail.skip(i - 1) =~= got.skip(i));
        if i < got.len() && got[i].0 == p {
            assert(tail[i - 1] == got[i]);
        }
    } else {
        assert(got.skip(0) =~= got);
    }
}

/// Reassembles concurrent page fetches into requested-page order:
/// pages come back tagged in any completion order, and the output is
/// their items concatenated by the requested order, with failed pages
/// simply absent — never an error.
pub fn assemble_pages(requested: &Vec<i32>, got: &Vec<(i32, Vec<OpenAlexResult>)>) -> (r: Vec<
    OpenAlexResult,
>)
    ensures
        r@ == assembled(requested@, got@),
{
    broadcast use vstd::seq_lib::group_seq_lib_default;

    let mut r: Vec<OpenAlexResult> = Vec::new();
    let mut i: usize = 0;
    assert(r@.map_values(|o: OpenAlexResult| o) =~= Seq::<OpenAlexResult>::empty());
    assert(requested@.take(0).map_values(|p: i32| page_items(got@, p)).flatten()
        =~= Seq::<OpenAlexResult>::empty());
    while i < requested.len()
        invariant
            i <= requested@.len(),
            r@ == requested@.take(i as int).map_values(|p: i32| page_items(got@, p)).flatten(),
        decreases requested@.len() - i,
    {
        let p = requested[i];
        // find the first batch tagged with this page
        let mut j: usize = 0;
        let mut found: Option<usize> = None;
        while j < got.len()
            invariant_except_break
                j <= got@.len(),
                found is None,
                forall|q: int| 0 <= q < j ==> (#[trigger] got@[q]).0 != p,
            ensures
                match found {
                    Some(jj) => jj < got@.len() && got@[jj as int].0 == p && forall|q: int|
                        0 <= q < jj ==> (#[trigger] got@[q]).0 != p,
                    None => forall|q: int| 0 <= q < got@.len() ==> (#[trigger] got@[q]).0 != p,
                },
            decreases got@.len() - j,
        {
            if got[j].0 == p {
                found = Some(j);
                break ;
            }
            j = j + 1;
        }
        let ghost items = page_items(got@, p);
        proof {
            match found {
                Some(jj) => {
                    lemma_page_items_skip(got@, p, jj as int);
                },
                None => {
                    lemma_page_items_skip(got@, p, got@.len() as int);
                    assert(got@.skip(got@.len() as int)
                        =~= Seq::<(i32, Vec<OpenAlexResult>)>::empty());
                },
            }
        }
        let ghost prev = r@;
        match found {
            Some(jj) => {
                let batch = &got[jj].1;
                let mut k: usize = 0;
                while k < batch.len()
                    invariant
                        k <= batch@.len(),
                        batch == got@[jj as int].1,
                        jj < got@.len(),
                        r@ == prev + batch@.take(k as int),
                    decreases batch@.len() - k,
                {
                    r.push(openalex_dup(&batch[k]));
                    assert(r@ =~= prev + batch@.take(k + 1));
                    k = k + 1;
                }
                assert(batch@.take(batch@.len() as int) =~= batch@);
            },
            None => {
                assert(r@ =~= prev + items);
            },
        }
        proof {
            let f = |p: i32| page_items(got@, p);
            assert(requested@.take(i + 1).map_values(f) =~= requested@.take(i as int).map_values(
                f,
            ).push(items));
            requested@.take(i as int).map_values(f).lemma_flatten_push(items);
        }
        i = i + 1;
    }
    assert(requested@.take(requested@.len() as int) =~= requested@);
    r
}

/// A record classified relevant, carried with its verdict.
#[derive(Debug, Clone)]
pub struct RelevantPaper {
    pub title: String,
    pub author: String,
    pub date: String,
    pub doi: String,
    pub article_url: String,
    pub pdf_url: String,
    pub abstract_text: String,
    pub tldr: String,
    pub journal: String,
    pub if_score: String,
    pub jci_score: String,
    pub sci_partition: String,
    /// The verdict''s confidence, as decimal text.
    pub confidence: String,
    pub evidence: String,
    pub reason: String,
}

/// Whether a verdict marks this lowercased DOI relevant.
pub open spec fn verdict_joins(v: FilterResult, doi_lower: Seq<char>) -> bool {
    v.label@ == "relevant"@ && lower_seq(v.id@) == doi_lower
}

/// The relevant verdict joined under a lowercased DOI: the last
/// matching verdict, as a map built front to back yields.
pub open spec fn verdict_lookup(vs: Seq<FilterResult>, doi_lower: Seq<char>) -> Option<
    FilterResult,
>
    decreases vs.len(),
{
    if vs.len() == 0 {
        None
    } else if verdict_joins(vs.last(), doi_lower) {
        Some(vs.last())
    } else {
        verdict_lookup(vs.drop_last(), doi_lower)
    }
}

/// Whether a canonical record with this verdict joined makes the given
/// relevant-paper record.
pub open spec fn relevant_matches(r: RelevantPaper, u: UnifiedResult, v: FilterResult) -> bool {
    &&& r.title@ == u.title@
    &&& r.author@ == u.author@
    &&& r.date@ == u.date@
    &&& r.doi@ == u.doi@
    &&& r.article_url@ == u.article_url@
    &&& r.pdf_url@ == u.pdf_url@
    &&& r.abstract_text@ == u.abstract_text@
    &&& r.tldr@ == u.tldr@
    &&& r.journal@ == u.journal@
    &&& r.if_score@ == u.if_score@
    &&& r.jci_score@ == u.jci_score@
    &&& r.sci_partition@ == u.sci_partition@
    &&& r.confidence@ == v.confidence@
    &&& r.evidence@ == v.evidence@
    &&& r.reason@ == v.reason@
}

proof fn lemma_verdict_lookup_back(vs: Seq<FilterResult>, doi_lower: Seq<char>, i: int)
    requires
        0 <= i <= vs.len(),
        forall|j: int| i <= j < vs.len() ==> !verdict_joins(#[trigger] vs[j], doi_lower),
    ensures
        verdict_lookup(vs, doi_lower) == verdict_lookup(vs.take(i), doi_lower),
    decreases vs.len() - i,
{
    if i == vs.len() {
        assert(vs.take(i) =~= vs);
    } else {
        lemma_verdict_lookup_back(vs, doi_lower, i + 1);
        let t = vs.take(i + 1);
        assert(t.last() == vs[i]);
        assert(t.drop_last() =~= vs.take(i));
    }
}

/// Finds the index of the relevant verdict joined under a lowercased
/// DOI, if any.
fn find_relevant_verdict(vs: &Vec<FilterResult>, doi_lower: &str) -> (r: Option<usize>)
    ensures
        match r {
            Some(i) => i < vs@.len() && verdict_lookup(vs@, doi_lower@) == Some(vs@[i as int]),
            None => verdict_lookup(vs@, doi_lower@) is None,
        },
{
    proof {
        reveal_strlit("relevant");
    }
    let n = vs.len();
    let mut i: usize = n;
    while i > 0
        invariant
            n == vs@.len(),
            i <= n,
            forall|j: int| i <= j < n ==> !verdict_joins(#[trigger] vs@[j], doi_lower@),
        decreases i,
    {
        i = i - 1;
        let cand = &vs[i];
        let is_rel = str_eq(cand.label.as_str(), "relevant");
        if is_rel {
            let cand_lower = crate::text::to_ascii_lowercase(cand.id.as_str());
            if str_eq(cand_lower.as_str(), doi_lower) {
                proof {
                    lemma_verdict_lookup_back(vs@, doi_lower@, i + 1);
                    assert(vs@.take(i + 1).last() == vs@[i as int]);
                }
                return Some(i);
            }
        }
        assert(!verdict_joins(vs@[i as int], doi_lower@));
    }
    proof {
        lemma_verdict_lookup_back(vs@, doi_lower@, 0);
        assert(vs@.take(0) =~= Seq::<FilterResult>::empty());
    }
    None
}

/// Extracts the records classified relevant: every canonical record
/// whose lowercased DOI some relevant verdict names, in order, joined
/// with the last such verdict; everything else is dropped.
pub fn extract_relevant(unified: &Vec<UnifiedResult>, verdicts: &Vec<FilterResult>) -> (r: Vec<
    RelevantPaper,
>)
    ensures
        r@.len() == unified@.filter(
            |u: UnifiedResult| verdict_lookup(verdicts@, lower_seq(u.doi@)) is Some,
        ).len(),
        forall|k: int|
            0 <= k < r@.len() ==> {
                let kept = unified@.filter(
                    |u: UnifiedResult| verdict_lookup(verdicts@, lower_seq(u.doi@)) is Some,
                );
                relevant_matches(
                    #[trigger] r@[k],
                    kept[k],
                    verdict_lookup(verdicts@, lower_seq(kept[k].doi@))->0,
                )
            },
{
    broadcast use vstd::seq_lib::group_seq_lib_default;

    let ghost joined = |u: UnifiedResult| verdict_lookup(verdicts@, lower_seq(u.doi@)) is Some;
    let mut r: Vec<RelevantPaper> = Vec::new();
    let mut i: usize = 0;
    while i < unified.len()
        invariant
            i <= unified@.len(),
            r@.len() == unified@.take(i as int).filter(
                |u: UnifiedResult| verdict_lookup(verdicts@, lower_seq(u.doi@)) is Some,
            ).len(),
            forall|k: int|
                0 <= k < r@.len() ==> {
                    let kept = unified@.take(i as int).filter(
                        |u: UnifiedResult| verdict_lookup(verdicts@, lower_seq(u.doi@)) is Some,
                    );
                    relevant_matches(
                        #[trigger] r@[k],
                        kept[k],
                        verdict_lookup(verdicts@, lower_seq(kept[k].doi@))->0,
                    )
                },
        decreases unified@.len() - i,
    {
        let ghost joined = |u: UnifiedResult| verdict_lookup(verdicts@, lower_seq(u.doi@)) is Some;
        let ghost prefix = unified@.take(i as int);
        proof {
            reveal_with_fuel(Seq::filter, 2);
            assert(unified@.take(i + 1).drop_last() =~= prefix);
            assert(unified@.take(i + 1).last() == unified@[i as int]);
        }
        let u = &unified[i];
        let doi_lower = crate::text::to_ascii_lowercase(u.doi.as_str());
        match find_relevant_verdict(verdicts, doi_lower.as_str()) {
            Some(vi) => {
                let v = &verdicts[vi];
                let rp = RelevantPaper {
                    title: u.title.clone(),
                    author: u.author.clone(),
                    date: u.date.clone(),
                    doi: u.doi.clone(),
                    article_url: u.article_url.clone(),
                    pdf_url: u.pdf_url.clone(),
                    abstract_text: u.abstract_text.clone(),
                    tldr: u.tldr.clone(),
                    journal: u.journal.clone(),
                    if_score: u.if_score.clone(),
                    jci_score: u.jci_score.clone(),
                    sci_partition: u.sci_partition.clone(),
                    confidence: v.confidence.clone(),
                    evidence: v.evidence.clone(),
                    reason: v.reason.clone(),
                };
                proof {
                    assert(relevant_matches(
                        rp,
                        unified@[i as int],
                        verdict_lookup(verdicts@, lower_seq(unified@[i as int].doi@))->0,
                    ));
                    assert(unified@.take(i + 1).filter(joined) =~= prefix.filter(joined).push(
                        unified@[i as int],
                    ));
                }
                r.push(rp);
            },
            None => {
                proof {
                    assert(unified@.take(i + 1).filter(joined) =~= prefix.filter(joined));
                }
            },
        }
        i = i + 1;
    }
    assert(unified@.take(unified@.len() as int) =~= unified@);
    r
}

} // verus!
