//! Fusion of per-source records into one canonical record per work.
//!
//! Records are joined by case-normalized DOI; every output field is
//! resolved by an explicit priority chain, and records without a DOI are
//! dropped by design.  Fusion is pure and order-preserving, so fusing
//! the same inputs twice yields identical output.

use crate::semanticscholar::SemanticScholarResult;
use crate::text::lower_seq;
use crate::text::str_eq;
use crate::text::to_ascii_lowercase;
use vstd::prelude::*;

verus! {

/// The canonical record: one work with every field resolved.
#[derive(Debug, Clone)]
pub struct UnifiedResult {
    pub title: String,
    pub author: String,
    pub date: String,
    pub doi: String,
    pub article_url: String,
    pub pdf_url: String,
    pub abstract_text: String,
    pub tldr: String,
    pub journal: String,
    pub if_score: String,
    pub jci_score: String,
    pub sci_partition: String,
}

/// One enriched, ranked record entering fusion.
#[derive(Debug, Clone)]
pub struct EnrichedInput {
    pub title: String,
    pub author: String,
    pub year: String,
    pub publication_date: String,
    pub doi: String,
    pub article_url: String,
    pub abstract_text: String,
    pub journal: String,
    pub if_score: String,
    pub jci_score: String,
    pub sci_partition: String,
}

/// The text of every field of a canonical record.
pub struct UnifiedView {
    pub title: Seq<char>,
    pub author: Seq<char>,
    pub date: Seq<char>,
    pub doi: Seq<char>,
    pub article_url: Seq<char>,
    pub pdf_url: Seq<char>,
    pub abstract_text: Seq<char>,
    pub tldr: Seq<char>,
    pub journal: Seq<char>,
    pub if_score: Seq<char>,
    pub jci_score: Seq<char>,
    pub sci_partition: Seq<char>,
}

/// The view of an executable canonical record.
pub open spec fn unified_view(u: UnifiedResult) -> UnifiedView {
    UnifiedView {
        title: u.title@,
        author: u.author@,
        date: u.date@,
        doi: u.doi@,
        article_url: u.article_url@,
        pdf_url: u.pdf_url@,
        abstract_text: u.abstract_text@,
        tldr: u.tldr@,
        journal: u.journal@,
        if_score: u.if_score@,
        jci_score: u.jci_score@,
        sci_partition: u.sci_partition@,
    }
}

/// Whether a source record joins a record whose lowercased DOI is
/// `doi_lower`: its own DOI is non-empty and matches case-insensitively.
pub open spec fn ss_joins(s: SemanticScholarResult, doi_lower: Seq<char>) -> bool {
    s.doi@.len() != 0 && lower_seq(s.doi@) == doi_lower
}

/// The source record joined under a lowercased DOI: the last matching
/// record, as a map built front to back with later entries overwriting
/// earlier ones yields.
pub open spec fn ss_lookup(ss: Seq<SemanticScholarResult>, doi_lower: Seq<char>) -> Option<
    SemanticScholarResult,
>
    decreases ss.len(),
{
    if ss.len() == 0 {
        None
    } else if ss_joins(ss.last(), doi_lower) {
        Some(ss.last())
    } else {
        ss_lookup(ss.drop_last(), doi_lower)
    }
}

/// The canonical record fused for one base record: the abstract prefers
/// the classification source and falls back to the base; the date
/// prefers the full publication date and falls back to the bare year;
/// the article URL prefers the base and falls back to the source; TLDR
/// and PDF URL come from the source alone.
pub open spec fn fuse_one(e: EnrichedInput, ss: Seq<SemanticScholarResult>) -> UnifiedView {
    let m = ss_lookup(ss, lower_seq(e.doi@));
    UnifiedView {
        title: e.title@,
        author: e.author@,
        date: if e.publication_date@.len() > 0 {
            e.publication_date@
        } else {
            e.year@
        },
        doi: e.doi@,
        article_url: if e.article_url@.len() > 0 {
            e.article_url@
        } else if m is Some {
            m->0.ss_url@
        } else {
            Seq::<char>::empty()
        },
        pdf_url: if m is Some {
            m->0.oa_pdf_url@
        } else {
            Seq::<char>::empty()
        },
        abstract_text: if m is Some && m->0.ss_abstract@.len() > 0 {
            m->0.ss_abstract@
        } else {
            e.abstract_text@
        },
        tldr: if m is Some {
            m->0.tldr@
        } else {
            Seq::<char>::empty()
        },
        journal: e.journal@,
        if_score: e.if_score@,
        jci_score: e.jci_score@,
        sci_partition: e.sci_partition@,
    }
}

/// Fusion over a whole run: every base record with a non-empty DOI, in
/// order, fused against the source records.
pub open spec fn fuse_spec(base: Seq<EnrichedInput>, ss: Seq<SemanticScholarResult>) -> Seq<
    UnifiedView,
> {
    base.filter(|e: EnrichedInput| e.doi@.len() != 0).map_values(|e: EnrichedInput| fuse_one(e, ss))
}

/// Idempotent fusion: fusion is a pure function of its inputs, so two
/// runs over the same base and source records produce identical output,
/// field for field.
pub proof fn lemma_fuse_idempotent(
    base1: Seq<EnrichedInput>,
    ss1: Seq<SemanticScholarResult>,
    base2: Seq<EnrichedInput>,
    ss2: Seq<SemanticScholarResult>,
)
    requires
        base1 == base2,
        ss1 == ss2,
    ensures
        fuse_spec(base1, ss1) == fuse_spec(base2, ss2),
{
}

proof fn lemma_ss_lookup_back(ss: Seq<SemanticScholarResult>, doi_lower: Seq<char>, i: int)
    requires
        0 <= i <= ss.len(),
        forall|j: int| i <= j < ss.len() ==> !ss_joins(#[trigger] ss[j], doi_lower),
    ensures
        ss_lookup(ss, doi_lower) == ss_lookup(ss.take(i), doi_lower),
    decreases ss.len() - i,
{
    if i == ss.len() {
        assert(ss.take(i) =~= ss);
    } else {
        lemma_ss_lookup_back(ss, doi_lower, i + 1);
        let t = ss.take(i + 1);
        assert(t.last() == ss[i]);
        assert(t.drop_last() =~= ss.take(i));
    }
}

/// Finds the index of the source record joined under a lowercased DOI,
/// if any.
fn find_ss_index(ss: &Vec<SemanticScholarResult>, doi_lower: &str) -> (r: Option<usize>)
    ensures
        match r {
            Some(i) => i < ss@.len() && ss_lookup(ss@, doi_lower@) == Some(ss@[i as int]),
            None => ss_lookup(ss@, doi_lower@) is None,
        },
{
    let n = ss.len();
    let mut i: usize = n;
    while i > 0
        invariant
            n == ss@.len(),
            i <= n,
            forall|j: int| i <= j < n ==> !ss_joins(#[trigger] ss@[j], doi_lower@),
        decreases i,
    {
        i = i - 1;
        let cand = &ss[i];
        if !cand.doi.as_str().is_empty() {
            let cand_lower = to_ascii_lowercase(cand.doi.as_str());
            if str_eq(cand_lower.as_str(), doi_lower) {
                proof {
                    lemma_ss_lookup_back(ss@, doi_lower@, i + 1);
                    assert(ss@.take(i + 1).last() == ss@[i as int]);
                }
                return Some(i);
            }
        }
        assert(!ss_joins(ss@[i as int], doi_lower@));
    }
    proof {
        lemma_ss_lookup_back(ss@, doi_lower@, 0);
        assert(ss@.take(0) =~= Seq::<SemanticScholarResult>::empty());
    }
    None
}

/// Fuses the enriched, ranked records with the source records into the
/// canonical dataset: one output record per base record with a
/// non-empty DOI, in base order, every field resolved by the priority
/// chain of `fuse_one`.
pub fn generate_unified(
    enriched_items: &Vec<EnrichedInput>,
    ss_results: &Vec<SemanticScholarResult>,
) -> (r: Vec<UnifiedResult>)
    ensures
        r@.map_values(|u: UnifiedResult| unified_view(u)) == fuse_spec(
            enriched_items@,
            ss_results@,
        ),
{
    broadcast use vstd::seq_lib::group_seq_lib_default;

    let mut r: Vec<UnifiedResult> = Vec::new();
    let mut i: usize = 0;
    while i < enriched_items.len()
        invariant
            i <= enriched_items@.len(),
            r@.map_values(|u: UnifiedResult| unified_view(u)) == fuse_spec(
                enriched_items@.take(i as int),
                ss_results@,
            ),
        decreases enriched_items@.len() - i,
    {
        let ghost prefix = enriched_items@.take(i as int);
        let ghost pred = |e: EnrichedInput| e.doi@.len() != 0;
        assert(enriched_items@.take(i + 1).drop_last() =~= prefix);
        proof {
            reveal_with_fuel(Seq::filter, 2);
            assert(enriched_items@.take(i + 1).last() == enriched_items@[i as int]);
        }
        let e = &enriched_items[i];
        if !e.doi.as_str().is_empty() {
            let doi_lower = to_ascii_lowercase(e.doi.as_str());
            let m = find_ss_index(ss_results, doi_lower.as_str());
            let date = if !e.publication_date.as_str().is_empty() {
                e.publication_date.clone()
            } else {
                e.year.clone()
            };
            let article_url = if !e.article_url.as_str().is_empty() {
                e.article_url.clone()
            } else {
                match m {
                    Some(j) => ss_results[j].ss_url.clone(),
                    None => String::new(),
                }
            };
            let pdf_url = match m {
                Some(j) => ss_results[j].oa_pdf_url.clone(),
                None => String::new(),
            };
            let abstract_text = match m {
                Some(j) => {
                    if !ss_results[j].ss_abstract.as_str().is_empty() {
                        ss_results[j].ss_abstract.clone()
                    } else {
                        e.abstract_text.clone()
                    }
                },
                None => e.abstract_text.clone(),
            };
            let tldr = match m {
                Some(j) => ss_results[j].tldr.clone(),
                None => String::new(),
            };
            let u = UnifiedResult {
                title: e.title.clone(),
                author: e.author.clone(),
                date,
                doi: e.doi.clone(),
                article_url,
                pdf_url,
                abstract_text,
                tldr,
                journal: e.journal.clone(),
                if_score: e.if_score.clone(),
                jci_score: e.jci_score.clone(),
                sci_partition: e.sci_partition.clone(),
            };
            let ghost old_r = r@;
            r.push(u);
            proof {
                assert(unified_view(u) == fuse_one(enriched_items@[i as int], ss_results@));
                assert(r@.map_values(|u: UnifiedResult| unified_view(u)) =~= old_r.map_values(
                    |u: UnifiedResult| unified_view(u),
                ).push(unified_view(u)));
                assert(enriched_items@.take(i + 1).filter(pred) =~= prefix.filter(pred).push(
                    enriched_items@[i as int],
                ));
                assert(r@.map_values(|u: UnifiedResult| unified_view(u)) =~= fuse_spec(
                    enriched_items@.take(i + 1),
                    ss_results@,
                ));
            }
        } else {
            proof {
                assert(enriched_items@.take(i + 1).filter(pred) =~= prefix.filter(pred));
                assert(r@.map_values(|u: UnifiedResult| unified_view(u)) =~= fuse_spec(
                    enriched_items@.take(i + 1),
                    ss_results@,
                ));
            }
        }
        i = i + 1;
    }
    assert(enriched_items@.take(enriched_items@.len() as int) =~= enriched_items@);
    r
}

} // verus!
