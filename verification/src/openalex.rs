//! Search against the works catalog: URLs and response conversion.
//!
//! The catalog returns rich per-work records with many optional
//! fields; what is verified here is the search URL each request
//! denotes, and the conversion of one raw work — inverted-index
//! abstract reconstruction included — into the library's record.

use crate::text::int_str;
use crate::text::i64_to_string;
use crate::text::join_strings;
use crate::text::join_with;
use crate::text::replace_all;
use crate::text::replace_seq;
use vstd::prelude::*;

use vstd::string::StringExecFns;
use vstd::string::StringSliceAdditionalSpecFns;

verus! {

/// Maximum results per page the catalog serves.
pub const MAX_PER_PAGE: usize = 200;

/// One converted search result.
#[derive(Debug, Clone)]
pub struct OpenAlexResult {
    pub title: String,
    pub author: String,
    pub year: String,
    pub publication_date: String,
    pub venue: String,
    pub source_type: String,
    pub doi: String,
    pub article_url: String,
    pub pdf_url: String,
    pub citations: String,
    pub snippet: String,
    pub openalex_id: String,
    pub is_oa: bool,
    pub oa_status: String,
    pub oa_url: String,
    pub language: String,
    pub work_type: String,
    pub keywords: String,
    pub primary_topic: String,
    pub referenced_works: String,
    pub related_works: String,
    pub referenced_works_count: i64,
    pub related_works_count: i64,
    pub locations_count: i64,
}

/// Options of one catalog search.
#[derive(Debug, Clone)]
pub struct QueryOptions {
    /// Page numbers to fetch, 1-indexed.
    pub pages: Vec<i32>,
    /// Keep only results from this year onwards.
    pub ylo: Option<i32>,
    /// Keep only results up to this year.
    pub yhi: Option<i32>,
    /// All results per page, or only the first.
    pub all_results: bool,
}

impl Default for QueryOptions {
    /// One page, no year bounds, every result kept.
    fn default() -> (r: QueryOptions)
        ensures
            r.pages@ == seq![1i32],
            r.ylo is None,
            r.yhi is None,
            r.all_results,
    {
        let mut pages: Vec<i32> = Vec::new();
        pages.push(1);
        assert(pages@ =~= seq![1i32]);
        QueryOptions { pages, ylo: None, yhi: None, all_results: true }
    }
}

/// A byte kept verbatim by percent encoding: alphanumerics and `-_.~`.
pub open spec fn percent_safe(b: u8) -> bool {
    (48 <= b <= 57) || (65 <= b <= 90) || (97 <= b <= 122) || b == 45 || b == 95 || b == 46 || b
        == 126
}

/// Percent encoding of a byte sequence: safe bytes stand, every other
/// byte becomes `%` and two uppercase hex digits.
pub open spec fn percent_enc(bs: Seq<u8>) -> Seq<char>
    decreases bs.len(),
{
    if bs.len() == 0 {
        Seq::<char>::empty()
    } else {
        let b = bs[0];
        (if percent_safe(b) {
            seq![b as char]
        } else {
            seq!['%', crate::gscholar::hex_digit(b / 16), crate::gscholar::hex_digit(b % 16)]
        }) + percent_enc(bs.drop_first())
    }
}

/// Percent-encodes text, byte by byte of its UTF-8 form.
///
/// Relies on `urlencoding::encode`: every byte except alphanumerics
/// and `-`, `_`, `.`, `~` becomes `%` and two uppercase hex digits.
#[verifier::external_body]
pub fn percent_encode(s: &str) -> (r: String)
    ensures
        r@ == percent_enc(s.spec_bytes()),
{
    urlencoding::encode(s).into_owned()
}

/// The search URL a catalog query denotes: the percent-encoded search
/// text, the page size and number, the polite-pool address, then the
/// year filters and the articles-only filter, then the field
/// selection.
pub open spec fn openalex_url_spec(
    query: Seq<u8>,
    page: int,
    ylo: Option<i32>,
    yhi: Option<i32>,
) -> Seq<char> {
    "https://api.openalex.org/works?search="@ + percent_enc(query) + "&per-page=200&page="@
        + int_str(page) + "&mailto=c76d@c.com"@ + "&filter="@ + (if ylo is Some {
        "publication_year:>"@ + int_str(ylo->0 - 1) + ","@
    } else {
        Seq::<char>::empty()
    }) + (if yhi is Some {
        "publication_year:<"@ + int_str(yhi->0 + 1) + ","@
    } else {
        Seq::<char>::empty()
    }) + "type:article"@ + select_clause()
}

/// The field-selection clause appended to every search URL.
pub open spec fn select_clause() -> Seq<char> {
    "&select=id,title,display_name,publication_year,publication_date,doi,cited_by_count,abstract_inverted_index,authorships,primary_location,best_oa_location,open_access,language,type,keywords,primary_topic,referenced_works_count,related_works,locations_count"@
}

/// Builds one page's search URL.
pub fn build_search_url(query: &str, page: i32, options: &QueryOptions) -> (r: String)
    requires
        options.ylo is Some ==> options.ylo->0 > i32::MIN,
        options.yhi is Some ==> options.yhi->0 < i32::MAX,
    ensures
        r@ == openalex_url_spec(query.spec_bytes(), page as int, options.ylo, options.yhi),
{
    let mut out: String = String::from_str("https://api.openalex.org/works?search=");
    let q = percent_encode(query);
    out.append(q.as_str());
    out.append("&per-page=200&page=");
    let p = i64_to_string(page as i64);
    out.append(p.as_str());
    out.append("&mailto=c76d@c.com");
    out.append("&filter=");
    match options.ylo {
        Some(y) => {
            out.append("publication_year:>");
            let ys = i64_to_string((y as i64) - 1);
            out.append(ys.as_str());
            out.append(",");
        },
        None => {},
    }
    match options.yhi {
        Some(y) => {
            out.append("publication_year:<");
            let ys = i64_to_string((y as i64) + 1);
            out.append(ys.as_str());
            out.append(",");
        },
        None => {},
    }
    out.append("type:article");
    out.append(
        "&select=id,title,display_name,publication_year,publication_date,doi,cited_by_count,abstract_inverted_index,authorships,primary_location,best_oa_location,open_access,language,type,keywords,primary_topic,referenced_works_count,related_works,locations_count",
    );
    assert(out@ =~= openalex_url_spec(query.spec_bytes(), page as int, options.ylo, options.yhi));
    out
}

/// One location of a raw work.
#[derive(Debug, Clone)]
pub struct OpenAlexLocationFields {
    pub source_name: Option<String>,
    pub source_type: Option<String>,
    pub landing_page_url: Option<String>,
    pub pdf_url: Option<String>,
}

/// The open-access block of a raw work.
#[derive(Debug, Clone)]
pub struct OpenAlexOpenAccessFields {
    pub is_oa: Option<bool>,
    pub oa_status: Option<String>,
    pub oa_url: Option<String>,
}

/// One raw work, every optional field made explicit: authorship and
/// keyword entries carry their display name or nothing, and the
/// abstract arrives as an inverted index of word-position lists.
#[derive(Debug, Clone)]
pub struct OpenAlexWorkFields {
    pub id: Option<String>,
    pub title: Option<String>,
    pub display_name: Option<String>,
    pub publication_year: Option<i32>,
    pub publication_date: Option<String>,
    pub doi: Option<String>,
    pub cited_by_count: Option<i64>,
    pub abstract_index: Option<Vec<(String, Vec<i64>)>>,
    pub authorships: Option<Vec<Option<String>>>,
    pub primary_location: Option<OpenAlexLocationFields>,
    pub best_oa_location: Option<OpenAlexLocationFields>,
    pub open_access: Option<OpenAlexOpenAccessFields>,
    pub language: Option<String>,
    pub work_type: Option<String>,
    pub keywords: Option<Vec<Option<String>>>,
    pub primary_topic: Option<String>,
    pub referenced_works: Option<Vec<String>>,
    pub referenced_works_count: Option<i64>,
    pub related_works: Option<Vec<String>>,
    pub locations_count: Option<i64>,
}

/// The text of an optional string, empty when absent.
pub open spec fn opt_text(o: Option<String>) -> Seq<char> {
    if o is Some {
        o->0@
    } else {
        Seq::<char>::empty()
    }
}

/// Places a word-position pair after every pair with a position no
/// larger, keeping the order of equal positions: one step of a stable
/// insertion sort.
pub open spec fn insert_pair_sorted(ps: Seq<(i64, String)>, p: (i64, String)) -> Seq<(i64, String)>
    decreases ps.len(),
{
    if ps.len() == 0 {
        seq![p]
    } else if ps.last().0 <= p.0 {
        ps.push(p)
    } else {
        insert_pair_sorted(ps.drop_last(), p).push(ps.last())
    }
}

/// Word-position pairs in nondecreasing position order, pairs of equal
/// position keeping their input order.
pub open spec fn sort_pairs(ps: Seq<(i64, String)>) -> Seq<(i64, String)>
    decreases ps.len(),
{
    if ps.len() == 0 {
        Seq::<(i64, String)>::empty()
    } else {
        insert_pair_sorted(sort_pairs(ps.drop_last()), ps.last())
    }
}

/// The word-position pairs of an inverted index, entry by entry.
pub open spec fn index_pairs(index: Seq<(String, Vec<i64>)>) -> Seq<(i64, String)> {
    index.map_values(
        |e: (String, Vec<i64>)| e.1@.map_values(|p: i64| (p, e.0)),
    ).flatten()
}

/// The abstract text an inverted index denotes: every word at every
/// one of its positions, in position order, joined with spaces.
pub open spec fn reconstruct_spec(index: Seq<(String, Vec<i64>)>) -> Seq<char> {
    join_with(sort_pairs(index_pairs(index)).map_values(|pr: (i64, String)| pr.1@), " "@)
}

proof fn lemma_insert_sorted_at(ps: Seq<(i64, String)>, p: (i64, String), idx: int)
    requires
        0 <= idx <= ps.len(),
        forall|q: int| idx <= q < ps.len() ==> (#[trigger] ps[q]).0 > p.0,
        idx > 0 ==> ps[idx - 1].0 <= p.0,
    ensures
        insert_pair_sorted(ps, p) == ps.take(idx) + seq![p] + ps.skip(idx),
    decreases ps.len() - idx,
{
    if idx == ps.len() {
        if ps.len() == 0 {
            assert(insert_pair_sorted(ps, p) =~= ps.take(idx) + seq![p] + ps.skip(idx));
        } else {
            assert(ps.last().0 <= p.0);
            assert(insert_pair_sorted(ps, p) =~= ps.take(idx) + seq![p] + ps.skip(idx));
        }
    } else {
        let pe = ps.drop_last();
        assert(ps.last().0 > p.0);
        assert(forall|q: int| idx <= q < pe.len() ==> (#[trigger] pe[q]).0 > p.0);
        lemma_insert_sorted_at(pe, p, idx);
        assert(pe.take(idx) =~= ps.take(idx));
        assert(insert_pair_sorted(ps, p) =~= ps.take(idx) + seq![p] + ps.skip(idx));
    }
}

/// Inserts one word-position pair into a run kept in position order.
fn insert_sorted_exec(v: &mut Vec<(i64, String)>, p: (i64, String))
    ensures
        final(v)@ == insert_pair_sorted(old(v)@, p),
{
    let mut idx: usize = v.len();
    while idx > 0 && v[idx - 1].0 > p.0
        invariant
            idx <= v@.len(),
            forall|q: int| idx <= q < v@.len() ==> (#[trigger] v@[q]).0 > p.0,
        decreases idx,
    {
        idx = idx - 1;
    }
    proof {
        lemma_insert_sorted_at(v@, p, idx as int);
    }
    v.insert(idx, p);
    proof {
        assert(v@ =~= old(v)@.take(idx as int) + seq![p] + old(v)@.skip(idx as int));
    }
}

/// Rebuilds the abstract text from an inverted index: pairs each word
/// with each of its positions, sorts the pairs stably by position, and
/// joins the words with spaces.
pub fn reconstruct_abstract(index: &Vec<(String, Vec<i64>)>) -> (r: String)
    ensures
        r@ == reconstruct_spec(index@),
{
    broadcast use vstd::seq_lib::group_seq_lib_default;

    proof {
        reveal_strlit(" ");
    }
    let ghost entry_pairs = |e: (String, Vec<i64>)| e.1@.map_values(|p: i64| (p, e.0));
    // gather pairs in entry order
    let mut pairs: Vec<(i64, String)> = Vec::new();
    let mut i: usize = 0;
    assert(pairs@ =~= index_pairs(index@.take(0)));
    while i < index.len()
        invariant
            i <= index@.len(),
            pairs@ == index_pairs(index@.take(i as int)),
        decreases index@.len() - i,
    {
        let ghost entry_pairs = |e: (String, Vec<i64>)| e.1@.map_values(|p: i64| (p, e.0));
        let ghost prefix = index@.take(i as int);
        let word = &index[i].0;
        let positions = &index[i].1;
        let mut j: usize = 0;
        let ghost base = pairs@;
        while j < positions.len()
            invariant
                j <= positions@.len(),
                word == index@[i as int].0,
                positions == index@[i as int].1,
                i < index@.len(),
                pairs@ == base + positions@.take(j as int).map_values(
                    |p: i64| (p, index@[i as int].0),
                ),
            decreases positions@.len() - j,
        {
            pairs.push((positions[j], word.clone()));
            assert(pairs@ =~= base + positions@.take(j + 1).map_values(
                |p: i64| (p, index@[i as int].0),
            ));
            j = j + 1;
        }
        proof {
            assert(positions@.take(positions@.len() as int) =~= positions@);
            assert(index@.take(i + 1).drop_last() =~= prefix);
            assert(index@.take(i + 1).last() == index@[i as int]);
            assert(index@.take(i + 1).map_values(entry_pairs) =~= prefix.map_values(
                entry_pairs,
            ).push(entry_pairs(index@[i as int])));
            prefix.map_values(entry_pairs).lemma_flatten_push(entry_pairs(index@[i as int]));
            assert(pairs@ =~= index_pairs(index@.take(i + 1)));
        }
        i = i + 1;
    }
    assert(index@.take(index@.len() as int) =~= index@);
    // stable sort by position
    let mut sorted: Vec<(i64, String)> = Vec::new();
    let mut k: usize = 0;
    while k < pairs.len()
        invariant
            k <= pairs@.len(),
            sorted@ == sort_pairs(pairs@.take(k as int)),
        decreases pairs@.len() - k,
    {
        assert(pairs@.take(k + 1).drop_last() =~= pairs@.take(k as int));
        assert(pairs@.take(k + 1).last() == pairs@[k as int]);
        let pr = (pairs[k].0, pairs[k].1.clone());
        assert(pr == pairs@[k as int]);
        insert_sorted_exec(&mut sorted, pr);
        k = k + 1;
    }
    assert(pairs@.take(pairs@.len() as int) =~= pairs@);
    // join the words
    let mut words: Vec<String> = Vec::new();
    let mut w: usize = 0;
    while w < sorted.len()
        invariant
            w <= sorted@.len(),
            words@.map_values(|s: String| s@) == sorted@.take(w as int).map_values(
                |pr: (i64, String)| pr.1@,
            ),
        decreases sorted@.len() - w,
    {
        let ws = sorted[w].1.clone();
        assert(ws@ == sorted@[w as int].1@);
        let ghost old_words = words@;
        words.push(ws);
        proof {
            assert(words@.map_values(|s: String| s@) =~= old_words.map_values(|s: String| s@).push(
                sorted@[w as int].1@,
            ));
            assert(sorted@.take(w + 1).map_values(|pr: (i64, String)| pr.1@) =~= sorted@.take(
                w as int,
            ).map_values(|pr: (i64, String)| pr.1@).push(sorted@[w as int].1@));
        }
        w = w + 1;
    }
    assert(sorted@.take(sorted@.len() as int) =~= sorted@);
    join_strings(&words, " ")
}

/// The author line of a raw work: the named authors among the first
/// three authorships, joined with `", "`, with `" ..."` appended when
/// more than three authorships exist; empty without authorships.
pub open spec fn author_line(aus: Option<Vec<Option<String>>>) -> Seq<char> {
    if aus is Some {
        let vs = aus->0@;
        let first3 = if vs.len() > 3 {
            vs.take(3)
        } else {
            vs
        };
        join_with(
            first3.filter(|o: Option<String>| o is Some).map_values(|o: Option<String>| o->0@),
            ", "@,
        ) + (if vs.len() > 3 {
            " ..."@
        } else {
            Seq::<char>::empty()
        })
    } else {
        Seq::<char>::empty()
    }
}

/// The keyword line of a raw work: the first five named keywords,
/// joined with `", "`; empty without keywords.
pub open spec fn keyword_line(ks: Option<Vec<Option<String>>>) -> Seq<char> {
    if ks is Some {
        let named = ks->0@.filter(|o: Option<String>| o is Some).map_values(
            |o: Option<String>| o->0@,
        );
        let first5 = if named.len() > 5 {
            named.take(5)
        } else {
            named
        };
        join_with(first5, ", "@)
    } else {
        Seq::<char>::empty()
    }
}

/// The named entries among the first `end` entries of a name list.
fn collect_named_range(vs: &Vec<Option<String>>, end: usize) -> (r: Vec<String>)
    requires
        end <= vs@.len(),
    ensures
        r@.map_values(|s: String| s@) == vs@.take(end as int).filter(
            |o: Option<String>| o is Some,
        ).map_values(|o: Option<String>| o->0@),
{
    broadcast use vstd::seq_lib::group_seq_lib_default;

    let mut out: Vec<String> = Vec::new();
    let mut i: usize = 0;
    while i < end
        invariant
            end <= vs@.len(),
            i <= end,
            out@.map_values(|s: String| s@) == vs@.take(i as int).filter(
                |o: Option<String>| o is Some,
            ).map_values(|o: Option<String>| o->0@),
        decreases end - i,
    {
        let ghost prefix = vs@.take(i as int);
        proof {
            reveal_with_fuel(Seq::filter, 2);
            assert(vs@.take(i + 1).drop_last() =~= prefix);
            assert(vs@.take(i + 1).last() == vs@[i as int]);
        }
        let ghost old_out = out@;
        match &vs[i] {
            Some(name) => {
                out.push(name.clone());
                proof {
                    assert(out@.map_values(|s: String| s@) =~= old_out.map_values(
                        |s: String| s@,
                    ).push(vs@[i as int]->0@));
                    assert(vs@.take(i + 1).filter(|o: Option<String>| o is Some)
                        =~= prefix.filter(|o: Option<String>| o is Some).push(vs@[i as int]));
                    assert(vs@.take(i + 1).filter(|o: Option<String>| o is Some).map_values(
                        |o: Option<String>| o->0@,
                    ) =~= prefix.filter(|o: Option<String>| o is Some).map_values(
                        |o: Option<String>| o->0@,
                    ).push(vs@[i as int]->0@));
                }
            },
            None => {
                proof {
                    assert(vs@.take(i + 1).filter(|o: Option<String>| o is Some)
                        =~= prefix.filter(|o: Option<String>| o is Some));
                    assert(vs@.take(i + 1).filter(|o: Option<String>| o is Some).map_values(
                        |o: Option<String>| o->0@,
                    ) =~= prefix.filter(|o: Option<String>| o is Some).map_values(
                        |o: Option<String>| o->0@,
                    ));
                }
            },
        }
        i = i + 1;
    }
    out
}

/// The author line of a raw work, rendered.
fn render_author_line(aus: &Option<Vec<Option<String>>>) -> (r: String)
    ensures
        r@ == author_line(*aus),
{
    proof {
        reveal_strlit(", ");
        reveal_strlit(" ...");
    }
    match aus {
        Some(vs) => {
            let end: usize = if vs.len() > 3 {
                3
            } else {
                vs.len()
            };
            let named = collect_named_range(vs, end);
            proof {
                if vs@.len() <= 3 {
                    assert(vs@.take(end as int) =~= vs@);
                }
            }
            let mut line = join_strings(&named, ", ");
            if vs.len() > 3 {
                line.append(" ...");
            } else {
                assert(line@ =~= line@ + Seq::<char>::empty());
            }
            line
        },
        None => String::new(),
    }
}

/// The keyword line of a raw work, rendered.
fn render_keyword_line(ks: &Option<Vec<Option<String>>>) -> (r: String)
    ensures
        r@ == keyword_line(*ks),
{
    proof {
        reveal_strlit(", ");
    }
    match ks {
        Some(vs) => {
            let mut named = collect_named_range(vs, vs.len());
            assert(vs@.take(vs@.len() as int) =~= vs@);
            if named.len() > 5 {
                named.truncate(5);
                assert(named@.map_values(|s: String| s@) =~= vs@.filter(
                    |o: Option<String>| o is Some,
                ).map_values(|o: Option<String>| o->0@).take(5));
            }
            join_strings(&named, ", ")
        },
        None => String::new(),
    }
}

/// The text of a DOI field with the resolver prefix removed.
pub open spec fn doi_text(doi: Option<String>) -> Seq<char> {
    if doi is Some {
        replace_seq(doi->0@, "https://doi.org/"@, Seq::<char>::empty())
    } else {
        Seq::<char>::empty()
    }
}

/// Converts one raw work into the library's record: titles, names and
/// dates resolved with their fallbacks, the DOI stripped of its
/// resolver prefix, URLs resolved primary-location first, open-access
/// data attached, and the abstract rebuilt from its inverted index.
pub fn convert_work(work: OpenAlexWorkFields) -> (r: OpenAlexResult)
    ensures
        r.title@ == (if work.display_name is Some {
            work.display_name->0@
        } else {
            opt_text(work.title)
        }),
        r.openalex_id@ == opt_text(work.id),
        r.year@ == (if work.publication_year is Some {
            int_str(work.publication_year->0 as int)
        } else {
            Seq::<char>::empty()
        }),
        r.doi@ == doi_text(work.doi),
        r.citations@ == (if work.cited_by_count is Some {
            int_str(work.cited_by_count->0 as int)
        } else {
            Seq::<char>::empty()
        }),
        r.author@ == author_line(work.authorships),
        r.venue@ == (if work.primary_location is Some {
            opt_text(work.primary_location->0.source_name)
        } else {
            Seq::<char>::empty()
        }),
        r.source_type@ == (if work.primary_location is Some {
            opt_text(work.primary_location->0.source_type)
        } else {
            Seq::<char>::empty()
        }),
        r.article_url@ == article_url_text(
            work.primary_location,
            work.best_oa_location,
            work.open_access,
        ),
        r.pdf_url@ == pdf_url_text(work.primary_location, work.best_oa_location),
        r.is_oa == (work.open_access is Some && work.open_access->0.is_oa is Some
            && work.open_access->0.is_oa->0),
        r.oa_status@ == (if work.open_access is Some {
            opt_text(work.open_access->0.oa_status)
        } else {
            Seq::<char>::empty()
        }),
        r.oa_url@ == (if work.open_access is Some {
            opt_text(work.open_access->0.oa_url)
        } else {
            Seq::<char>::empty()
        }),
        r.snippet@ == (if work.abstract_index is Some {
            reconstruct_spec(work.abstract_index->0@)
        } else {
            Seq::<char>::empty()
        }),
        r.publication_date@ == opt_text(work.publication_date),
        r.language@ == opt_text(work.language),
        r.work_type@ == opt_text(work.work_type),
        r.keywords@ == keyword_line(work.keywords),
        r.primary_topic@ == opt_text(work.primary_topic),
        r.referenced_works@ == (if work.referenced_works is Some {
            join_with(work.referenced_works->0@.map_values(|s: String| s@), ","@)
        } else {
            Seq::<char>::empty()
        }),
        r.referenced_works_count == (if work.referenced_works is Some {
            work.referenced_works->0@.len() as i64
        } else if work.referenced_works_count is Some {
            work.referenced_works_count->0
        } else {
            0i64
        }),
        r.related_works@ == (if work.related_works is Some {
            join_with(work.related_works->0@.map_values(|s: String| s@), ","@)
        } else {
            Seq::<char>::empty()
        }),
        r.related_works_count == (if work.related_works is Some {
            work.related_works->0@.len() as i64
        } else {
            0i64
        }),
        r.locations_count == (if work.locations_count is Some {
            work.locations_count->0
        } else {
            0i64
        }),
{
    proof {
        reveal_strlit("https://doi.org/");
        reveal_strlit(",");
        reveal_strlit("");
        assert(""@ =~= Seq::<char>::empty());
    }
    let title: String = match &work.display_name {
        Some(d) => d.clone(),
        None => match &work.title {
            Some(t) => t.clone(),
            None => String::new(),
        },
    };
    let openalex_id = opt_clone(&work.id);
    let year: String = match work.publication_year {
        Some(y) => i64_to_string(y as i64),
        None => String::new(),
    };
    let doi: String = match &work.doi {
        Some(d) => replace_all(d.as_str(), "https://doi.org/", ""),
        None => String::new(),
    };
    let citations: String = match work.cited_by_count {
        Some(c) => i64_to_string(c),
        None => String::new(),
    };
    let author = render_author_line(&work.authorships);
    let (venue, source_type): (String, String) = match &work.primary_location {
        Some(loc) => (opt_clone(&loc.source_name), opt_clone(&loc.source_type)),
        None => (String::new(), String::new()),
    };
    let mut article_url: String = match &work.primary_location {
        Some(loc) => opt_clone(&loc.landing_page_url),
        None => String::new(),
    };
    let mut pdf_url: String = match &work.primary_location {
        Some(loc) => opt_clone(&loc.pdf_url),
        None => String::new(),
    };
    if let Some(best) = &work.best_oa_location {
        if pdf_url.as_str().is_empty() {
            pdf_url = opt_clone(&best.pdf_url);
        }
        if article_url.as_str().is_empty() {
            article_url = opt_clone(&best.landing_page_url);
        }
    }
    let (is_oa, oa_status, oa_url): (bool, String, String) = match &work.open_access {
        Some(oa) => (
            match oa.is_oa {
                Some(b) => b,
                None => false,
            },
            opt_clone(&oa.oa_status),
            opt_clone(&oa.oa_url),
        ),
        None => (false, String::new(), String::new()),
    };
    if work.open_access.is_some() && article_url.as_str().is_empty() {
        article_url = oa_url.clone();
    }
    let snippet: String = match &work.abstract_index {
        Some(idx) => reconstruct_abstract(idx),
        None => String::new(),
    };
    let publication_date = opt_clone(&work.publication_date);
    let language = opt_clone(&work.language);
    let work_type = opt_clone(&work.work_type);
    let keywords = render_keyword_line(&work.keywords);
    let primary_topic = opt_clone(&work.primary_topic);
    let (referenced_works, referenced_works_count): (String, i64) = match &work.referenced_works {
        Some(refs) => (join_strings(refs, ","), refs.len() as i64),
        None => (
            String::new(),
            match work.referenced_works_count {
                Some(c) => c,
                None => 0,
            },
        ),
    };
    let (related_works, related_works_count): (String, i64) = match &work.related_works {
        Some(rel) => (join_strings(rel, ","), rel.len() as i64),
        None => (String::new(), 0),
    };
    let locations_count: i64 = match work.locations_count {
        Some(c) => c,
        None => 0,
    };
    OpenAlexResult {
        title,
        author,
        year,
        publication_date,
        venue,
        source_type,
        doi,
        article_url,
        pdf_url,
        citations,
        snippet,
        openalex_id,
        is_oa,
        oa_status,
        oa_url,
        language,
        work_type,
        keywords,
        primary_topic,
        referenced_works,
        related_works,
        referenced_works_count,
        related_works_count,
        locations_count,
    }
}

/// The article URL a raw work resolves to: the primary location's
/// landing page, else the best open-access landing page, else the
/// open-access URL.
pub open spec fn article_url_text(
    primary: Option<OpenAlexLocationFields>,
    best: Option<OpenAlexLocationFields>,
    oa: Option<OpenAlexOpenAccessFields>,
) -> Seq<char> {
    let a1 = if primary is Some {
        opt_text(primary->0.landing_page_url)
    } else {
        Seq::<char>::empty()
    };
    let a2 = if a1.len() == 0 && best is Some {
        opt_text(best->0.landing_page_url)
    } else {
        a1
    };
    if a2.len() == 0 && oa is Some {
        opt_text(oa->0.oa_url)
    } else {
        a2
    }
}

/// The PDF URL a raw work resolves to: the primary location's PDF,
/// else the best open-access PDF.
pub open spec fn pdf_url_text(
    primary: Option<OpenAlexLocationFields>,
    best: Option<OpenAlexLocationFields>,
) -> Seq<char> {
    let p1 = if primary is Some {
        opt_text(primary->0.pdf_url)
    } else {
        Seq::<char>::empty()
    };
    if p1.len() == 0 && best is Some {
        opt_text(best->0.pdf_url)
    } else {
        p1
    }
}

/// A copy of an optional string's contents, empty when absent.
fn opt_clone(o: &Option<String>) -> (r: String)
    ensures
        r@ == opt_text(*o),
{
    match o {
        Some(s) => s.clone(),
        None => String::new(),
    }
}

} // verus!
