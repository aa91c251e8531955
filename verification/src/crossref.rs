//! Metadata enrichment by title lookup.
//!
//! The enrichment source answers one best-matching record per title;
//! what is verified here is how a raw response item becomes the
//! library's metadata record — author joining, date joining, HTML tag
//! stripping — while the HTTP attempt itself runs under the retry
//! machine through the I/O driver.

use crate::text::first_index_spec;
use crate::text::int_str;
use crate::text::i64_to_string;
use crate::text::join_strings;
use crate::text::join_with;
use crate::text::lemma_first_index_range;
use crate::text::push_char;
use crate::text::trim_seq;
use crate::text::trim_str;
use vstd::prelude::*;

use vstd::string::StrSliceExecFns;
use vstd::string::StringExecFns;

verus! {

/// Enriched metadata for one work.
#[derive(Debug, Clone)]
pub struct CrossrefMetadata {
    /// DOI.
    pub doi: String,
    /// Journal name.
    pub journal: String,
    /// Authors, comma-separated.
    pub authors: String,
    /// Publication date, `YYYY-MM-DD` or partial.
    pub date: String,
    /// Abstract with HTML tags stripped.
    pub abstract_text: String,
    /// The source's own title, for verification against the query.
    pub crossref_title: String,
}

/// One author of a raw response item.
#[derive(Debug, Clone)]
pub struct CrossrefAuthor {
    pub given: String,
    pub family: String,
}

/// The date of a raw response item, as year-month-day parts.
#[derive(Debug, Clone)]
pub struct CrossrefPublished {
    pub date_parts: Vec<Vec<i32>>,
}

/// One raw response item, its optional fields made explicit.
#[derive(Debug, Clone)]
pub struct CrossrefItem {
    pub doi: String,
    pub title: Vec<String>,
    pub author: Vec<CrossrefAuthor>,
    pub container_title: Vec<String>,
    pub published: Option<CrossrefPublished>,
    pub abstract_text: Option<String>,
}

/// Text with markup tags removed: every span from a `<` over one or
/// more non-`>` characters to a `>` is dropped; a lone `<>` or an
/// unclosed `<` stands.
pub open spec fn strip_tags(s: Seq<char>) -> Seq<char>
    decreases s.len(),
    via strip_tags_decreases
{
    if s.len() == 0 {
        Seq::<char>::empty()
    } else if s[0] == '<' {
        let j = first_index_spec(s.skip(1), '>');
        if 1 <= j < s.len() - 1 {
            strip_tags(s.skip(j + 2))
        } else {
            seq![s[0]] + strip_tags(s.skip(1))
        }
    } else {
        seq![s[0]] + strip_tags(s.skip(1))
    }
}

#[via_fn]
proof fn strip_tags_decreases(s: Seq<char>) {
    if s.len() > 0 && s[0] == '<' {
        lemma_first_index_range(s.skip(1), '>');
    }
}

/// Strips markup tags from text.
pub fn strip_html_tags(text: &str) -> (r: String)
    ensures
        r@ == strip_tags(text@),
{
    let n = text.unicode_len();
    let mut out = String::new();
    let mut i: usize = 0;
    assert(text@.skip(0) =~= text@);
    assert(Seq::<char>::empty() + strip_tags(text@) =~= strip_tags(text@));
    while i < n
        invariant
            n == text@.len(),
            i <= n,
            strip_tags(text@) == out@ + strip_tags(text@.skip(i as int)),
        decreases n - i,
    {
        let ghost rest = text@.skip(i as int);
        let c = text.get_char(i);
        assert(rest[0] == text@[i as int]);
        if c == '<' {
            // scan for the closing `>`
            let mut k: usize = i + 1;
            while k < n && text.get_char(k) != '>'
                invariant
                    n == text@.len(),
                    i + 1 <= k <= n,
                    forall|q: int| i + 1 <= q < k ==> text@[q] != '>',
                decreases n - k,
            {
                k = k + 1;
            }
            proof {
                let tail = text@.skip(i + 1);
                assert(forall|q: int| 0 <= q < k - i - 1 ==> tail[q] == text@[i + 1 + q]);
                if k < n {
                    assert(tail[k - i - 1] == text@[k as int]);
                }
                crate::text::lemma_first_index_at(tail, '>', k - i - 1);
                assert(rest.skip(1) =~= tail);
                assert(first_index_spec(rest.skip(1), '>') == k - i - 1);
            }
            if k < n && k > i + 1 {
                // a tag spans i..=k; drop it
                proof {
                    assert(rest.skip(k - i - 1 + 2) =~= text@.skip(k + 1));
                    assert(strip_tags(rest) == strip_tags(text@.skip(k + 1)));
                }
                i = k + 1;
            } else {
                let ghost prev = out@;
                proof {
                    assert(rest.skip(1) =~= text@.skip(i + 1));
                    assert(strip_tags(rest) == seq![rest[0]] + strip_tags(text@.skip(i + 1)));
                }
                push_char(&mut out, c);
                proof {
                    assert(out@ + strip_tags(text@.skip(i + 1)) =~= prev + (seq![rest[0]]
                        + strip_tags(text@.skip(i + 1))));
                }
                i = i + 1;
            }
        } else {
            let ghost prev = out@;
            proof {
                assert(rest.skip(1) =~= text@.skip(i + 1));
                assert(strip_tags(rest) == seq![rest[0]] + strip_tags(text@.skip(i + 1)));
            }
            push_char(&mut out, c);
            proof {
                assert(out@ + strip_tags(text@.skip(i + 1)) =~= prev + (seq![rest[0]] + strip_tags(
                    text@.skip(i + 1),
                )));
            }
            i = i + 1;
        }
    }
    assert(text@.skip(n as int) =~= Seq::<char>::empty());
    assert(out@ + Seq::<char>::empty() =~= out@);
    out
}

/// The joined author list of an item: each author's given and family
/// names joined with a space and trimmed, blank authors dropped, the
/// rest joined with `", "`.
pub open spec fn authors_text(authors: Seq<CrossrefAuthor>) -> Seq<char> {
    join_with(
        authors.map_values(|a: CrossrefAuthor| trim_seq(a.given@ + " "@ + a.family@)).filter(
            |s: Seq<char>| s.len() != 0,
        ),
        ", "@,
    )
}

/// The joined date of an item: the first date-part group, its numbers
/// rendered in decimal and joined with `-`; empty without a date.
pub open spec fn date_text(published: Option<CrossrefPublished>) -> Seq<char> {
    if published is Some && published->0.date_parts@.len() > 0 {
        join_with(
            published->0.date_parts@[0]@.map_values(|n: i32| int_str(n as int)),
            "-"@,
        )
    } else {
        Seq::<char>::empty()
    }
}

/// The first element of a string list, or empty text.
pub open spec fn first_or_empty(v: Seq<String>) -> Seq<char> {
    if v.len() > 0 {
        v[0]@
    } else {
        Seq::<char>::empty()
    }
}

/// Builds the metadata record of one raw response item: DOI verbatim,
/// first container title as the journal, authors and date joined, the
/// abstract stripped of tags, the source title kept for verification.
pub fn parse_crossref_item(item: CrossrefItem) -> (r: CrossrefMetadata)
    ensures
        r.doi == item.doi,
        r.journal@ == first_or_empty(item.container_title@),
        r.authors@ == authors_text(item.author@),
        r.date@ == date_text(item.published),
        r.abstract_text@ == (if item.abstract_text is Some {
            strip_tags(item.abstract_text->0@)
        } else {
            Seq::<char>::empty()
        }),
        r.crossref_title@ == first_or_empty(item.title@),
{
    broadcast use vstd::seq_lib::group_seq_lib_default;

    proof {
        reveal_strlit(" ");
        reveal_strlit(", ");
        reveal_strlit("-");
    }
    // authors
    let ghost name_of = |a: CrossrefAuthor| trim_seq(a.given@ + " "@ + a.family@);
    let ghost keep = |s: Seq<char>| s.len() != 0;
    let mut names: Vec<String> = Vec::new();
    let mut i: usize = 0;
    while i < item.author.len()
        invariant
            i <= item.author@.len(),
            names@.map_values(|s: String| s@) == item.author@.take(i as int).map_values(
                |a: CrossrefAuthor| trim_seq(a.given@ + " "@ + a.family@),
            ).filter(|s: Seq<char>| s.len() != 0),
        decreases item.author@.len() - i,
    {
        let ghost name_of = |a: CrossrefAuthor| trim_seq(a.given@ + " "@ + a.family@);
        let ghost keep = |s: Seq<char>| s.len() != 0;
        let ghost prefix = item.author@.take(i as int);
        let a = &item.author[i];
        let mut full = a.given.clone();
        full.append(" ");
        full.append(a.family.as_str());
        let trimmed = trim_str(full.as_str());
        proof {
            reveal_with_fuel(Seq::filter, 2);
            assert(item.author@.take(i + 1).drop_last() =~= prefix);
            assert(item.author@.take(i + 1).last() == item.author@[i as int]);
            assert(item.author@.take(i + 1).map_values(name_of) =~= prefix.map_values(
                name_of,
            ).push(name_of(item.author@[i as int])));
            assert(item.author@.take(i + 1).map_values(name_of).drop_last() =~= prefix.map_values(
                name_of,
            ));
        }
        let ghost old_names = names@;
        if !trimmed.as_str().is_empty() {
            names.push(trimmed);
            proof {
                assert(names@.map_values(|s: String| s@) =~= old_names.map_values(
                    |s: String| s@,
                ).push(name_of(item.author@[i as int])));
                assert(item.author@.take(i + 1).map_values(name_of).filter(keep)
                    =~= prefix.map_values(name_of).filter(keep).push(
                    name_of(item.author@[i as int]),
                ));
            }
        } else {
            proof {
                assert(item.author@.take(i + 1).map_values(name_of).filter(keep)
                    =~= prefix.map_values(name_of).filter(keep));
            }
        }
        i = i + 1;
    }
    assert(item.author@.take(item.author@.len() as int) =~= item.author@);
    let authors = join_strings(&names, ", ");
    // date
    let date: String = match &item.published {
        Some(p) => {
            if p.date_parts.len() > 0 {
                let parts = &p.date_parts[0];
                let mut rendered: Vec<String> = Vec::new();
                let mut j: usize = 0;
                while j < parts.len()
                    invariant
                        j <= parts@.len(),
                        rendered@.map_values(|s: String| s@) == parts@.take(j as int).map_values(
                            |n: i32| int_str(n as int),
                        ),
                    decreases parts@.len() - j,
                {
                    let v = parts[j];
                    let vs = i64_to_string(v as i64);
                    assert(vs@ == int_str(v as int));
                    let ghost old_rendered = rendered@;
                    rendered.push(vs);
                    proof {
                        assert(rendered@.map_values(|s: String| s@) =~= old_rendered.map_values(
                            |s: String| s@,
                        ).push(int_str(v as int)));
                        assert(parts@.take(j + 1).map_values(|n: i32| int_str(n as int))
                            =~= parts@.take(j as int).map_values(|n: i32| int_str(n as int)).push(
                            int_str(parts@[j as int] as int),
                        ));
                    }
                    j = j + 1;
                }
                assert(parts@.take(parts@.len() as int) =~= parts@);
                join_strings(&rendered, "-")
            } else {
                String::new()
            }
        },
        None => String::new(),
    };
    // journal, title, abstract
    let journal: String = if item.container_title.len() > 0 {
        item.container_title[0].clone()
    } else {
        String::new()
    };
    let crossref_title: String = if item.title.len() > 0 {
        item.title[0].clone()
    } else {
        String::new()
    };
    let abstract_text: String = match &item.abstract_text {
        Some(t) => strip_html_tags(t.as_str()),
        None => String::new(),
    };
    CrossrefMetadata { doi: item.doi, journal, authors, date, abstract_text, crossref_title }
}

} // verus!
