//! Batch metadata lookup by DOI.
//!
//! Oversized id lists are split into balanced batches bounded by the
//! source's maximum batch size; batches are submitted sequentially by the
//! I/O driver, and one batch's failure leaves the other batches intact.

use vstd::arithmetic::div_mod::lemma_fundamental_div_mod;
use vstd::arithmetic::div_mod::lemma_fundamental_div_mod_converse;
use vstd::prelude::*;

use vstd::string::StringExecFns;

verus! {

/// Maximum papers per batch request accepted by the source.
pub const MAX_BATCH_SIZE: usize = 500;

/// One record returned by the batch metadata source.
#[derive(Debug, Clone)]
pub struct SemanticScholarResult {
    pub title: String,
    pub doi: String,
    pub ss_abstract: String,
    pub tldr: String,
    pub ss_url: String,
    pub is_oa: bool,
    pub oa_pdf_url: String,
    pub paper_id: String,
    pub embedding: String,
}

/// The number of batches for `n` items under batch bound `m`:
/// `n / m` rounded up.
pub open spec fn ceil_div(n: int, m: int) -> int {
    (n + m - 1) / m
}

/// The size of batch `b` when `n` items are split into `k` balanced
/// batches: the first `n % k` batches carry one extra item.
pub open spec fn balanced_size(n: int, k: int, b: int) -> int {
    if b < n % k {
        n / k + 1
    } else {
        n / k
    }
}

proof fn lemma_ceil_div_form(n: int, m: int)
    requires
        n >= 0,
        m >= 1,
    ensures
        ceil_div(n, m) == if n % m == 0 {
            n / m
        } else {
            n / m + 1
        },
        n <= ceil_div(n, m) * m,
        n >= 1 ==> 1 <= ceil_div(n, m) <= n,
        n / m >= 0,
        n % m >= 0,
{
    lemma_fundamental_div_mod(n, m);
    vstd::arithmetic::div_mod::lemma_mod_pos_bound(n, m);
    let q = n / m;
    let r = n % m;
    assert(m * q == q * m) by (nonlinear_arith);
    assert(q >= 0) by (nonlinear_arith)
        requires
            m >= 1 && n >= 0 && 0 <= r < m && n == m * q + r,
    ;
    assert((q + 1) * m == q * m + m) by (nonlinear_arith);
    if r == 0 {
        lemma_fundamental_div_mod_converse(n + m - 1, m, q, m - 1);
    } else {
        lemma_fundamental_div_mod_converse(n + m - 1, m, q + 1, r - 1);
    }
    if n >= 1 {
        assert(q <= q * m) by (nonlinear_arith)
            requires
                q >= 0 && m >= 1,
        ;
        if r == 0 && q == 0 {
            assert(m * 0 == 0) by (nonlinear_arith);
            assert(false);
        }
    }
}

/// How many batches `total` items make under batch bound `max`.
pub fn chunk_count(total: usize, max: usize) -> (k: usize)
    requires
        max >= 1,
    ensures
        k == ceil_div(total as int, max as int),
        total <= k * max,
        total >= 1 ==> 1 <= k <= total,
    no_unwind
{
    proof {
        lemma_ceil_div_form(total as int, max as int);
    }
    if total % max == 0 {
        total / max
    } else {
        total / max + 1
    }
}

/// The size of the largest batch when `total` items make `count`
/// batches: `total / count` rounded up.
pub fn chunk_size(total: usize, count: usize) -> (s: usize)
    requires
        count >= 1,
    ensures
        s == ceil_div(total as int, count as int),
    no_unwind
{
    proof {
        lemma_ceil_div_form(total as int, count as int);
    }
    if total % count == 0 {
        total / count
    } else {
        total / count + 1
    }
}

/// Splits `items` into `ceil(len / max)` balanced batches.
///
/// The batches concatenate back to the input in order, every batch is
/// within the bound, and two batch sizes never differ by more than one.
pub fn chunk_items(items: &Vec<String>, max: usize) -> (r: Vec<Vec<String>>)
    requires
        max >= 1,
    ensures
        r@.len() == ceil_div(items@.len() as int, max as int),
        r@.map_values(|batch: Vec<String>| batch@).flatten() == items@,
        forall|b: int|
            0 <= b < r@.len() ==> (#[trigger] r@[b])@.len() == balanced_size(
                items@.len() as int,
                r@.len() as int,
                b,
            ),
        forall|b: int| 0 <= b < r@.len() ==> 1 <= (#[trigger] r@[b])@.len() <= max,
        forall|b1: int, b2: int|
            0 <= b1 < r@.len() && 0 <= b2 < r@.len() ==> (#[trigger] r@[b1])@.len() - (
            #[trigger] r@[b2])@.len() <= 1,
{
    broadcast use vstd::seq_lib::group_seq_lib_default;

    let n = items.len();
    let mut r: Vec<Vec<String>> = Vec::new();
    if n == 0 {
        proof {
            lemma_ceil_div_form(0, max as int);
            assert(r@.map_values(|batch: Vec<String>| batch@).flatten() =~= items@);
        }
        return r;
    }
    let k = chunk_count(n, max);
    let base = n / k;
    let rem = n % k;
    proof {
        lemma_fundamental_div_mod(n as int, k as int);
        vstd::arithmetic::div_mod::lemma_mod_pos_bound(n as int, k as int);
        assert(k * base == base * k) by (nonlinear_arith);
        assert(k * base <= n);
        if base == 0 {
            assert(k * 0 == 0) by (nonlinear_arith);
            assert(false);
        }
        // base <= max: otherwise k * base would exceed k * max >= n
        if base > max {
            assert(k * base >= k * (max + 1)) by (nonlinear_arith)
                requires
                    k >= 1 && base >= max + 1,
            ;
            assert(k * (max + 1) == k * max + k) by (nonlinear_arith);
            assert(false);
        }
        // with a remainder, even base + 1 fits the bound
        if rem > 0 && base + 1 > max {
            assert(base == max);
            assert(false);
        }
    }
    let mut b: usize = 0;
    let mut idx: usize = 0;
    while b < k
        invariant
            n == items@.len(),
            1 <= k <= n,
            base == n as int / k as int,
            rem == n as int % k as int,
            n == k * base + rem,
            0 <= rem < k,
            base >= 1,
            base + (if rem > 0 {
                1int
            } else {
                0int
            }) <= max,
            b <= k,
            idx == b * base + (if b <= rem {
                b as int
            } else {
                rem as int
            }),
            idx <= n,
            r@.len() == b,
            r@.map_values(|batch: Vec<String>| batch@).flatten() == items@.take(idx as int),
            forall|j: int|
                0 <= j < b ==> (#[trigger] r@[j])@.len() == balanced_size(n as int, k as int, j),
        decreases k - b,
    {
        let size: usize = if b < rem {
            base + 1
        } else {
            base
        };
        proof {
            // the batch fits: idx + size <= n
            assert(idx + size <= n) by (nonlinear_arith)
                requires
                    idx == b * base + (if b <= rem {
                        b as int
                    } else {
                        rem as int
                    }),
                    size == (if b < rem {
                        base + 1int
                    } else {
                        base as int
                    }),
                    n == k * base + rem,
                    0 <= b < k,
                    0 <= rem < k,
                    base >= 1,
            ;
        }
        let mut batch: Vec<String> = Vec::new();
        let mut j: usize = 0;
        while j < size
            invariant
                j <= size,
                idx + size <= n,
                n == items@.len(),
                batch@.len() == j,
                batch@ =~= items@.subrange(idx as int, idx + j),
            decreases size - j,
        {
            batch.push(items[idx + j].clone());
            assert(batch@ =~= items@.subrange(idx as int, idx + j + 1));
            j = j + 1;
        }
        let ghost old_r = r@;
        r.push(batch);
        proof {
            let f = |batch: Vec<String>| batch@;
            let sub = items@.subrange(idx as int, idx + size);
            assert(r@.map_values(f) =~= old_r.map_values(f).push(sub));
            old_r.map_values(f).lemma_flatten_push(sub);
            assert(items@.take(idx as int) + sub =~= items@.take(idx + size));
            assert((b + 1) * base == b * base + base) by (nonlinear_arith);
        }
        idx = idx + size;
        b = b + 1;
    }
    proof {
        assert(idx == n) by (nonlinear_arith)
            requires
                idx == k * base + (if k <= rem {
                    k as int
                } else {
                    rem as int
                }),
                n == k * base + rem,
                0 <= rem < k,
        ;
        assert(items@.take(n as int) =~= items@);
    }
    r
}

/// Keeps the ids that are non-empty, in order, as the batch source
/// requires.
pub fn collect_valid_dois(dois: &Vec<String>) -> (r: Vec<String>)
    ensures
        r@ == dois@.filter(|d: String| d@.len() != 0),
{
    broadcast use vstd::seq_lib::group_seq_lib_default;

    let mut r: Vec<String> = Vec::new();
    let mut i: usize = 0;
    while i < dois.len()
        invariant
            i <= dois@.len(),
            r@ == dois@.take(i as int).filter(|d: String| d@.len() != 0),
        decreases dois@.len() - i,
    {
        let ghost prefix = dois@.take(i as int);
        assert(dois@.take(i + 1).drop_last() =~= prefix);
        if !dois[i].as_str().is_empty() {
            r.push(dois[i].clone());
        }
        proof {
            reveal_with_fuel(Seq::filter, 2);
            assert(dois@.take(i + 1).last() == dois@[i as int]);
        }
        i = i + 1;
    }
    assert(dois@.take(dois@.len() as int) =~= dois@);
    r
}

/// Prepends the id scheme tag to each DOI, as the batch endpoint expects.
pub fn format_doi_ids(dois: &Vec<String>) -> (r: Vec<String>)
    ensures
        r@.len() == dois@.len(),
        forall|i: int| 0 <= i < r@.len() ==> (#[trigger] r@[i])@ == "DOI:"@ + dois@[i]@,
{
    let mut r: Vec<String> = Vec::new();
    let mut i: usize = 0;
    while i < dois.len()
        invariant
            i <= dois@.len(),
            r@.len() == i,
            forall|j: int| 0 <= j < i ==> (#[trigger] r@[j])@ == "DOI:"@ + dois@[j]@,
        decreases dois@.len() - i,
    {
        let mut s: String = String::from_str("DOI:");
        s.append(dois[i].as_str());
        r.push(s);
        i = i + 1;
    }
    r
}

/// Assembles one result record from the optional fields of a batch
/// response entry, defaulting every absent field to empty, with the
/// embedding vector already rendered as text by the caller.
pub fn finish_ss_paper(
    title: Option<String>,
    doi: Option<String>,
    abstract_text: Option<String>,
    tldr: Option<String>,
    url: Option<String>,
    is_open_access: Option<bool>,
    oa_pdf_url: Option<String>,
    paper_id: Option<String>,
    embedding: String,
) -> (r: SemanticScholarResult)
    ensures
        r.title@ == (if title is Some {
            title->0@
        } else {
            Seq::<char>::empty()
        }),
        r.doi@ == (if doi is Some {
            doi->0@
        } else {
            Seq::<char>::empty()
        }),
        r.ss_abstract@ == (if abstract_text is Some {
            abstract_text->0@
        } else {
            Seq::<char>::empty()
        }),
        r.tldr@ == (if tldr is Some {
            tldr->0@
        } else {
            Seq::<char>::empty()
        }),
        r.ss_url@ == (if url is Some {
            url->0@
        } else {
            Seq::<char>::empty()
        }),
        r.is_oa == (if is_open_access is Some {
            is_open_access->0
        } else {
            false
        }),
        r.oa_pdf_url@ == (if oa_pdf_url is Some {
            oa_pdf_url->0@
        } else {
            Seq::<char>::empty()
        }),
        r.paper_id@ == (if paper_id is Some {
            paper_id->0@
        } else {
            Seq::<char>::empty()
        }),
        r.embedding == embedding,
{
    SemanticScholarResult {
        title: unwrap_or_empty(title),
        doi: unwrap_or_empty(doi),
        ss_abstract: unwrap_or_empty(abstract_text),
        tldr: unwrap_or_empty(tldr),
        ss_url: unwrap_or_empty(url),
        is_oa: match is_open_access {
            Some(b) => b,
            None => false,
        },
        oa_pdf_url: unwrap_or_empty(oa_pdf_url),
        paper_id: unwrap_or_empty(paper_id),
        embedding,
    }
}

/// The string if present, the empty string otherwise.
pub fn unwrap_or_empty(s: Option<String>) -> (r: String)
    ensures
        r@ == (if s is Some {
            s->0@
        } else {
            Seq::<char>::empty()
        }),
{
    match s {
        Some(v) => v,
        None => String::new(),
    }
}

} // verus!
