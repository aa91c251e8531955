//! Relevance classification support: response framing, verdicts, and
//! token accounting.
//!
//! The classification source answers free-form text that should hold a
//! JSON verdict, possibly wrapped in a fenced code block or surrounded
//! by prose; `extract_json` frames the JSON part.  Whatever the I/O
//! driver managed to parse, `verdict_from_parse` turns it into exactly
//! one verdict per input record — a failed parse becomes an explicit
//! "uncertain" verdict, never a dropped record.  Token usage is summed
//! with saturating, associative, commutative addition, so concurrent
//! completion order cannot change the totals.

use crate::text::first_index_spec;
use crate::text::find_char;
use crate::text::join_strings;
use crate::text::join_with;
use crate::text::last_index_spec;
use crate::text::matches_at;
use crate::text::occurs_at;
use crate::text::rfind_char;
use crate::text::str_eq;
use crate::text::trim_seq;
use crate::text::trim_str;
use vstd::prelude::*;

use vstd::string::StrSliceExecFns;
use vstd::string::StringExecFns;

verus! {

/// The ceiling on simultaneously in-flight classification requests.
pub const MAX_CONCURRENT_REQUESTS: usize = 10;

/// Classification endpoint configuration.
#[derive(Debug, Clone)]
pub struct LlmConfig {
    pub base_url: String,
    pub api_key: String,
    pub model: String,
    pub filter_help: String,
}

/// The verdict for one record.  The confidence is kept as decimal text,
/// exactly as the source sent it.
#[derive(Debug, Clone)]
pub struct FilterResult {
    pub id: String,
    pub title: String,
    pub label: String,
    pub confidence: String,
    /// Evidence phrases joined with `", "`.
    pub evidence: String,
    pub reason: String,
}

/// Token counts reported by the classification source.
#[derive(Debug, Clone, Copy, PartialEq, Eq, Structural)]
pub struct TokenUsage {
    pub prompt_tokens: u64,
    pub completion_tokens: u64,
    pub total_tokens: u64,
}

impl Default for TokenUsage {
    /// Zero usage.
    fn default() -> (r: TokenUsage)
        ensures
            r == zero_usage(),
    {
        TokenUsage { prompt_tokens: 0, completion_tokens: 0, total_tokens: 0 }
    }
}

/// No tokens used yet.
pub open spec fn zero_usage() -> TokenUsage {
    TokenUsage { prompt_tokens: 0, completion_tokens: 0, total_tokens: 0 }
}

/// Addition that saturates instead of overflowing.
pub open spec fn sat_add(a: u64, b: u64) -> u64 {
    if a + b > 0xffff_ffff_ffff_ffff {
        0xffff_ffff_ffff_ffff
    } else {
        (a + b) as u64
    }
}

/// Field-wise saturating sum of two usage reports.
pub open spec fn usage_sum(a: TokenUsage, b: TokenUsage) -> TokenUsage {
    TokenUsage {
        prompt_tokens: sat_add(a.prompt_tokens, b.prompt_tokens),
        completion_tokens: sat_add(a.completion_tokens, b.completion_tokens),
        total_tokens: sat_add(a.total_tokens, b.total_tokens),
    }
}

/// The sum of a sequence of usage reports, first to last.
pub open spec fn usage_total(s: Seq<TokenUsage>) -> TokenUsage
    decreases s.len(),
{
    if s.len() == 0 {
        zero_usage()
    } else {
        usage_sum(usage_total(s.drop_last()), s.last())
    }
}

/// Usage addition is commutative: two workers' reports can be combined
/// in either order.
pub proof fn lemma_usage_sum_commutative(a: TokenUsage, b: TokenUsage)
    ensures
        usage_sum(a, b) == usage_sum(b, a),
{
}

/// Usage addition is associative: grouping of combinations cannot
/// change the totals.
pub proof fn lemma_usage_sum_associative(a: TokenUsage, b: TokenUsage, c: TokenUsage)
    ensures
        usage_sum(usage_sum(a, b), c) == usage_sum(a, usage_sum(b, c)),
{
}

proof fn lemma_usage_total_remove(s: Seq<TokenUsage>, j: int)
    requires
        0 <= j < s.len(),
    ensures
        usage_total(s) == usage_sum(usage_total(s.remove(j)), s[j]),
    decreases s.len(),
{
    if j == s.len() - 1 {
        assert(s.remove(j) =~= s.drop_last());
    } else {
        let dl = s.drop_last();
        lemma_usage_total_remove(dl, j);
        assert(s.remove(j).drop_last() =~= dl.remove(j));
        assert(s.remove(j).last() == s.last());
        lemma_usage_sum_associative(usage_total(dl.remove(j)), dl[j], s.last());
        lemma_usage_sum_commutative(dl[j], s.last());
        lemma_usage_sum_associative(usage_total(dl.remove(j)), s.last(), dl[j]);
    }
}

/// Order independence: two report sequences holding the same reports —
/// one per worker, in any two completion orders — sum to the same
/// totals.
pub proof fn lemma_usage_total_permutation(s1: Seq<TokenUsage>, s2: Seq<TokenUsage>)
    requires
        s1.to_multiset() == s2.to_multiset(),
    ensures
        usage_total(s1) == usage_total(s2),
    decreases s1.len(),
{
    broadcast use vstd::seq_lib::group_to_multiset_ensures;

    s1.to_multiset_ensures();
    s2.to_multiset_ensures();
    if s1.len() > 0 {
        let x = s1.last();
        assert(s1.to_multiset().count(x) > 0) by {
            assert(s1.contains(x));
        }
        assert(s2.contains(x));
        let j = choose|j: int| 0 <= j < s2.len() && s2[j] == x;
        assert(s1.drop_last() =~= s1.remove(s1.len() - 1));
        assert(s1.remove(s1.len() - 1).to_multiset() =~= s2.remove(j).to_multiset());
        lemma_usage_total_permutation(s1.drop_last(), s2.remove(j));
        lemma_usage_total_remove(s2, j);
    } else {
        assert(s2.len() == 0);
    }
}

/// Deterministic accumulation: when every one of `s`'s reports is the
/// same report `u`, and the exact sums fit, the total is `s.len()`
/// times `u` — whatever order the workers completed in, since all
/// interleavings sum the same multiset.
pub proof fn lemma_usage_total_uniform(s: Seq<TokenUsage>, u: TokenUsage)
    requires
        forall|i: int| 0 <= i < s.len() ==> s[i] == u,
        s.len() * u.prompt_tokens <= 0xffff_ffff_ffff_ffff,
        s.len() * u.completion_tokens <= 0xffff_ffff_ffff_ffff,
        s.len() * u.total_tokens <= 0xffff_ffff_ffff_ffff,
    ensures
        usage_total(s).prompt_tokens == s.len() * u.prompt_tokens,
        usage_total(s).completion_tokens == s.len() * u.completion_tokens,
        usage_total(s).total_tokens == s.len() * u.total_tokens,
    decreases s.len(),
{
    if s.len() > 0 {
        let p = s.drop_last();
        assert((s.len() - 1) * u.prompt_tokens <= s.len() * u.prompt_tokens && (s.len() - 1)
            * u.completion_tokens <= s.len() * u.completion_tokens && (s.len() - 1)
            * u.total_tokens <= s.len() * u.total_tokens) by (nonlinear_arith)
            requires
                s.len() >= 1,
                u.prompt_tokens >= 0,
                u.completion_tokens >= 0,
                u.total_tokens >= 0,
        ;
        lemma_usage_total_uniform(p, u);
        assert(s.len() * u.prompt_tokens == (s.len() - 1) * u.prompt_tokens + u.prompt_tokens)
            by (nonlinear_arith);
        assert(s.len() * u.completion_tokens == (s.len() - 1) * u.completion_tokens
            + u.completion_tokens) by (nonlinear_arith);
        assert(s.len() * u.total_tokens == (s.len() - 1) * u.total_tokens + u.total_tokens)
            by (nonlinear_arith);
    }
}

/// The running usage accumulator shared by concurrent workers; the I/O
/// driver guards it with its own mutual exclusion and feeds it one
/// report per completed request.
pub struct AtomicTokenUsage {
    totals: TokenUsage,
}

impl AtomicTokenUsage {
    /// The accumulated totals.
    pub closed spec fn totals(&self) -> TokenUsage {
        self.totals
    }

    /// A fresh accumulator at zero.
    pub fn new() -> (r: AtomicTokenUsage)
        ensures
            r.totals() == zero_usage(),
    {
        AtomicTokenUsage { totals: TokenUsage { prompt_tokens: 0, completion_tokens: 0, total_tokens: 0 } }
    }

    /// Adds one worker's report to the totals, saturating at the top of
    /// the range instead of overflowing.
    pub fn add(&mut self, usage: &TokenUsage)
        ensures
            final(self).totals() == usage_sum(old(self).totals(), *usage),
    {
        self.totals.prompt_tokens = sat_add_exec(self.totals.prompt_tokens, usage.prompt_tokens);
        self.totals.completion_tokens = sat_add_exec(
            self.totals.completion_tokens,
            usage.completion_tokens,
        );
        self.totals.total_tokens = sat_add_exec(self.totals.total_tokens, usage.total_tokens);
    }

    /// The totals accumulated so far.
    pub fn get(&self) -> (r: TokenUsage)
        ensures
            r == self.totals(),
    {
        TokenUsage {
            prompt_tokens: self.totals.prompt_tokens,
            completion_tokens: self.totals.completion_tokens,
            total_tokens: self.totals.total_tokens,
        }
    }
}

/// Saturating 64-bit addition.
pub fn sat_add_exec(a: u64, b: u64) -> (r: u64)
    ensures
        r == sat_add(a, b),
{
    if a > 0xffff_ffff_ffff_ffff - b {
        0xffff_ffff_ffff_ffff
    } else {
        a + b
    }
}

/// The fields of a record sent for classification.
#[derive(Debug, Clone)]
pub struct PaperForLlm {
    pub id: String,
    pub title: String,
    pub abstract_text: String,
    pub tldr: String,
    pub journal: String,
    pub author: String,
    pub date: String,
}

/// The classification view of a canonical record: its DOI becomes the
/// id, and only the fields the classifier may read are kept.
pub fn paper_for_llm(r: &crate::unified::UnifiedResult) -> (p: PaperForLlm)
    ensures
        p.id == r.doi,
        p.title == r.title,
        p.abstract_text == r.abstract_text,
        p.tldr == r.tldr,
        p.journal == r.journal,
        p.author == r.author,
        p.date == r.date,
{
    PaperForLlm {
        id: r.doi.clone(),
        title: r.title.clone(),
        abstract_text: r.abstract_text.clone(),
        tldr: r.tldr.clone(),
        journal: r.journal.clone(),
        author: r.author.clone(),
        date: r.date.clone(),
    }
}

/// The verdict fields the I/O driver parsed out of a response body.
#[derive(Debug, Clone)]
pub struct VerdictFields {
    pub label: String,
    /// Decimal text of the confidence, as received.
    pub confidence: String,
    pub evidence: Vec<String>,
    pub reason: String,
}

/// A label the classification interface admits: one of the closed set
/// `relevant`, `irrelevant`, `uncertain` stands as sent; any other
/// value is effectively `uncertain`.
pub open spec fn normalized_label(l: Seq<char>) -> Seq<char> {
    if l == "relevant"@ || l == "irrelevant"@ || l == "uncertain"@ {
        l
    } else {
        "uncertain"@
    }
}

/// Exactly one verdict per record: a parsed response carries its own
/// confidence, evidence (joined with `", "`) and reason, and its label
/// normalized into the closed label set — anything outside it counts
/// as "uncertain"; a response that could not be parsed becomes an
/// "uncertain" verdict at zero confidence whose reason names the parse
/// error.
pub fn verdict_from_parse(
    parsed: Option<VerdictFields>,
    id: &str,
    title: &str,
    parse_error: &str,
) -> (r: FilterResult)
    ensures
        r.id@ == id@,
        r.title@ == title@,
        match parsed {
            Some(v) => r.label@ == normalized_label(v.label@) && r.confidence == v.confidence
                && r.evidence@ == join_with(v.evidence@.map_values(|e: String| e@), ", "@)
                && r.reason == v.reason,
            None => r.label@ == "uncertain"@ && r.confidence@ == "0.0"@ && r.evidence@
                == Seq::<char>::empty() && r.reason@ == "Parse error: "@ + parse_error@,
        },
{
    match parsed {
        Some(v) => {
            let in_set = str_eq(v.label.as_str(), "relevant") || str_eq(
                v.label.as_str(),
                "irrelevant",
            ) || str_eq(v.label.as_str(), "uncertain");
            let label: String = if in_set {
                v.label
            } else {
                String::from_str("uncertain")
            };
            FilterResult {
                id: id.to_owned(),
                title: title.to_owned(),
                label,
                confidence: v.confidence,
                evidence: join_strings(&v.evidence, ", "),
                reason: v.reason,
            }
        },
        None => {
            let mut reason: String = String::from_str("Parse error: ");
            reason.append(parse_error);
            FilterResult {
                id: id.to_owned(),
                title: title.to_owned(),
                label: String::from_str("uncertain"),
                confidence: String::from_str("0.0"),
                evidence: String::new(),
                reason,
            }
        },
    }
}

/// A line piece with its `\r\n` carriage return removed, as line
/// splitting leaves it.
pub open spec fn strip_cr(s: Seq<char>) -> Seq<char> {
    if s.len() > 0 && s[s.len() - 1] == '\r' {
        s.drop_last()
    } else {
        s
    }
}

/// The lines of `s`: pieces split at `\n`, each piece's trailing `\r`
/// removed, a final piece after the last `\n` kept only when non-empty
/// — the way `str::lines` reads text.
pub open spec fn lines_of(s: Seq<char>) -> Seq<Seq<char>>
    decreases s.len(),
    via lines_of_decreases
{
    if s.len() == 0 {
        Seq::<Seq<char>>::empty()
    } else {
        let i = first_index_spec(s, '\n');
        if i == s.len() {
            seq![s]
        } else {
            seq![strip_cr(s.take(i))] + lines_of(s.skip(i + 1))
        }
    }
}

#[via_fn]
proof fn lines_of_decreases(s: Seq<char>) {
    crate::text::lemma_first_index_range(s, '\n');
}

/// Splits text into lines.
fn split_lines(s: &str) -> (r: Vec<String>)
    ensures
        r@.map_values(|x: String| x@) == lines_of(s@),
{
    broadcast use vstd::string::group_string_axioms;

    let n = s.unicode_len();
    let mut out: Vec<String> = Vec::new();
    let mut pos: usize = 0;
    assert(s@.skip(0) =~= s@);
    assert(out@.map_values(|x: String| x@) + lines_of(s@.skip(0)) =~= lines_of(s@));
    while pos < n
        invariant
            n == s@.len(),
            pos <= n,
            lines_of(s@) == out@.map_values(|x: String| x@) + lines_of(s@.skip(pos as int)),
        decreases n - pos,
    {
        let ghost rest = s@.skip(pos as int);
        let mut j: usize = pos;
        while j < n && s.get_char(j) != '\n'
            invariant
                n == s@.len(),
                pos <= j <= n,
                forall|k: int| pos <= k < j ==> s@[k] != '\n',
            decreases n - j,
        {
            j = j + 1;
        }
        proof {
            assert(forall|k: int| 0 <= k < j - pos ==> rest[k] == s@[pos + k]);
            crate::text::lemma_first_index_at(rest, '\n', j - pos);
        }
        let piece_end: usize = if j < n && j > pos && s.get_char(j - 1) == '\r' {
            j - 1
        } else {
            j
        };
        let piece = s.substring_char(pos, piece_end).to_owned();
        let ghost old_out = out@;
        out.push(piece);
        proof {
            if j < n {
                assert(rest[j - pos] == s@[j as int]);
                assert(rest.take(j - pos) =~= s@.subrange(pos as int, j as int));
                assert(strip_cr(rest.take(j - pos)) =~= s@.subrange(
                    pos as int,
                    piece_end as int,
                ));
                assert(rest.skip(j - pos + 1) =~= s@.skip(j + 1));
                assert(lines_of(rest) == seq![strip_cr(rest.take(j - pos))] + lines_of(
                    s@.skip(j + 1),
                ));
            } else {
                assert(rest =~= s@.subrange(pos as int, n as int));
                assert(lines_of(rest) == seq![rest]);
                assert(lines_of(s@.skip(n as int)) == Seq::<Seq<char>>::empty());
            }
            assert(out@.map_values(|x: String| x@) =~= old_out.map_values(|x: String| x@).push(
                s@.subrange(pos as int, piece_end as int),
            ));
            assert(out@.map_values(|x: String| x@) + lines_of(
                s@.skip(if j < n {
                    j + 1
                } else {
                    n as int
                }),
            ) =~= lines_of(s@));
        }
        pos = if j < n {
            j + 1
        } else {
            n
        };
    }
    assert(lines_of(s@.skip(n as int)) =~= Seq::<Seq<char>>::empty());
    assert(out@.map_values(|x: String| x@) =~= lines_of(s@));
    out
}

/// The widest brace-delimited span of `t`: from the first `{` to the
/// last `}` when both exist in that order, else `t` itself.
pub open spec fn brace_extract(t: Seq<char>) -> Seq<char> {
    let a = first_index_spec(t, '{');
    let b = last_index_spec(t, '}');
    if a < t.len() && b >= 0 && a <= b {
        t.subrange(a, b + 1)
    } else {
        t
    }
}

/// The JSON part of a classification response: a fenced code block of
/// two or more lines is unwrapped (dropping an opening ```` ``` ````
/// or ```` ```json ```` line and a closing ```` ``` ```` line), else
/// the widest brace-delimited span of the trimmed text is taken, else
/// the trimmed text stands.
pub open spec fn extract_json_spec(content: Seq<char>) -> Seq<char> {
    let t = trim_seq(content);
    if occurs_at(t, "```"@, 0) && lines_of(t).len() >= 2 {
        let ls = lines_of(t);
        let start: int = if occurs_at(ls[0], "```json"@, 0) || ls[0] == "```"@ {
            1
        } else {
            0
        };
        let end: int = if trim_seq(ls[ls.len() - 1]) == "```"@ {
            ls.len() - 1
        } else {
            ls.len() as int
        };
        join_with(ls.subrange(start, end), "\n"@)
    } else {
        brace_extract(t)
    }
}

/// Frames the JSON part of a classification response, unwrapping a
/// fenced code block or cutting the brace-delimited span out of
/// surrounding prose.
pub fn extract_json(content: &str) -> (r: String)
    ensures
        r@ == extract_json_spec(content@),
{
    proof {
        reveal_strlit("```");
        reveal_strlit("```json");
        reveal_strlit("\n");
    }
    let t = trim_str(content);
    let ts = t.as_str();
    let n = ts.unicode_len();
    if n >= 3 && matches_at(ts, n, "```", 3, 0) {
        let ls = split_lines(ts);
        if ls.len() >= 2 {
            let ghost lviews = ls@.map_values(|x: String| x@);
            let first_line = ls[0].as_str();
            let fn_len = first_line.unicode_len();
            let start: usize = if (fn_len >= 7 && matches_at(first_line, fn_len, "```json", 7, 0))
                || str_eq(first_line, "```") {
                1
            } else {
                0
            };
            let last_trim = trim_str(ls[ls.len() - 1].as_str());
            let end: usize = if str_eq(last_trim.as_str(), "```") {
                ls.len() - 1
            } else {
                ls.len()
            };
            let mut kept: Vec<String> = Vec::new();
            let mut i: usize = start;
            while i < end
                invariant
                    start <= i <= end <= ls@.len(),
                    kept@ =~= ls@.subrange(start as int, i as int),
                decreases end - i,
            {
                kept.push(ls[i].clone());
                assert(kept@ =~= ls@.subrange(start as int, i + 1));
                i = i + 1;
            }
            proof {
                assert(kept@.map_values(|x: String| x@) =~= lviews.subrange(
                    start as int,
                    end as int,
                ));
            }
            return join_strings(&kept, "\n");
        }
        assert(lines_of(ts@).len() < 2);
        return brace_span(ts, n);
    }
    brace_span(ts, n)
}

/// Cuts the widest brace-delimited span out of `t`, or returns `t`
/// whole.
fn brace_span(t: &str, n: usize) -> (r: String)
    requires
        n == t@.len(),
    ensures
        r@ == brace_extract(t@),
{
    let a = find_char(t, '{');
    let b = rfind_char(t, '}');
    match b {
        Some(bi) => {
            if a < n && a <= bi {
                t.substring_char(a, bi + 1).to_owned()
            } else {
                t.to_owned()
            }
        },
        None => t.to_owned(),
    }
}

} // verus!
