//! Venue-ranking lookups: memoizing cache, global rate gate, filters.
//!
//! The ranking source is slow and rate limited, so every venue costs at
//! most one answered request per run: the cache remembers found metrics
//! and known-absent venues alike, while a request that fails in
//! transport caches nothing and stays retryable; outbound requests are
//! spaced a minimum wall-clock interval apart.  The count of answered
//! requests equals the number of distinct venues, proved below.

use crate::decimal::decimal_ge;
use crate::kv::assoc_first;
use crate::kv::keys_distinct;
use crate::kv::lemma_assoc_skip;
use crate::kv::lemma_map_of_assoc;
use crate::kv::lemma_map_of_contains;
use crate::kv::map_of;
use crate::decimal::numeric_filter_passes;
use crate::decimal::opt_str_view;
use crate::decimal::parse_decimal;
use crate::text::has_substring;
use crate::text::str_contains;
use crate::text::str_eq;
use crate::text::trim_seq;
use crate::text::trim_str;
use vstd::prelude::*;

verus! {

broadcast use vstd::set::group_set_axioms;

/// Minimum wall-clock interval between two requests to the ranking
/// source, in milliseconds.
pub const MIN_REQUEST_INTERVAL_MS: u64 = 600;

/// Ranking metrics for one venue; every metric is optional text, kept
/// exactly as the source formats it.
#[derive(Debug, Clone)]
pub struct RankingMetrics {
    /// Impact factor.
    pub sciif: Option<String>,
    /// Journal citation indicator.
    pub jci: Option<String>,
    /// Partition (for instance `"Q1"`).
    pub sci: Option<String>,
    /// Partition variant: top.
    pub sci_up_top: Option<String>,
    /// Partition variant: base.
    pub sci_base: Option<String>,
    /// Partition variant: up.
    pub sci_up: Option<String>,
}

impl Default for RankingMetrics {
    /// Metrics with every field absent.
    fn default() -> (r: RankingMetrics)
        ensures
            r.sciif is None && r.jci is None && r.sci is None,
            r.sci_up_top is None && r.sci_base is None && r.sci_up is None,
    {
        RankingMetrics {
            sciif: None,
            jci: None,
            sci: None,
            sci_up_top: None,
            sci_base: None,
            sci_up: None,
        }
    }
}

/// A copy of an optional string, with its contents pinned.
pub fn opt_string_dup(s: &Option<String>) -> (r: Option<String>)
    ensures
        r == *s,
{
    match s {
        Some(v) => Some(v.clone()),
        None => None,
    }
}

/// A copy of a metrics record, with its contents pinned.
pub fn metrics_dup(m: &RankingMetrics) -> (r: RankingMetrics)
    ensures
        r == *m,
{
    RankingMetrics {
        sciif: opt_string_dup(&m.sciif),
        jci: opt_string_dup(&m.jci),
        sci: opt_string_dup(&m.sci),
        sci_up_top: opt_string_dup(&m.sci_up_top),
        sci_base: opt_string_dup(&m.sci_base),
        sci_up: opt_string_dup(&m.sci_up),
    }
}

/// A copy of an optional metrics record.
pub fn opt_metrics_dup(m: &Option<RankingMetrics>) -> (r: Option<RankingMetrics>)
    ensures
        r == *m,
{
    match m {
        Some(v) => Some(metrics_dup(v)),
        None => None,
    }
}

/// The memoizing, rate-gated client of the ranking source.  It owns the
/// per-venue cache; the I/O driver owns the network and the clock.
pub struct RankingClient {
    secret_key: String,
    entries: Vec<(String, Option<RankingMetrics>)>,
}

/// What a venue lookup must do next.
pub enum RankPlan {
    /// The venue name is blank: resolve to no metrics without touching
    /// the network.
    SkipEmpty,
    /// The cache answers, found or known-absent; no network call.
    Hit(Option<RankingMetrics>),
    /// Not cached: fetch this trimmed venue name, then record the
    /// outcome.
    Fetch(String),
}

/// What one outbound ranking request produced.
pub enum RankFetchOutcome {
    /// The source answered with ranking metrics.
    Found(RankingMetrics),
    /// The source answered definitively that this venue is unranked.
    NotFound,
    /// The request failed in transport or with a server error: nothing
    /// definitive is known, so the venue must stay uncached and a later
    /// record naming it tries again.
    Error,
}

impl RankingClient {
    /// The venue-to-metrics memo: every venue looked up so far, mapped
    /// to its metrics or to the explicit "not found" state.
    pub closed spec fn cache(&self) -> Map<Seq<char>, Option<RankingMetrics>> {
        map_of(self.entries@)
    }

    /// How many outbound requests have been made: one per stored entry.
    pub closed spec fn fetch_count(&self) -> nat {
        self.entries@.len()
    }

    /// The cache's structural invariant: one entry per venue.
    pub closed spec fn wf(&self) -> bool {
        keys_distinct(self.entries@)
    }

    /// The caller's key for the ranking service.
    pub closed spec fn api_key(&self) -> String {
        self.secret_key
    }

    /// The key sent with every outbound request.
    pub fn secret_key(&self) -> (r: &String)
        ensures
            *r == self.api_key(),
    {
        &self.secret_key
    }

    /// How many outbound requests have been made so far.
    pub fn fetches(&self) -> (n: usize)
        ensures
            n == self.fetch_count(),
    {
        self.entries.len()
    }

    /// A fresh client with an empty cache.
    pub fn new(secret_key: String) -> (c: RankingClient)
        ensures
            c.wf(),
            c.cache() == Map::<Seq<char>, Option<RankingMetrics>>::empty(),
            c.fetch_count() == 0,
            c.api_key() == secret_key,
    {
        RankingClient { secret_key, entries: Vec::new() }
    }

    /// The cached result for a venue: `None` when the venue was never
    /// looked up, `Some(found-or-not)` when it was.
    pub fn cached(&self, venue: &str) -> (r: Option<Option<RankingMetrics>>)
        requires
            self.wf(),
        ensures
            r is Some <==> self.cache().contains_key(venue@),
            r is Some ==> r->0 == self.cache()[venue@],
    {
        proof {
            lemma_map_of_assoc(self.entries@, venue@);
        }
        let n = self.entries.len();
        let mut i: usize = 0;
        while i < n
            invariant
                self.wf(),
                n == self.entries@.len(),
                i <= n,
                forall|j: int| 0 <= j < i ==> (#[trigger] self.entries@[j]).0@ != venue@,
            decreases n - i,
        {
            if str_eq(self.entries[i].0.as_str(), venue) {
                proof {
                    lemma_assoc_skip(self.entries@, venue@, i as int);
                    lemma_map_of_assoc(self.entries@, venue@);
                }
                return Some(opt_metrics_dup(&self.entries[i].1));
            }
            i = i + 1;
        }
        proof {
            lemma_assoc_skip(self.entries@, venue@, n as int);
        }
        None
    }

    /// Caches a definitive answer for a venue that was not cached.
    /// Every entry enters the cache through this door, so the count of
    /// answered requests equals the cache's size.
    pub fn store(&mut self, venue: String, result: Option<RankingMetrics>)
        requires
            old(self).wf(),
            !old(self).cache().contains_key(venue@),
        ensures
            final(self).wf(),
            final(self).cache() == old(self).cache().insert(venue@, result),
            final(self).fetch_count() == old(self).fetch_count() + 1,
            final(self).api_key() == old(self).api_key(),
    {
        proof {
            lemma_map_of_contains(self.entries@, venue@);
        }
        self.entries.push((venue, result));
        proof {
            assert(self.entries@.drop_last() =~= old(self).entries@);
        }
    }

    /// Decides what one outbound request's outcome does to the cache:
    /// a definitive answer — metrics or known-absent — is cached, and
    /// a failed request caches nothing, so the venue stays retryable
    /// and a transient failure cannot hide a venue's ranking for the
    /// rest of the run.
    pub fn record_fetch(&mut self, venue: String, outcome: RankFetchOutcome)
        requires
            old(self).wf(),
            !old(self).cache().contains_key(venue@),
        ensures
            final(self).wf(),
            final(self).api_key() == old(self).api_key(),
            match outcome {
                RankFetchOutcome::Found(m) => final(self).cache() == old(self).cache().insert(
                    venue@,
                    Some(m),
                ) && final(self).fetch_count() == old(self).fetch_count() + 1,
                RankFetchOutcome::NotFound => final(self).cache() == old(self).cache().insert(
                    venue@,
                    None,
                ) && final(self).fetch_count() == old(self).fetch_count() + 1,
                RankFetchOutcome::Error => *final(self) == *old(self),
            },
    {
        match outcome {
            RankFetchOutcome::Found(m) => self.store(venue, Some(m)),
            RankFetchOutcome::NotFound => self.store(venue, None),
            RankFetchOutcome::Error => {},
        }
    }

    /// Decides a venue lookup from the cache alone: blank venues resolve
    /// to nothing, a cached venue answers at once, and only an unknown
    /// venue requires the network.
    pub fn get_rank_plan(&self, venue: &str) -> (p: RankPlan)
        requires
            self.wf(),
        ensures
            match p {
                RankPlan::SkipEmpty => trim_seq(venue@).len() == 0,
                RankPlan::Hit(m) => trim_seq(venue@).len() > 0 && self.cache().contains_key(
                    trim_seq(venue@),
                ) && m == self.cache()[trim_seq(venue@)],
                RankPlan::Fetch(t) => trim_seq(venue@).len() > 0 && t@ == trim_seq(venue@)
                    && !self.cache().contains_key(trim_seq(venue@)),
            },
    {
        let trimmed = trim_str(venue);
        if trimmed.as_str().is_empty() {
            return RankPlan::SkipEmpty;
        }
        match self.cached(trimmed.as_str()) {
            Some(m) => RankPlan::Hit(m),
            None => RankPlan::Fetch(trimmed),
        }
    }

    /// The metric stored under a metric key, as the filters read it.
    pub fn get_metric(metrics: &RankingMetrics, key: &str) -> (r: Option<String>)
        ensures
            r == metric_of(metrics, key@),
    {
        if str_eq(key, "sciif") {
            opt_string_dup(&metrics.sciif)
        } else if str_eq(key, "jci") {
            opt_string_dup(&metrics.jci)
        } else if str_eq(key, "sci") {
            opt_string_dup(&metrics.sci)
        } else if str_eq(key, "sciUpTop") {
            opt_string_dup(&metrics.sci_up_top)
        } else if str_eq(key, "sciBase") {
            opt_string_dup(&metrics.sci_base)
        } else if str_eq(key, "sciUp") {
            opt_string_dup(&metrics.sci_up)
        } else {
            None
        }
    }

    /// Whether a metric value passes a minimum-threshold numeric filter:
    /// absent or non-numeric values never pass.
    pub fn passes_numeric_filter(value: Option<&str>, threshold: &str) -> (r: bool)
        ensures
            r == numeric_filter_passes(opt_str_view(value), threshold@),
    {
        match value {
            None => false,
            Some(v) => {
                match (parse_decimal(v), parse_decimal(threshold)) {
                    (Some(a), Some(b)) => decimal_ge(&a, &b),
                    _ => false,
                }
            },
        }
    }

    /// Whether a metric value passes a substring filter: absent values
    /// never pass.
    pub fn passes_string_filter(value: Option<&str>, pattern: &str) -> (r: bool)
        ensures
            r == string_filter_passes(opt_str_view(value), pattern@),
    {
        match value {
            None => false,
            Some(v) => str_contains(v, pattern),
        }
    }
}

/// The substring filter: the value is present and contains the pattern.
pub open spec fn string_filter_passes(value: Option<Seq<char>>, pattern: Seq<char>) -> bool {
    value is Some && has_substring(value->0, pattern)
}

/// The metric a key selects.
pub open spec fn metric_of(m: &RankingMetrics, key: Seq<char>) -> Option<String> {
    if key == "sciif"@ {
        m.sciif
    } else if key == "jci"@ {
        m.jci
    } else if key == "sci"@ {
        m.sci
    } else if key == "sciUpTop"@ {
        m.sci_up_top
    } else if key == "sciBase"@ {
        m.sci_base
    } else if key == "sciUp"@ {
        m.sci_up
    } else {
        None
    }
}

/// The wait the rate gate imposes before the next outbound request:
/// the full minimum interval when the last request was less than the
/// interval ago, nothing otherwise.
pub fn gate_wait_ms(last_request_ms: Option<u64>, now_ms: u64) -> (wait: u64)
    requires
        last_request_ms is Some ==> last_request_ms->0 <= now_ms,
    ensures
        wait == (if last_request_ms is Some && now_ms - last_request_ms->0
            < MIN_REQUEST_INTERVAL_MS {
            MIN_REQUEST_INTERVAL_MS as u64
        } else {
            0u64
        }),
{
    match last_request_ms {
        Some(last) => {
            if now_ms - last < MIN_REQUEST_INTERVAL_MS {
                MIN_REQUEST_INTERVAL_MS
            } else {
                0
            }
        },
        None => 0,
    }
}

/// The first value found under `key`, searching the preferred entries
/// before the fallback entries; an explicitly null value in the
/// preferred entries is final and hides the fallback.
pub fn get_value(
    preferred: &Vec<(String, Option<String>)>,
    fallback: &Vec<(String, Option<String>)>,
    key: &str,
) -> (r: Option<String>)
    ensures
        r == get_value_spec(preferred@, fallback@, key@),
{
    match assoc_lookup(preferred, key) {
        Some(v) => v,
        None => match assoc_lookup(fallback, key) {
            Some(v) => v,
            None => None,
        },
    }
}

/// The union rule of `get_value`: the preferred list answers if it has
/// the key at all, else the fallback list, else nothing.
pub open spec fn get_value_spec(
    preferred: Seq<(String, Option<String>)>,
    fallback: Seq<(String, Option<String>)>,
    key: Seq<char>,
) -> Option<String> {
    match assoc_first(preferred, key) {
        Some(v) => v,
        None => match assoc_first(fallback, key) {
            Some(v) => v,
            None => None,
        },
    }
}

/// Looks a key up in an entry list, first match winning.
fn assoc_lookup(es: &Vec<(String, Option<String>)>, key: &str) -> (r: Option<Option<String>>)
    ensures
        r == assoc_first(es@, key@),
{
    let n = es.len();
    let mut i: usize = 0;
    while i < n
        invariant
            n == es@.len(),
            i <= n,
            forall|j: int| 0 <= j < i ==> (#[trigger] es@[j]).0@ != key@,
        decreases n - i,
    {
        if str_eq(es[i].0.as_str(), key) {
            proof {
                lemma_assoc_skip(es@, key@, i as int);
            }
            return Some(opt_string_dup(&es[i].1));
        }
        i = i + 1;
    }
    proof {
        lemma_assoc_skip(es@, key@, n as int);
    }
    None
}

/// Builds one metrics record from a response's preferred and fallback
/// entry lists, reading the six published metric keys.
pub fn extract_metrics(
    preferred: &Vec<(String, Option<String>)>,
    fallback: &Vec<(String, Option<String>)>,
) -> (m: RankingMetrics)
    ensures
        m.sciif == get_value_spec(preferred@, fallback@, "sciif"@),
        m.jci == get_value_spec(preferred@, fallback@, "jci"@),
        m.sci == get_value_spec(preferred@, fallback@, "sci"@),
        m.sci_up_top == get_value_spec(preferred@, fallback@, "sciUpTop"@),
        m.sci_base == get_value_spec(preferred@, fallback@, "sciBase"@),
        m.sci_up == get_value_spec(preferred@, fallback@, "sciUp"@),
{
    RankingMetrics {
        sciif: get_value(preferred, fallback, "sciif"),
        jci: get_value(preferred, fallback, "jci"),
        sci: get_value(preferred, fallback, "sci"),
        sci_up_top: get_value(preferred, fallback, "sciUpTop"),
        sci_base: get_value(preferred, fallback, "sciBase"),
        sci_up: get_value(preferred, fallback, "sciUp"),
    }
}

/// One run of the rate gate over a venue sequence: starting from the
/// venues already cached, each venue in turn either hits the cache or
/// costs exactly one outbound request and enters the cache.
pub open spec fn gate_run(cached: Set<Seq<char>>, keys: Seq<Seq<char>>) -> (Set<Seq<char>>, nat)
    decreases keys.len(),
{
    if keys.len() == 0 {
        (cached, 0)
    } else {
        let cached1 = if cached.contains(keys[0]) {
            cached
        } else {
            cached.insert(keys[0])
        };
        let rest = gate_run(cached1, keys.skip(1));
        (
            rest.0,
            (rest.1 + if cached.contains(keys[0]) {
                0int
            } else {
                1int
            }) as nat,
        )
    }
}

proof fn lemma_gate_run_counts(cached: Set<Seq<char>>, keys: Seq<Seq<char>>)
    requires
        cached.finite(),
    ensures
        gate_run(cached, keys).0 == cached.union(keys.to_set()),
        gate_run(cached, keys).1 == keys.to_set().difference(cached).len(),
    decreases keys.len(),
{
    broadcast use vstd::seq_lib::group_seq_lib_default;

    if keys.len() == 0 {
        assert(cached.union(keys.to_set()) =~= cached);
        assert(keys.to_set().difference(cached) =~= Set::empty());
    } else {
        let k = keys[0];
        let rest = keys.skip(1);
        assert forall|a: Seq<char>| keys.to_set().contains(a) implies rest.to_set().insert(
            k,
        ).contains(a) by {
            let j = choose|j: int| 0 <= j < keys.len() && keys[j] == a;
            if j > 0 {
                assert(rest[j - 1] == a);
            }
        }
        assert forall|a: Seq<char>| rest.to_set().insert(k).contains(a) implies
            keys.to_set().contains(a) by {
            if a == k {
                assert(keys[0] == a);
            } else {
                let j = choose|j: int| 0 <= j < rest.len() && rest[j] == a;
                assert(keys[j + 1] == a);
            }
        }
        assert(keys.to_set() =~= rest.to_set().insert(k));
        if cached.contains(k) {
            lemma_gate_run_counts(cached, rest);
            assert(cached.union(keys.to_set()) =~= cached.union(rest.to_set()));
            assert(keys.to_set().difference(cached) =~= rest.to_set().difference(cached));
        } else {
            let cached1 = cached.insert(k);
            lemma_gate_run_counts(cached1, rest);
            assert(cached.union(keys.to_set()) =~= cached1.union(rest.to_set()));
            let d1 = rest.to_set().difference(cached1);
            assert(keys.to_set().difference(cached) =~= d1.insert(k));
            assert(!d1.contains(k));
            assert(d1.finite());
            assert(d1.insert(k).len() == d1.len() + 1);
        }
    }
}

/// Cache correctness: over any venue sequence, the rate gate makes
/// exactly one outbound request per distinct venue — duplicates are
/// answered from the cache, whatever each request returned.
pub proof fn lemma_fetches_equal_distinct_keys(keys: Seq<Seq<char>>)
    ensures
        gate_run(Set::empty(), keys).1 == keys.to_set().len(),
{
    lemma_gate_run_counts(Set::empty(), keys);
    assert(keys.to_set().difference(Set::empty()) =~= keys.to_set());
}

} // verus!
