//! Search-page querying support: URLs, cookies, result records.
//!
//! The page fetch and the CSS extraction of hits are the I/O driver's
//! work; what is verified here is the request that gets sent — the
//! form-encoded search URL and the cookie header — and the record type
//! the extraction fills.

use crate::cookies::Cookie;
use crate::text::has_substring;
use crate::text::i64_to_string;
use crate::text::int_str;
use crate::text::join_strings;
use crate::text::join_with;
use crate::text::push_char;
use vstd::prelude::*;

use vstd::string::StringExecFns;
use vstd::string::StringSliceAdditionalSpecFns;

verus! {

/// The search site queried by default.
pub const DEFAULT_SCHOLAR_URL: &'static str = "https://scholar.google.com";

/// One hit extracted from a search-results page.
#[derive(Debug, Clone)]
pub struct ScholarResult {
    pub title: String,
    pub author: String,
    pub year: String,
    pub venue: String,
    pub article_url: String,
    pub citations: String,
    pub snippet: String,
}

/// Options of one search run.
#[derive(Debug, Clone)]
pub struct QueryOptions {
    /// Proxy URL, if any.
    pub proxy: Option<String>,
    /// Page numbers to fetch, 1-indexed.
    pub pages: Vec<i32>,
    /// Source data type filter.
    pub sdt: String,
    /// Keep only results from this year onwards.
    pub ylo: Option<i32>,
    /// Mirror site URL, if any.
    pub base_url: Option<String>,
    /// All results per page, or only the first.
    pub all_results: bool,
}

impl Default for QueryOptions {
    /// One page, articles only, every result kept.
    fn default() -> (r: QueryOptions)
        ensures
            r.proxy is None,
            r.pages@ == seq![1i32],
            r.sdt@ == "0,5"@,
            r.ylo is None,
            r.base_url is None,
            r.all_results,
    {
        let mut pages: Vec<i32> = Vec::new();
        pages.push(1);
        assert(pages@ =~= seq![1i32]);
        QueryOptions {
            proxy: None,
            pages,
            sdt: String::from_str("0,5"),
            ylo: None,
            base_url: None,
            all_results: true,
        }
    }
}

/// A byte kept verbatim by form encoding: alphanumerics and `*-._`.
pub open spec fn form_safe(b: u8) -> bool {
    (48 <= b <= 57) || (65 <= b <= 90) || (97 <= b <= 122) || b == 42 || b == 45 || b == 46 || b
        == 95
}

/// The uppercase hexadecimal digit for a value below sixteen.
pub open spec fn hex_digit(d: u8) -> char {
    if d < 10 {
        (48 + d) as char
    } else {
        (55 + d) as char
    }
}

/// Form encoding of a byte sequence: safe bytes stand, a space becomes
/// `+`, every other byte becomes `%` and two uppercase hex digits.
pub open spec fn form_enc(bs: Seq<u8>) -> Seq<char>
    decreases bs.len(),
{
    if bs.len() == 0 {
        Seq::<char>::empty()
    } else {
        let b = bs[0];
        (if form_safe(b) {
            seq![b as char]
        } else if b == 32 {
            seq!['+']
        } else {
            seq!['%', hex_digit(b / 16), hex_digit(b % 16)]
        }) + form_enc(bs.drop_first())
    }
}

/// Form-encodes text, byte by byte of its UTF-8 form.
pub fn form_urlencode(s: &str) -> (r: String)
    ensures
        r@ == form_enc(s.spec_bytes()),
{
    let bs = s.as_bytes();
    let n = bs.len();
    let mut out = String::new();
    let mut i: usize = 0;
    assert(s.spec_bytes().skip(0) =~= s.spec_bytes());
    assert(Seq::<char>::empty() + form_enc(s.spec_bytes()) =~= form_enc(s.spec_bytes()));
    while i < n
        invariant
            bs@ == s.spec_bytes(),
            n == bs@.len(),
            i <= n,
            form_enc(s.spec_bytes()) == out@ + form_enc(s.spec_bytes().skip(i as int)),
        decreases n - i,
    {
        let ghost rest = s.spec_bytes().skip(i as int);
        proof {
            assert(rest[0] == bs@[i as int]);
            assert(rest.drop_first() =~= s.spec_bytes().skip(i + 1));
        }
        let b = bs[i];
        let ghost prev = out@;
        if (48 <= b && b <= 57) || (65 <= b && b <= 90) || (97 <= b && b <= 122) || b == 42 || b
            == 45 || b == 46 || b == 95 {
            push_char(&mut out, b as char);
            assert(out@ =~= prev + seq![b as char]);
        } else if b == 32 {
            push_char(&mut out, '+');
            assert(out@ =~= prev + seq!['+']);
        } else {
            push_char(&mut out, '%');
            let hi = b / 16;
            let lo = b % 16;
            let hc: char = if hi < 10 {
                (48 + hi) as char
            } else {
                (55 + hi) as char
            };
            let lc: char = if lo < 10 {
                (48 + lo) as char
            } else {
                (55 + lo) as char
            };
            push_char(&mut out, hc);
            push_char(&mut out, lc);
            assert(out@ =~= prev + seq!['%', hex_digit(b / 16), hex_digit(b % 16)]);
        }
        proof {
            assert(out@ + form_enc(s.spec_bytes().skip(i + 1)) =~= prev + form_enc(rest));
        }
        i = i + 1;
    }
    assert(form_enc(s.spec_bytes().skip(n as int)) =~= Seq::<char>::empty());
    assert(out@ + Seq::<char>::empty() =~= out@);
    out
}

/// The search URL a query denotes.
pub open spec fn search_url_spec(
    base_url: Seq<char>,
    query: Seq<u8>,
    start: int,
    sdt: Seq<u8>,
    ylo: Option<i32>,
) -> Seq<char> {
    base_url + "/scholar?q="@ + form_enc(query) + "&hl=en-US&start="@ + int_str(start) + "&as_sdt="@
        + form_enc(sdt) + (if ylo is Some {
        "&as_ylo="@ + int_str(ylo->0 as int)
    } else {
        Seq::<char>::empty()
    })
}

/// Builds the search URL: the query and the source-type filter are
/// form-encoded, the locale is pinned for stable extraction, and the
/// optional year floor is appended last.
pub fn build_search_url(base_url: &str, query: &str, start: i32, sdt: &str, ylo: Option<i32>) -> (r:
    String)
    ensures
        r@ == search_url_spec(base_url@, query.spec_bytes(), start as int, sdt.spec_bytes(), ylo),
{
    let mut out: String = base_url.to_owned();
    out.append("/scholar?q=");
    let q = form_urlencode(query);
    out.append(q.as_str());
    out.append("&hl=en-US&start=");
    let st = i64_to_string(start as i64);
    out.append(st.as_str());
    out.append("&as_sdt=");
    let sd = form_urlencode(sdt);
    out.append(sd.as_str());
    match ylo {
        Some(y) => {
            out.append("&as_ylo=");
            let ys = i64_to_string(y as i64);
            out.append(ys.as_str());
            assert(out@ =~= search_url_spec(
                base_url@,
                query.spec_bytes(),
                start as int,
                sdt.spec_bytes(),
                ylo,
            ));
        },
        None => {
            assert(out@ =~= search_url_spec(
                base_url@,
                query.spec_bytes(),
                start as int,
                sdt.spec_bytes(),
                ylo,
            ));
        },
    }
    out
}

/// The cookie header a cookie list denotes: the cookies whose domain
/// mentions the search site, rendered `name=value` and joined with
/// `"; "`.
pub open spec fn cookie_header_spec(cookies: Seq<Cookie>) -> Seq<char> {
    join_with(
        cookies.filter(|c: Cookie| has_substring(c.domain@, "google"@)).map_values(
            |c: Cookie| c.name@ + "="@ + c.value@,
        ),
        "; "@,
    )
}

/// Renders the cookie header sent with every page request.
pub fn build_cookie_header(cookies: &Vec<Cookie>) -> (r: String)
    ensures
        r@ == cookie_header_spec(cookies@),
{
    proof {
        reveal_strlit("google");
        reveal_strlit("=");
        reveal_strlit("; ");
    }
    let mut parts: Vec<String> = Vec::new();
    let mut i: usize = 0;
    while i < cookies.len()
        invariant
            i <= cookies@.len(),
            parts@.map_values(|s: String| s@) == cookies@.take(i as int).filter(
                |c: Cookie| has_substring(c.domain@, "google"@),
            ).map_values(|c: Cookie| c.name@ + "="@ + c.value@),
        decreases cookies@.len() - i,
    {
        let ghost prefix = cookies@.take(i as int);
        let ghost pred = |c: Cookie| has_substring(c.domain@, "google"@);
        assert(cookies@.take(i + 1).drop_last() =~= prefix);
        proof {
            reveal_with_fuel(Seq::filter, 2);
            assert(cookies@.take(i + 1).last() == cookies@[i as int]);
        }
        let c = &cookies[i];
        if crate::text::str_contains(c.domain.as_str(), "google") {
            let mut part = c.name.clone();
            part.append("=");
            part.append(c.value.as_str());
            let ghost old_parts = parts@;
            parts.push(part);
            proof {
                assert(parts@.map_values(|s: String| s@) =~= old_parts.map_values(
                    |s: String| s@,
                ).push(c.name@ + "="@ + c.value@));
                assert(cookies@.take(i + 1).filter(pred) =~= prefix.filter(pred).push(
                    cookies@[i as int],
                ));
                assert(cookies@.take(i + 1).filter(pred).map_values(
                    |c: Cookie| c.name@ + "="@ + c.value@,
                ) =~= prefix.filter(pred).map_values(|c: Cookie| c.name@ + "="@ + c.value@).push(
                    c.name@ + "="@ + c.value@,
                ));
            }
        } else {
            proof {
                assert(cookies@.take(i + 1).filter(pred) =~= prefix.filter(pred));
            }
        }
        i = i + 1;
    }
    assert(cookies@.take(cookies@.len() as int) =~= cookies@);
    join_strings(&parts, "; ")
}

} // verus!
