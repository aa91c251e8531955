//! Cookie bookkeeping for the search-page session.
//!
//! The manager knows where the cookie file lives and how a loaded
//! cookie list condenses into a name-to-value map; reading and writing
//! the file itself is the I/O driver's work.

use crate::error::GscholarError;
use crate::kv::keys_distinct;
use crate::kv::lemma_map_of_contains;
use crate::kv::map_of;
use crate::text::str_eq;
use vstd::prelude::*;

use vstd::string::StringExecFns;

verus! {

/// One stored cookie.  Expiry is the I/O driver's concern and is not
/// carried here.
#[derive(Debug, Clone)]
pub struct Cookie {
    pub name: String,
    pub value: String,
    pub domain: String,
    pub path: String,
    pub secure: bool,
    pub http_only: bool,
}

/// Knows where cookies are stored.
#[derive(Debug, Clone)]
pub struct CookieManager {
    path: String,
}

/// The file name the default cookie path ends with.
pub open spec fn cookie_file_suffix() -> Seq<char> {
    "/.gscholar_cookies.json"@
}

/// The user's home directory as text, if the platform knows one.
///
/// Relies on `dirs::home_dir`: the result depends on the environment,
/// so nothing is assumed of it.
#[verifier::external_body]
fn home_dir_string() -> (r: Option<String>) {
    dirs::home_dir().map(|p| p.to_string_lossy().into_owned())
}

/// The name-to-value map a cookie list condenses to, a later cookie
/// overriding an earlier one of the same name.
pub open spec fn cookie_map(cs: Seq<Cookie>) -> Map<Seq<char>, Seq<char>>
    decreases cs.len(),
{
    if cs.len() == 0 {
        Map::empty()
    } else {
        cookie_map(cs.drop_last()).insert(cs.last().name@, cs.last().value@)
    }
}

/// The map view of a name-value entry list.
pub open spec fn entry_map(es: Seq<(String, String)>) -> Map<Seq<char>, Seq<char>> {
    map_of(es).map_values(|v: String| v@)
}

impl CookieManager {
    /// Where the cookie file lives.
    pub closed spec fn path_spec(&self) -> Seq<char> {
        self.path@
    }

    /// A manager on the default path under the user's home directory;
    /// fails only when the platform knows no home directory.
    pub fn new() -> (r: Result<CookieManager, GscholarError>)
        ensures
            match r {
                Ok(m) => m.path_spec().len() >= cookie_file_suffix().len() && m.path_spec().skip(
                    m.path_spec().len() - cookie_file_suffix().len(),
                ) == cookie_file_suffix(),
                Err(e) => e is Config,
            },
    {
        proof {
            reveal_strlit("/.gscholar_cookies.json");
        }
        match home_dir_string() {
            Some(home) => {
                let mut path = home;
                path.append("/.gscholar_cookies.json");
                let ghost p = path@;
                proof {
                    assert(p.skip(p.len() - cookie_file_suffix().len()) =~= cookie_file_suffix());
                }
                Ok(CookieManager { path })
            },
            None => Err(
                GscholarError::Config(String::from_str("Cannot determine home directory")),
            ),
        }
    }

    /// A manager on a caller-chosen path.
    pub fn with_path(path: String) -> (r: CookieManager)
        ensures
            r.path_spec() == path@,
    {
        CookieManager { path }
    }

    /// The cookie file path.
    pub fn path(&self) -> (r: &String)
        ensures
            r@ == self.path_spec(),
    {
        &self.path
    }

    /// Condenses a loaded cookie list into name-value entries: one
    /// entry per name, the last cookie of each name winning, as a map
    /// built front to back reads.
    pub fn load_as_map(&self, cookies: &Vec<Cookie>) -> (r: Vec<(String, String)>)
        ensures
            keys_distinct(r@),
            entry_map(r@) == cookie_map(cookies@),
    {
        let mut r: Vec<(String, String)> = Vec::new();
        let mut i: usize = 0;
        assert(entry_map(r@) =~= cookie_map(cookies@.take(0)));
        while i < cookies.len()
            invariant
                i <= cookies@.len(),
                keys_distinct(r@),
                entry_map(r@) == cookie_map(cookies@.take(i as int)),
            decreases cookies@.len() - i,
        {
            let c = &cookies[i];
            assert(cookies@.take(i + 1).drop_last() =~= cookies@.take(i as int));
            let ghost before = r@;
            let mut j: usize = 0;
            let n = r.len();
            let mut replaced = false;
            while j < n
                invariant
                    n == r@.len(),
                    j <= n,
                    r@.len() == before.len(),
                    !replaced ==> r@ == before,
                    !replaced ==> forall|q: int| 0 <= q < j ==> (#[trigger] r@[q]).0@ != c.name@,
                    replaced ==> exists|q: int|
                        0 <= q < j && (#[trigger] before[q]).0@ == c.name@ && r@ == before.update(
                            q,
                            (before[q].0, c.value),
                        ),
                decreases n - j,
            {
                if !replaced && str_eq(r[j].0.as_str(), c.name.as_str()) {
                    let ghost qj = j as int;
                    r[j].1 = c.value.clone();
                    replaced = true;
                    proof {
                        assert(r@ == before.update(qj, (before[qj].0, c.value)));
                    }
                }
                j = j + 1;
            }
            if !replaced {
                r.push((c.name.clone(), c.value.clone()));
                proof {
                    lemma_map_of_contains(before, c.name@);
                    assert(r@.drop_last() =~= before);
                    assert(entry_map(r@) =~= cookie_map(cookies@.take(i + 1)));
                }
            } else {
                proof {
                    let q = choose|q: int|
                        0 <= q < before.len() && (#[trigger] before[q]).0@ == c.name@ && r@
                            == before.update(q, (before[q].0, c.value));
                    lemma_entry_map_update(before, q, c.value);
                    assert(entry_map(r@) =~= cookie_map(cookies@.take(i + 1)));
                }
            }
            i = i + 1;
        }
        assert(cookies@.take(cookies@.len() as int) =~= cookies@);
        r
    }
}

proof fn lemma_map_of_update(es: Seq<(String, String)>, q: int, v: String)
    requires
        keys_distinct(es),
        0 <= q < es.len(),
    ensures
        keys_distinct(es.update(q, (es[q].0, v))),
        map_of(es.update(q, (es[q].0, v))) == map_of(es).insert(es[q].0@, v),
    decreases es.len(),
{
    let k = es[q].0@;
    let up = es.update(q, (es[q].0, v));
    assert(keys_distinct(up)) by {
        assert(forall|a: int, b: int|
            0 <= a < b < up.len() ==> (#[trigger] up[a]).0@ == es[a].0@ && (#[trigger] up[b]).0@
                == es[b].0@);
    }
    if q == es.len() - 1 {
        assert(up.drop_last() =~= es.drop_last());
        assert(map_of(up) =~= map_of(es).insert(k, v));
    } else {
        let pe = es.drop_last();
        assert(up.drop_last() =~= pe.update(q, (pe[q].0, v)));
        assert(keys_distinct(pe)) by {
            assert(forall|a: int, b: int|
                0 <= a < b < pe.len() ==> (#[trigger] pe[a]).0@ == es[a].0@ && (#[trigger] pe[b]).0@
                    == es[b].0@);
        }
        lemma_map_of_update(pe, q, v);
        assert(es.last().0@ != k);
        assert(up.last() == es.last());
        assert(map_of(up) =~= map_of(es).insert(k, v));
    }
}

proof fn lemma_entry_map_update(es: Seq<(String, String)>, q: int, v: String)
    requires
        keys_distinct(es),
        0 <= q < es.len(),
    ensures
        keys_distinct(es.update(q, (es[q].0, v))),
        entry_map(es.update(q, (es[q].0, v))) == entry_map(es).insert(es[q].0@, v@),
{
    lemma_map_of_update(es, q, v);
    assert(entry_map(es.update(q, (es[q].0, v))) =~= entry_map(es).insert(es[q].0@, v@));
}

} // verus!
