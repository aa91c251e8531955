//! Verified text utilities shared by all adapters.
//!
//! Everything here is defined over `Seq<char>` views: ASCII lowercasing,
//! substring search, sequential find-and-replace, whitespace trimming,
//! decimal rendering of integers, and decimal parsing of integers.

use vstd::prelude::*;

use vstd::string::StrSliceExecFns;
use vstd::string::StringExecFns;

verus! {

/// Appends one character to a string.
///
/// Relies on `String::push` from std: appends the given character to the
/// end of the string.
#[verifier::external_body]
pub fn push_char(s: &mut String, c: char)
    ensures
        final(s)@ == old(s)@.push(c),
{
    s.push(c)
}

/// ASCII lowercase of one character: `'A'..='Z'` map to `'a'..='z'`,
/// every other character is unchanged.
pub open spec fn lower_char_spec(c: char) -> char {
    if 'A' <= c && c <= 'Z' {
        ((c as u32) + 32) as char
    } else {
        c
    }
}

/// ASCII lowercase of a character sequence, character by character.
pub open spec fn lower_seq(s: Seq<char>) -> Seq<char> {
    s.map_values(|c: char| lower_char_spec(c))
}

/// ASCII lowercase of one character.
pub fn lower_char(c: char) -> (r: char)
    ensures
        r == lower_char_spec(c),
{
    let u = c as u32;
    if 65 <= u && u <= 90 {
        ((u + 32) as u8) as char
    } else {
        c
    }
}

/// ASCII lowercase of a string.
pub fn to_ascii_lowercase(s: &str) -> (r: String)
    ensures
        r@ == lower_seq(s@),
{
    let n = s.unicode_len();
    let mut out = String::new();
    let mut i: usize = 0;
    while i < n
        invariant
            n == s@.len(),
            i <= n,
            out@ == lower_seq(s@.take(i as int)),
        decreases n - i,
    {
        let c = lower_char(s.get_char(i));
        push_char(&mut out, c);
        i = i + 1;
        assert(out@ =~= lower_seq(s@.take(i as int)));
    }
    assert(s@.take(n as int) =~= s@);
    out
}

/// Whether the strings hold the same characters.
pub fn str_eq(a: &str, b: &str) -> (r: bool)
    ensures
        r == (a@ == b@),
{
    let sa: String = a.to_owned();
    let sb: String = b.to_owned();
    sa == sb
}

/// The characters of `needle` occur in `hay` starting at position `i`.
pub open spec fn occurs_at(hay: Seq<char>, needle: Seq<char>, i: int) -> bool {
    0 <= i && i + needle.len() <= hay.len() && hay.subrange(i, i + needle.len()) == needle
}

/// `needle` occurs somewhere in `hay`.
pub open spec fn has_substring(hay: Seq<char>, needle: Seq<char>) -> bool {
    exists|i: int| occurs_at(hay, needle, i)
}

/// Whether `needle` occurs in `hay` starting at position `i`.
pub fn matches_at(hay: &str, hay_len: usize, needle: &str, needle_len: usize, i: usize) -> (r:
    bool)
    requires
        hay_len == hay@.len(),
        needle_len == needle@.len(),
        i + needle_len <= hay_len,
    ensures
        r == occurs_at(hay@, needle@, i as int),
{
    let mut j: usize = 0;
    while j < needle_len
        invariant
            hay_len == hay@.len(),
            needle_len == needle@.len(),
            i + needle_len <= hay_len,
            j <= needle_len,
            forall|k: int| 0 <= k < j ==> hay@[i + k] == needle@[k],
        decreases needle_len - j,
    {
        if hay.get_char(i + j) != needle.get_char(j) {
            assert(hay@.subrange(i as int, i + needle@.len())[j as int] != needle@[j as int]);
            return false;
        }
        j = j + 1;
    }
    assert(hay@.subrange(i as int, i + needle@.len()) =~= needle@);
    true
}

/// Substring search: whether `needle` occurs anywhere in `hay`.
pub fn str_contains(hay: &str, needle: &str) -> (r: bool)
    ensures
        r == has_substring(hay@, needle@),
{
    let n = hay.unicode_len();
    let m = needle.unicode_len();
    if m > n {
        assert(forall|i: int| !occurs_at(hay@, needle@, i));
        return false;
    }
    if m == 0 {
        assert(occurs_at(hay@, needle@, 0)) by {
            assert(hay@.subrange(0, 0) =~= needle@);
        }
        return true;
    }
    let mut i: usize = 0;
    while i <= n - m
        invariant
            n == hay@.len(),
            m == needle@.len(),
            0 < m <= n,
            i <= n - m + 1,
            forall|k: int| 0 <= k < i ==> !occurs_at(hay@, needle@, k),
        decreases n - i,
    {
        if matches_at(hay, n, needle, m, i) {
            return true;
        }
        i = i + 1;
    }
    assert(forall|k: int| i <= k ==> !occurs_at(hay@, needle@, k));
    false
}

/// Left-to-right, non-overlapping replacement of `needle` by `repl`,
/// the way `str::replace` works for a non-empty pattern: at each
/// position, if the remaining text starts with `needle` the match is
/// consumed and `repl` emitted, else one character is kept.
pub open spec fn replace_seq(hay: Seq<char>, needle: Seq<char>, repl: Seq<char>) -> Seq<char>
    recommends
        needle.len() > 0,
    decreases hay.len(),
{
    if hay.len() < needle.len() || needle.len() == 0 {
        hay
    } else if hay.subrange(0, needle.len() as int) == needle {
        repl + replace_seq(hay.skip(needle.len() as int), needle, repl)
    } else {
        seq![hay[0]] + replace_seq(hay.skip(1), needle, repl)
    }
}

/// Replaces every non-overlapping occurrence of `needle` in `hay` by `repl`.
pub fn replace_all(hay: &str, needle: &str, repl: &str) -> (r: String)
    requires
        needle@.len() > 0,
    ensures
        r@ == replace_seq(hay@, needle@, repl@),
{
    let n = hay.unicode_len();
    let m = needle.unicode_len();
    let mut out = String::new();
    let mut i: usize = 0;
    assert(hay@.skip(0) =~= hay@);
    assert(Seq::<char>::empty() + replace_seq(hay@, needle@, repl@) =~= replace_seq(
        hay@,
        needle@,
        repl@,
    ));
    while i < n
        invariant
            n == hay@.len(),
            m == needle@.len(),
            m > 0,
            i <= n,
            replace_seq(hay@, needle@, repl@) == out@ + replace_seq(
                hay@.skip(i as int),
                needle@,
                repl@,
            ),
        decreases n - i,
    {
        let ghost rest = hay@.skip(i as int);
        if m <= n - i && matches_at(hay, n, needle, m, i) {
            assert(rest.subrange(0, m as int) =~= hay@.subrange(i as int, i + m as int));
            assert(rest.skip(m as int) =~= hay@.skip(i + m));
            out.append(repl);
            i = i + m;
        } else {
            let ghost prev = out@;
            proof {
                if i + m <= n {
                    assert(rest.subrange(0, m as int) =~= hay@.subrange(i as int, i + m as int));
                }
                assert(rest.skip(1) =~= hay@.skip(i + 1));
                if rest.len() < m {
                    assert(rest =~= seq![rest[0]] + rest.skip(1));
                }
                assert(replace_seq(rest, needle@, repl@) == seq![rest[0]] + replace_seq(
                    hay@.skip(i + 1),
                    needle@,
                    repl@,
                ));
            }
            push_char(&mut out, hay.get_char(i));
            proof {
                assert(out@ + replace_seq(hay@.skip(i + 1), needle@, repl@) =~= prev + (seq![
                    rest[0],
                ] + replace_seq(hay@.skip(i + 1), needle@, repl@)));
            }
            i = i + 1;
        }
    }
    assert(hay@.skip(n as int) =~= Seq::<char>::empty());
    assert(replace_seq(Seq::<char>::empty(), needle@, repl@) =~= Seq::<char>::empty());
    assert(out@ + Seq::<char>::empty() =~= out@);
    out
}

/// ASCII whitespace, the characters `str::trim` removes for plain text.
pub open spec fn is_ws(c: char) -> bool {
    c == ' ' || c == '\t' || c == '\n' || c == '\r'
}

/// The sequence with leading whitespace removed.
pub open spec fn trim_start_seq(s: Seq<char>) -> Seq<char>
    decreases s.len(),
{
    if s.len() > 0 && is_ws(s[0]) {
        trim_start_seq(s.drop_first())
    } else {
        s
    }
}

/// The sequence with trailing whitespace removed.
pub open spec fn trim_end_seq(s: Seq<char>) -> Seq<char>
    decreases s.len(),
{
    if s.len() > 0 && is_ws(s[s.len() - 1]) {
        trim_end_seq(s.drop_last())
    } else {
        s
    }
}

/// The sequence with whitespace removed from both ends.
pub open spec fn trim_seq(s: Seq<char>) -> Seq<char> {
    trim_end_seq(trim_start_seq(s))
}

proof fn lemma_trim_start_skip(s: Seq<char>, a: int)
    requires
        0 <= a <= s.len(),
        forall|k: int| 0 <= k < a ==> is_ws(s[k]),
        a < s.len() ==> !is_ws(s[a]),
    ensures
        trim_start_seq(s) == s.skip(a),
    decreases a,
{
    if a == 0 {
        assert(s.skip(0) =~= s);
    } else {
        let t = s.drop_first();
        assert(forall|k: int| 0 <= k < a - 1 ==> is_ws(t[k]));
        lemma_trim_start_skip(t, a - 1);
        assert(t.skip(a - 1) =~= s.skip(a));
    }
}

proof fn lemma_trim_end_take(s: Seq<char>, b: int)
    requires
        0 <= b <= s.len(),
        forall|k: int| b <= k < s.len() ==> is_ws(s[k]),
        b > 0 ==> !is_ws(s[b - 1]),
    ensures
        trim_end_seq(s) == s.take(b),
    decreases s.len() - b,
{
    if b == s.len() {
        assert(s.take(b) =~= s);
    } else {
        let t = s.drop_last();
        assert(t =~= s.take(s.len() - 1));
        lemma_trim_end_take(t, b);
        assert(t.take(b) =~= s.take(b));
    }
}

/// Removes ASCII whitespace from both ends of a string.
pub fn trim_str(s: &str) -> (r: String)
    ensures
        r@ == trim_seq(s@),
{
    let n = s.unicode_len();
    let mut a: usize = 0;
    while a < n && is_ws_char(s.get_char(a))
        invariant
            n == s@.len(),
            a <= n,
            forall|k: int| 0 <= k < a ==> is_ws(s@[k]),
        decreases n - a,
    {
        a = a + 1;
    }
    proof {
        lemma_trim_start_skip(s@, a as int);
    }
    let mut b: usize = n;
    while b > a && is_ws_char(s.get_char(b - 1))
        invariant
            n == s@.len(),
            a <= b <= n,
            forall|k: int| b <= k < n ==> is_ws(s@[k]),
            a < n ==> !is_ws(s@[a as int]),
        decreases b,
    {
        b = b - 1;
    }
    let ghost st = trim_start_seq(s@);
    proof {
        assert(st == s@.skip(a as int));
        if b == a {
            lemma_trim_end_take(st, 0);
        } else {
            assert(!is_ws(st[b - a - 1]));
            lemma_trim_end_take(st, b - a);
        }
        assert(st.take(b - a) =~= s@.subrange(a as int, b as int));
    }
    let r = s.substring_char(a, b);
    r.to_owned()
}

/// Whether the character is ASCII whitespace.
pub fn is_ws_char(c: char) -> (r: bool)
    ensures
        r == is_ws(c),
{
    c == ' ' || c == '\t' || c == '\n' || c == '\r'
}

/// The decimal digit character for a value below ten.
pub open spec fn digit_char(d: int) -> char {
    (48 + d) as char
}

/// Decimal rendering of a natural number, most significant digit first.
pub open spec fn dec_str(n: nat) -> Seq<char>
    decreases n,
{
    if n < 10 {
        seq![digit_char(n as int)]
    } else {
        dec_str(n / 10).push(digit_char((n % 10) as int))
    }
}

/// Decimal rendering of an integer, with a leading `-` when negative.
pub open spec fn int_str(n: int) -> Seq<char> {
    if n < 0 {
        seq!['-'] + dec_str((-n) as nat)
    } else {
        dec_str(n as nat)
    }
}

/// Appends the decimal rendering of `v` to `out`.
pub fn push_dec(out: &mut String, v: u64)
    ensures
        final(out)@ == old(out)@ + dec_str(v as nat),
    decreases v,
{
    if v >= 10 {
        push_dec(out, v / 10);
    }
    let d = (v % 10) as u8;
    push_char(out, (48 + d) as char);
    assert(final(out)@ =~= old(out)@ + dec_str(v as nat));
}

/// The decimal rendering of an unsigned integer.
pub fn u64_to_string(v: u64) -> (r: String)
    ensures
        r@ == dec_str(v as nat),
{
    let mut out = String::new();
    push_dec(&mut out, v);
    assert(out@ =~= dec_str(v as nat));
    out
}

/// The decimal rendering of a signed integer.
pub fn i64_to_string(v: i64) -> (r: String)
    ensures
        r@ == int_str(v as int),
{
    let mut out = String::new();
    if v < 0 {
        push_char(&mut out, '-');
        let mag: u64 = if v == -9223372036854775808i64 {
            9223372036854775808u64
        } else {
            (-v) as u64
        };
        assert(mag as int == -(v as int));
        push_dec(&mut out, mag);
        assert(out@ =~= int_str(v as int));
    } else {
        push_dec(&mut out, v as u64);
    }
    out
}

/// Whether the character is a decimal digit.
pub open spec fn is_digit(c: char) -> bool {
    '0' <= c && c <= '9'
}

/// Whether every character of the sequence is a decimal digit.
pub open spec fn all_digits(s: Seq<char>) -> bool {
    forall|k: int| 0 <= k < s.len() ==> is_digit(#[trigger] s[k])
}

/// The numeric value of a digit sequence, most significant digit first.
pub open spec fn digits_val(s: Seq<char>) -> int
    decreases s.len(),
{
    if s.len() == 0 {
        0
    } else {
        digits_val(s.drop_last()) * 10 + (s[s.len() - 1] as int - 48)
    }
}

/// The integer denoted by `s` under the grammar `[+-]? digit+`,
/// or nothing if `s` does not match the grammar.
pub open spec fn parse_int_seq(s: Seq<char>) -> Option<int> {
    let (neg, ds) = if s.len() > 0 && (s[0] == '-' || s[0] == '+') {
        (s[0] == '-', s.skip(1))
    } else {
        (false, s)
    };
    if ds.len() > 0 && all_digits(ds) {
        if neg {
            Some(-digits_val(ds))
        } else {
            Some(digits_val(ds))
        }
    } else {
        None
    }
}

proof fn lemma_digits_val_nonneg(s: Seq<char>)
    requires
        all_digits(s),
    ensures
        digits_val(s) >= 0,
    decreases s.len(),
{
    if s.len() > 0 {
        assert(all_digits(s.drop_last()));
        lemma_digits_val_nonneg(s.drop_last());
    }
}

proof fn lemma_digits_val_prefix_le(s: Seq<char>, k: int)
    requires
        all_digits(s),
        0 <= k <= s.len(),
    ensures
        digits_val(s.take(k)) <= digits_val(s),
    decreases s.len() - k,
{
    if k < s.len() {
        lemma_digits_val_prefix_le(s, k + 1);
        assert(s.take(k + 1).drop_last() =~= s.take(k));
        assert(all_digits(s.take(k + 1)));
        lemma_digits_val_nonneg(s.take(k));
        assert(digits_val(s.take(k + 1)) == digits_val(s.take(k)) * 10 + (s[k] as int - 48));
        assert(digits_val(s.take(k)) * 10 >= digits_val(s.take(k))) by (nonlinear_arith)
            requires
                digits_val(s.take(k)) >= 0,
        ;
    } else {
        assert(s.take(k) =~= s);
    }
}

/// Parses a signed 32-bit integer, as `str::parse::<i32>` does: an
/// optional sign followed by one or more digits, rejected when the value
/// is out of range.
pub fn parse_i32(s: &str) -> (r: Option<i32>)
    ensures
        match parse_int_seq(s@) {
            Some(v) => if -2147483648 <= v <= 2147483647 {
                r == Some(v as i32)
            } else {
                r is None
            },
            None => r is None,
        },
{
    let n = s.unicode_len();
    if n == 0 {
        return None;
    }
    let first = s.get_char(0);
    let (neg, start): (bool, usize) = if first == '-' {
        (true, 1)
    } else if first == '+' {
        (false, 1)
    } else {
        (false, 0)
    };
    let ghost ds = if start == 1 {
        s@.skip(1)
    } else {
        s@
    };
    if start == 1 && n == 1 {
        return None;
    }
    let limit: i64 = if neg {
        2147483648
    } else {
        2147483647
    };
    let mut acc: i64 = 0;
    let mut i: usize = start;
    while i < n
        invariant
            n == s@.len(),
            start <= i <= n,
            start == 0 || start == 1,
            ds == if start == 1 {
                s@.skip(1)
            } else {
                s@
            },
            start == 1 <==> (s@[0] == '-' || s@[0] == '+'),
            neg <==> (start == 1 && s@[0] == '-'),
            ds.len() == n - start,
            ds.len() > 0,
            forall|k: int| 0 <= k < i - start ==> is_digit(#[trigger] ds[k]),
            acc == digits_val(ds.take(i - start)),
            0 <= acc <= 4294967299,
        decreases n - i,
    {
        let c = s.get_char(i);
        assert(ds[i - start] == s@[i as int]);
        if c < '0' || c > '9' {
            assert(!is_digit(ds[i - start]));
            return None;
        }
        assert(c as u32 >= 48 && c as u32 <= 57);
        let d = ((c as u32) - 48) as i64;
        assert(d == c as int - 48);
        if acc > 429496729 {
            // any further digit pushes the magnitude past every i32
            proof {
                assert(is_digit(ds[i - start]));
                assert(ds.take(i - start + 1).drop_last() =~= ds.take(i - start));
                assert(ds.take(i - start + 1)[i - start] == ds[i - start]);
                assert(digits_val(ds.take(i - start + 1)) == acc * 10 + (ds[i - start] as int
                    - 48));
                assert(acc * 10 >= 4294967300) by (nonlinear_arith)
                    requires
                        acc > 429496729,
                ;
                if all_digits(ds) {
                    lemma_digits_val_prefix_le(ds, i - start + 1);
                }
            }
            return None;
        }
        acc = acc * 10 + d;
        i = i + 1;
        assert(ds.take(i - start).drop_last() =~= ds.take(i - start - 1));
        assert(acc == digits_val(ds.take(i - start)));
    }
    assert(ds.take(n - start) =~= ds);
    assert(all_digits(ds));
    if acc > limit {
        return None;
    }
    if neg {
        Some((-acc) as i32)
    } else {
        Some(acc as i32)
    }
}

} // verus!
// Character search and joining, shared by the response framing.

verus! {

/// The index of the first occurrence of `c` in `s`, or `s.len()` if
/// there is none.
pub open spec fn first_index_spec(s: Seq<char>, c: char) -> int
    decreases s.len(),
{
    if s.len() == 0 {
        0
    } else if s[0] == c {
        0
    } else {
        1 + first_index_spec(s.drop_first(), c)
    }
}

/// The first-occurrence index always lies between zero and the length.
pub proof fn lemma_first_index_range(s: Seq<char>, c: char)
    ensures
        0 <= first_index_spec(s, c) <= s.len(),
    decreases s.len(),
{
    if s.len() > 0 && s[0] != c {
        lemma_first_index_range(s.drop_first(), c);
    }
}

pub proof fn lemma_first_index_at(s: Seq<char>, c: char, j: int)
    requires
        0 <= j <= s.len(),
        forall|k: int| 0 <= k < j ==> s[k] != c,
        j < s.len() ==> s[j] == c,
    ensures
        first_index_spec(s, c) == j,
    decreases j,
{
    if j > 0 {
        let t = s.drop_first();
        assert(forall|k: int| 0 <= k < j - 1 ==> t[k] != c);
        lemma_first_index_at(t, c, j - 1);
    }
}

/// Finds the first occurrence of `c` in `s`, reporting `s`'s length
/// when there is none.
pub fn find_char(s: &str, c: char) -> (r: usize)
    ensures
        r == first_index_spec(s@, c),
        r <= s@.len(),
        r < s@.len() ==> s@[r as int] == c,
        forall|k: int| 0 <= k < r ==> s@[k] != c,
{
    let n = s.unicode_len();
    let mut i: usize = 0;
    while i < n && s.get_char(i) != c
        invariant
            n == s@.len(),
            i <= n,
            forall|k: int| 0 <= k < i ==> s@[k] != c,
        decreases n - i,
    {
        i = i + 1;
    }
    proof {
        lemma_first_index_at(s@, c, i as int);
    }
    i
}

/// The index of the last occurrence of `c` in `s`, or `-1` if there is
/// none.
pub open spec fn last_index_spec(s: Seq<char>, c: char) -> int
    decreases s.len(),
{
    if s.len() == 0 {
        -1
    } else if s[s.len() - 1] == c {
        s.len() - 1
    } else {
        last_index_spec(s.drop_last(), c)
    }
}

proof fn lemma_last_index_at(s: Seq<char>, c: char, j: int)
    requires
        -1 <= j < s.len(),
        forall|k: int| j < k < s.len() ==> s[k] != c,
        j >= 0 ==> s[j] == c,
    ensures
        last_index_spec(s, c) == j,
    decreases s.len() - j,
{
    if j < s.len() - 1 && s.len() > 0 {
        let t = s.drop_last();
        assert(forall|k: int| j < k < t.len() ==> t[k] != c);
        lemma_last_index_at(t, c, j);
    }
}

/// Finds the last occurrence of `c` in `s`, if any.
pub fn rfind_char(s: &str, c: char) -> (r: Option<usize>)
    ensures
        match r {
            Some(i) => i == last_index_spec(s@, c) && i < s@.len() && s@[i as int] == c,
            None => last_index_spec(s@, c) == -1,
        },
{
    let n = s.unicode_len();
    let mut i: usize = n;
    while i > 0
        invariant
            n == s@.len(),
            i <= n,
            forall|k: int| i <= k < n ==> s@[k] != c,
        decreases i,
    {
        i = i - 1;
        if s.get_char(i) == c {
            proof {
                lemma_last_index_at(s@, c, i as int);
            }
            return Some(i);
        }
    }
    proof {
        lemma_last_index_at(s@, c, -1);
    }
    None
}

/// The pieces of `ls` joined with the separator `sep` between them.
pub open spec fn join_with(ls: Seq<Seq<char>>, sep: Seq<char>) -> Seq<char>
    decreases ls.len(),
{
    if ls.len() == 0 {
        Seq::<char>::empty()
    } else if ls.len() == 1 {
        ls[0]
    } else {
        ls[0] + sep + join_with(ls.drop_first(), sep)
    }
}

/// Joins string pieces with a separator.
pub fn join_strings(ls: &Vec<String>, sep: &str) -> (r: String)
    ensures
        r@ == join_with(ls@.map_values(|s: String| s@), sep@),
    decreases ls@.len(),
{
    let ghost views = ls@.map_values(|s: String| s@);
    let mut out = String::new();
    let n = ls.len();
    let mut i: usize = 0;
    while i < n
        invariant
            n == ls@.len(),
            views == ls@.map_values(|s: String| s@),
            i <= n,
            out@ == (if i == 0 {
                Seq::<char>::empty()
            } else if i < n {
                join_with(views.take(i as int), sep@) + sep@
            } else {
                join_with(views.take(i as int), sep@)
            }),
        decreases n - i,
    {
        let ghost before = out@;
        out.append(ls[i].as_str());
        proof {
            lemma_join_take_step(views, sep@, i as int);
            if i == 0 {
                assert(out@ =~= join_with(views.take(1), sep@));
            } else {
                assert(out@ =~= join_with(views.take(i as int), sep@) + sep@ + views[i as int]);
                assert(out@ =~= join_with(views.take(i + 1), sep@));
            }
        }
        if i + 1 < n {
            out.append(sep);
        }
        i = i + 1;
    }
    assert(views.take(n as int) =~= views);
    out
}

proof fn lemma_join_take_step(views: Seq<Seq<char>>, sep: Seq<char>, i: int)
    requires
        0 <= i < views.len(),
    ensures
        i == 0 ==> join_with(views.take(1), sep) == views[0],
        i > 0 ==> join_with(views.take(i + 1), sep) == join_with(views.take(i), sep) + sep
            + views[i],
    decreases i,
{
    if i == 0 {
        assert(views.take(1).len() == 1);
        assert(views.take(1)[0] == views[0]);
    } else {
        let t = views.drop_first();
        assert(t.take(i) =~= views.take(i + 1).drop_first());
        assert(t.take(i - 1) =~= views.take(i).drop_first());
        lemma_join_take_step(t, sep, i - 1);
        if i == 1 {
            assert(join_with(views.take(2), sep) == views[0] + sep + join_with(t.take(1), sep));
            assert(t.take(1)[0] == views[1]);
            assert(join_with(t.take(1), sep) == views[1]);
            assert(join_with(views.take(1), sep) == views[0]);
        } else {
            assert(join_with(views.take(i + 1), sep) == views[0] + sep + join_with(
                t.take(i),
                sep,
            ));
            assert(join_with(views.take(i), sep) == views[0] + sep + join_with(t.take(i - 1), sep));
            assert(views[0] + sep + (join_with(t.take(i - 1), sep) + sep + t[i - 1]) =~= (views[0]
                + sep + join_with(t.take(i - 1), sep)) + sep + t[i - 1]);
            assert(t[i - 1] == views[i]);
        }
    }
}

} // verus!
