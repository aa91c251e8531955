//! Exact decimal comparison for ranking metrics.
//!
//! Metric values arrive as decimal text (for instance `"5.5"`) and are
//! compared against a threshold without floating point: both sides are
//! parsed into sign, integer part and fraction, and compared as exact
//! rationals.  Up to nine digits are accepted on either side of the
//! point, which covers every metric the ranking source publishes.

use crate::text::all_digits;
use crate::text::digits_val;
use crate::text::is_digit;
use vstd::prelude::*;

use vstd::string::StrSliceExecFns;

verus! {

/// A parsed decimal number `(-1)^neg * (units . frac)`, where `frac`
/// holds `frac_len` digits after the point.
pub struct DecimalParts {
    pub neg: bool,
    pub units: int,
    pub frac: int,
    pub frac_len: nat,
}

/// Ten to the power `n`.
pub open spec fn pow10(n: nat) -> int
    decreases n,
{
    if n == 0 {
        1
    } else {
        10 * pow10((n - 1) as nat)
    }
}

/// The position of the first `.` in `s`, or `s.len()` if there is none.
pub open spec fn dot_index(s: Seq<char>) -> int
    decreases s.len(),
{
    if s.len() == 0 {
        0
    } else if s[0] == '.' {
        0
    } else {
        1 + dot_index(s.drop_first())
    }
}

/// The decimal denoted by `s` under the grammar
/// `[+-]? digit* [. digit*]` with at least one digit and at most nine
/// digits on each side of the point; `None` when `s` does not match.
pub open spec fn parse_decimal_seq(s: Seq<char>) -> Option<DecimalParts> {
    let (neg, t) = if s.len() > 0 && (s[0] == '-' || s[0] == '+') {
        (s[0] == '-', s.skip(1))
    } else {
        (false, s)
    };
    let d = dot_index(t);
    let ip = t.take(d);
    let fp = if d < t.len() {
        t.skip(d + 1)
    } else {
        Seq::<char>::empty()
    };
    if all_digits(ip) && all_digits(fp) && ip.len() + fp.len() >= 1 && ip.len() <= 9 && fp.len()
        <= 9 {
        Some(
            DecimalParts {
                neg,
                units: digits_val(ip),
                frac: digits_val(fp),
                frac_len: fp.len(),
            },
        )
    } else {
        None
    }
}

/// The exact numerator of a decimal over the denominator
/// `pow10(frac_len)`.
pub open spec fn dec_num(p: DecimalParts) -> int {
    let m = p.units * pow10(p.frac_len) + p.frac;
    if p.neg {
        -m
    } else {
        m
    }
}

/// Exact order on parsed decimals: `a >= b` as rationals.
pub open spec fn dec_ge(a: DecimalParts, b: DecimalParts) -> bool {
    dec_num(a) * pow10(b.frac_len) >= dec_num(b) * pow10(a.frac_len)
}

/// A parsed decimal held by executable code.  The digit caps keep every
/// field small enough for exact 128-bit comparison.
#[derive(Debug, Clone, Copy)]
pub struct Decimal {
    pub neg: bool,
    pub units: u64,
    pub frac: u64,
    pub frac_len: u32,
}

/// The parts a `Decimal` stands for.
pub open spec fn decimal_parts(d: Decimal) -> DecimalParts {
    DecimalParts { neg: d.neg, units: d.units as int, frac: d.frac as int, frac_len: d.frac_len as nat }
}

/// Ten to the power `e`, for exponents up to nine.
pub fn pow10_u64(e: u32) -> (r: u64)
    requires
        e <= 9,
    ensures
        r == pow10(e as nat),
{
    proof {
        reveal_with_fuel(pow10, 11);
    }
    match e {
        0 => 1,
        1 => 10,
        2 => 100,
        3 => 1000,
        4 => 10000,
        5 => 100000,
        6 => 1000000,
        7 => 10000000,
        8 => 100000000,
        _ => {
            assert(pow10(9) == 1000000000);
            1000000000
        },
    }
}

proof fn lemma_dot_index_at(s: Seq<char>, j: int)
    requires
        0 <= j <= s.len(),
        forall|k: int| 0 <= k < j ==> s[k] != '.',
        j < s.len() ==> s[j] == '.',
    ensures
        dot_index(s) == j,
    decreases j,
{
    if j == 0 {
    } else {
        let t = s.drop_first();
        assert(forall|k: int| 0 <= k < j - 1 ==> t[k] != '.');
        lemma_dot_index_at(t, j - 1);
    }
}

proof fn lemma_digits_val_bound(s: Seq<char>)
    requires
        all_digits(s),
    ensures
        0 <= digits_val(s) < pow10(s.len() as nat),
    decreases s.len(),
{
    if s.len() == 0 {
    } else {
        let p = s.drop_last();
        assert(all_digits(p));
        lemma_digits_val_bound(p);
        assert(digits_val(s) == digits_val(p) * 10 + (s[s.len() - 1] as int - 48));
        assert(pow10(s.len() as nat) == 10 * pow10(p.len() as nat));
        assert(digits_val(p) * 10 + 9 < 10 * pow10(p.len() as nat)) by (nonlinear_arith)
            requires
                digits_val(p) < pow10(p.len() as nat),
        ;
    }
}

/// Parses decimal text, as the metric filters need it: an optional
/// sign, up to nine digits, an optional point, up to nine more digits,
/// with at least one digit in all.
pub fn parse_decimal(s: &str) -> (r: Option<Decimal>)
    ensures
        match parse_decimal_seq(s@) {
            Some(p) => r is Some && decimal_parts(r->0) == p,
            None => r is None,
        },
        r is Some ==> r->0.units < 1000000000 && r->0.frac < 1000000000 && r->0.frac_len <= 9,
{
    broadcast use vstd::string::group_string_axioms;

    let n = s.unicode_len();
    if n == 0 {
        return None;
    }
    let first = s.get_char(0);
    let (neg, start): (bool, usize) = if first == '-' {
        (true, 1)
    } else if first == '+' {
        (false, 1)
    } else {
        (false, 0)
    };
    let ghost t = if start == 1 {
        s@.skip(1)
    } else {
        s@
    };
    assert(t.len() == n - start);
    // find the first point
    let mut dot: usize = start;
    while dot < n && s.get_char(dot) != '.'
        invariant
            n == s@.len(),
            start <= dot <= n,
            start == 0 || start == 1,
            start == 1 <==> (s@[0] == '-' || s@[0] == '+'),
            t == if start == 1 {
                s@.skip(1)
            } else {
                s@
            },
            forall|k: int| 0 <= k < dot - start ==> t[k] != '.',
        decreases n - dot,
    {
        assert(t[dot - start] == s@[dot as int]);
        dot = dot + 1;
    }
    proof {
        if dot < n {
            assert(t[dot - start] == s@[dot as int]);
        }
        lemma_dot_index_at(t, dot - start);
    }
    let ghost ip = t.take(dot - start);
    let ghost fp = if dot - start < t.len() {
        t.skip(dot - start + 1)
    } else {
        Seq::<char>::empty()
    };
    if dot - start > 9 {
        return None;
    }
    // integer part
    let mut units: u64 = 0;
    let mut i: usize = start;
    while i < dot
        invariant
            n == s@.len(),
            start <= i <= dot <= n,
            start == 0 || start == 1,
            start == 1 <==> (s@[0] == '-' || s@[0] == '+'),
            neg <==> (start == 1 && s@[0] == '-'),
            dot == dot_index(t) + start,
            dot - start <= 9,
            t == if start == 1 {
                s@.skip(1)
            } else {
                s@
            },
            ip == t.take(dot - start),
            forall|k: int| 0 <= k < i - start ==> is_digit(#[trigger] ip[k]),
            units == digits_val(ip.take(i - start)),
            units < 1000000000,
        decreases dot - i,
    {
        let c = s.get_char(i);
        assert(ip[i - start] == s@[i as int]);
        if c < '0' || c > '9' {
            assert(!is_digit(ip[i - start]));
            return None;
        }
        let d = ((c as u32) - 48) as u64;
        proof {
            assert(ip.take(i - start + 1).drop_last() =~= ip.take(i - start));
            assert(all_digits(ip.take(i - start + 1)));
            lemma_digits_val_bound(ip.take(i - start + 1));
            reveal_with_fuel(pow10, 11);
            assert(pow10(9) == 1000000000);
            assert(ip.take(i - start + 1).len() <= 9);
            assert(pow10(ip.take(i - start + 1).len() as nat) <= pow10(9)) by {
                lemma_pow10_increases(ip.take(i - start + 1).len() as nat, 9);
            }
        }
        units = units * 10 + d;
        i = i + 1;
    }
    assert(ip.take(dot - start) =~= ip);
    assert(all_digits(ip));
    // fraction part
    let mut frac: u64 = 0;
    let mut frac_len: u32 = 0;
    if dot < n {
        let fstart = dot + 1;
        if n - fstart > 9 {
            assert(fp.len() == n - fstart);
            return None;
        }
        let mut j: usize = fstart;
        while j < n
            invariant
                n == s@.len(),
                start == 0 || start == 1,
                start == 1 <==> (s@[0] == '-' || s@[0] == '+'),
                neg <==> (start == 1 && s@[0] == '-'),
                dot == dot_index(t) + start,
                ip == t.take(dot - start),
                all_digits(ip),
                dot - start <= 9,
                units == digits_val(ip),
                units < 1000000000,
                start < fstart,
                dot == fstart - 1,
                start <= dot < n,
                fstart <= j <= n,
                n - fstart <= 9,
                t == if start == 1 {
                    s@.skip(1)
                } else {
                    s@
                },
                fp == t.skip(dot - start + 1),
                fp.len() == n - fstart,
                forall|k: int| 0 <= k < j - fstart ==> is_digit(#[trigger] fp[k]),
                frac == digits_val(fp.take(j - fstart)),
                frac < 1000000000,
            decreases n - j,
        {
            let c = s.get_char(j);
            assert(fp[j - fstart] == s@[j as int]);
            if c < '0' || c > '9' {
                assert(!is_digit(fp[j - fstart]));
                return None;
            }
            let d = ((c as u32) - 48) as u64;
            proof {
                assert(fp.take(j - fstart + 1).drop_last() =~= fp.take(j - fstart));
                assert(all_digits(fp.take(j - fstart + 1)));
                lemma_digits_val_bound(fp.take(j - fstart + 1));
                reveal_with_fuel(pow10, 11);
                assert(pow10(9) == 1000000000);
                assert(pow10(fp.take(j - fstart + 1).len() as nat) <= pow10(9)) by {
                    lemma_pow10_increases(fp.take(j - fstart + 1).len() as nat, 9);
                }
            }
            frac = frac * 10 + d;
            j = j + 1;
        }
        assert(fp.take(n - fstart) =~= fp);
        assert(all_digits(fp));
        frac_len = (n - fstart) as u32;
    } else {
        assert(fp =~= Seq::<char>::empty());
    }
    if dot - start == 0 && frac_len == 0 {
        return None;
    }
    Some(Decimal { neg, units, frac, frac_len })
}

proof fn lemma_pow10_increases(a: nat, b: nat)
    requires
        a <= b,
    ensures
        pow10(a) <= pow10(b),
        pow10(a) >= 1,
    decreases b,
{
    if b > 0 {
        if a == b {
            lemma_pow10_increases((a - 1) as nat, (b - 1) as nat);
        } else {
            lemma_pow10_increases(a, (b - 1) as nat);
        }
        assert(pow10(b) == 10 * pow10((b - 1) as nat));
    }
}

/// Exact comparison `a >= b` of two parsed decimals.
pub fn decimal_ge(a: &Decimal, b: &Decimal) -> (r: bool)
    requires
        a.units < 1000000000,
        a.frac < 1000000000,
        a.frac_len <= 9,
        b.units < 1000000000,
        b.frac < 1000000000,
        b.frac_len <= 9,
    ensures
        r == dec_ge(decimal_parts(*a), decimal_parts(*b)),
{
    proof {
        lemma_pow10_increases(a.frac_len as nat, 9);
        lemma_pow10_increases(b.frac_len as nat, 9);
        reveal_with_fuel(pow10, 11);
        assert(pow10(9) == 1000000000);
    }
    let pa = pow10_u64(a.frac_len);
    let pb = pow10_u64(b.frac_len);
    proof {
        assert(a.units * pa <= 999999999 * 1000000000) by (nonlinear_arith)
            requires
                a.units < 1000000000 && 0 <= pa <= 1000000000,
        ;
        assert(b.units * pb <= 999999999 * 1000000000) by (nonlinear_arith)
            requires
                b.units < 1000000000 && 0 <= pb <= 1000000000,
        ;
        assert(a.units * pa >= 0) by (nonlinear_arith)
            requires
                a.units >= 0 && pa >= 1,
        ;
        assert(b.units * pb >= 0) by (nonlinear_arith)
            requires
                b.units >= 0 && pb >= 1,
        ;
    }
    let ma: u128 = (a.units as u128) * (pa as u128) + (a.frac as u128);
    let mb: u128 = (b.units as u128) * (pb as u128) + (b.frac as u128);
    proof {
        assert(ma * pb <= 1000000000000000000 * 1000000000) by (nonlinear_arith)
            requires
                0 <= ma <= 1000000000000000000 && 0 <= pb <= 1000000000,
        ;
        assert(mb * pa <= 1000000000000000000 * 1000000000) by (nonlinear_arith)
            requires
                0 <= mb <= 1000000000000000000 && 0 <= pa <= 1000000000,
        ;
        assert(ma * pb >= 0) by (nonlinear_arith)
            requires
                ma >= 0 && pb >= 0,
        ;
        assert(mb * pa >= 0) by (nonlinear_arith)
            requires
                mb >= 0 && pa >= 0,
        ;
    }
    let cross_a: u128 = ma * (pb as u128);
    let cross_b: u128 = mb * (pa as u128);
    proof {
        let pna = decimal_parts(*a);
        let pnb = decimal_parts(*b);
        assert(ma as int == a.units * pow10(a.frac_len as nat) + a.frac);
        assert(mb as int == b.units * pow10(b.frac_len as nat) + b.frac);
        assert((-(ma as int)) * (pb as int) == -((ma as int) * (pb as int))) by (nonlinear_arith);
        assert((-(mb as int)) * (pa as int) == -((mb as int) * (pa as int))) by (nonlinear_arith);
        assert(dec_num(pna) == if a.neg { -(ma as int) } else { ma as int });
        assert(dec_num(pnb) == if b.neg { -(mb as int) } else { mb as int });
    }
    if !a.neg && !b.neg {
        cross_a >= cross_b
    } else if a.neg && !b.neg {
        cross_a == 0 && cross_b == 0
    } else if !a.neg && b.neg {
        true
    } else {
        cross_a <= cross_b
    }
}

/// An optional string's view, for contracts over optional text.
pub open spec fn opt_str_view(v: Option<&str>) -> Option<Seq<char>> {
    match v {
        Some(s) => Some(s@),
        None => None,
    }
}

/// The numeric-minimum filter: a value passes the threshold exactly
/// when it is present, both texts denote decimals, and the value is at
/// least the threshold.
pub open spec fn numeric_filter_passes(value: Option<Seq<char>>, threshold: Seq<char>) -> bool {
    &&& value is Some
    &&& parse_decimal_seq(value->0) is Some
    &&& parse_decimal_seq(threshold) is Some
    &&& dec_ge(parse_decimal_seq(value->0)->0, parse_decimal_seq(threshold)->0)
}

} // verus!
