//! Reading number literals: the decimal integer syntax accepted by Rust's
//! `i64`/`i32`/`u64` parsing (optional sign, at least one ASCII digit,
//! value in range) and the syntax accepted by float parsing.

use vstd::prelude::*;
use crate::scanner::{is_digit, drop_underscores};

verus! {

pub open spec fn all_digits(s: Seq<char>) -> bool {
    s.len() >= 1 && forall|k: int| 0 <= k < s.len() ==> is_digit(#[trigger] s[k])
}

pub open spec fn digit_value(c: char) -> nat {
    ((c as u32) - 48) as nat
}

/// The value of a run of decimal digits.
pub open spec fn digits_value(s: Seq<char>) -> nat
    decreases s.len(),
{
    if s.len() == 0 {
        0
    } else {
        digits_value(s.drop_last()) * 10 + digit_value(s.last())
    }
}

/// The integer a signed decimal spells: an optional `+` or `-`, then digits.
pub open spec fn signed_value(s: Seq<char>) -> Option<int> {
    if s.len() >= 1 && (s[0] == '+' || s[0] == '-') {
        let d = s.drop_first();
        if all_digits(d) {
            Some(if s[0] == '-' { -(digits_value(d) as int) } else { digits_value(d) as int })
        } else {
            None
        }
    } else if all_digits(s) {
        Some(digits_value(s) as int)
    } else {
        None
    }
}

/// The integer an unsigned decimal spells: an optional `+`, then digits.
pub open spec fn unsigned_value(s: Seq<char>) -> Option<int> {
    if s.len() >= 1 && s[0] == '+' {
        let d = s.drop_first();
        if all_digits(d) { Some(digits_value(d) as int) } else { None }
    } else if all_digits(s) {
        Some(digits_value(s) as int)
    } else {
        None
    }
}

/// What parsing `s` as an integer between `lo` and `hi` gives.
pub open spec fn parse_in_range(v: Option<int>, lo: int, hi: int) -> Option<int> {
    match v {
        Some(x) => if lo <= x <= hi { Some(x) } else { None },
        None => None,
    }
}

pub open spec fn parse_i64_spec(s: Seq<char>) -> Option<int> {
    parse_in_range(signed_value(s), i64::MIN as int, i64::MAX as int)
}

pub open spec fn parse_i32_spec(s: Seq<char>) -> Option<int> {
    parse_in_range(signed_value(s), i32::MIN as int, i32::MAX as int)
}

pub open spec fn parse_u64_spec(s: Seq<char>) -> Option<int> {
    parse_in_range(unsigned_value(s), 0, u64::MAX as int)
}

/// The value of the digits `s[start..]`, exact while it stays at most
/// 2^64, otherwise flagged as larger; `None` unless they are all digits
/// and there is at least one.
fn digits_run_value(s: &[char], start: usize) -> (r: Option<(u128, bool)>)
    requires
        start <= s@.len(),
    ensures
        r is Some == all_digits(s@.subrange(start as int, s@.len() as int)),
        r matches Some((v, big)) ==> {
            &&& big ==> digits_value(s@.subrange(start as int, s@.len() as int)) > 0x1_0000_0000_0000_0000
            &&& !big ==> v == digits_value(s@.subrange(start as int, s@.len() as int))
            &&& !big ==> v <= 0x1_0000_0000_0000_0000
        },
{
    if start >= s.len() {
        return Option::None;
    }
    let mut v: u128 = 0;
    let mut big = false;
    let mut i = start;
    while i < s.len()
        invariant
            start <= i <= s@.len(),
            forall|j: int| start <= j < i ==> is_digit(#[trigger] s@[j]),
            !big ==> v == digits_value(s@.subrange(start as int, i as int)),
            !big ==> v <= 0x1_0000_0000_0000_0000,
            big ==> digits_value(s@.subrange(start as int, i as int)) > 0x1_0000_0000_0000_0000,
        decreases s@.len() - i,
    {
        let c = s[i];
        if !('0' <= c && c <= '9') {
            proof {
                let sub = s@.subrange(start as int, s@.len() as int);
                assert(sub[i - start] == c);
            }
            return Option::None;
        }
        let d = (c as u32 - 48) as u128;
        proof {
            let p = s@.subrange(start as int, i as int);
            let q = s@.subrange(start as int, i + 1);
            assert(q.drop_last() == p);
            assert(q.last() == c);
        }
        if !big {
            let nv = v * 10 + d;
            if nv > 0x1_0000_0000_0000_0000 {
                big = true;
            } else {
                v = nv;
            }
        } else {
            proof {
                let p = s@.subrange(start as int, i as int);
                let q = s@.subrange(start as int, i + 1);
                assert(digits_value(q) >= digits_value(p) * 10);
            }
        }
        i = i + 1;
    }
    proof {
        let sub = s@.subrange(start as int, s@.len() as int);
        assert forall|k: int| 0 <= k < sub.len() implies is_digit(#[trigger] sub[k]) by {
            assert(sub[k] == s@[start + k]);
        }
    }
    Some((v, big))
}

/// Parses a signed decimal whose value must lie in `lo..=hi` (`hi` at most
/// `i64::MAX`, `lo` at least `i64::MIN`).
fn parse_signed_range(s: &[char], lo: i64, hi: i64) -> (r: Option<i64>)
    ensures
        r matches Some(v) ==> parse_in_range(signed_value(s@), lo as int, hi as int) == Some(v as int),
        r is None ==> parse_in_range(signed_value(s@), lo as int, hi as int) is None,
{
    let signed = s.len() >= 1 && (s[0] == '+' || s[0] == '-');
    let start: usize = if signed { 1 } else { 0 };
    let neg = signed && s[0] == '-';
    proof {
        if signed {
            assert(s@.drop_first() == s@.subrange(1, s@.len() as int));
        } else {
            assert(s@ == s@.subrange(0, s@.len() as int));
        }
    }
    match digits_run_value(s, start) {
        Option::None => Option::None,
        Some((v, big)) => {
            if big {
                return Option::None;
            }
            let x: i128 = if neg { -(v as i128) } else { v as i128 };
            if (lo as i128) <= x && x <= (hi as i128) {
                Some(x as i64)
            } else {
                Option::None
            }
        },
    }
}

pub fn parse_i64(s: &[char]) -> (r: Option<i64>)
    ensures
        r matches Some(v) ==> parse_i64_spec(s@) == Some(v as int),
        r is None ==> parse_i64_spec(s@) is None,
{
    parse_signed_range(s, i64::MIN, i64::MAX)
}

pub fn parse_i32(s: &[char]) -> (r: Option<i32>)
    ensures
        r matches Some(v) ==> parse_i32_spec(s@) == Some(v as int),
        r is None ==> parse_i32_spec(s@) is None,
{
    match parse_signed_range(s, i32::MIN as i64, i32::MAX as i64) {
        Some(v) => Some(v as i32),
        Option::None => Option::None,
    }
}

pub fn parse_u64(s: &[char]) -> (r: Option<u64>)
    ensures
        r matches Some(v) ==> parse_u64_spec(s@) == Some(v as int),
        r is None ==> parse_u64_spec(s@) is None,
{
    let start: usize = if s.len() >= 1 && s[0] == '+' { 1 } else { 0 };
    proof {
        if start == 1 {
            assert(s@.drop_first() == s@.subrange(1, s@.len() as int));
        } else {
            assert(s@ == s@.subrange(0, s@.len() as int));
        }
    }
    match digits_run_value(s, start) {
        Option::None => Option::None,
        Some((v, big)) => {
            if big || v > 0xFFFF_FFFF_FFFF_FFFF {
                Option::None
            } else {
                Some(v as u64)
            }
        },
    }
}

/// The characters of `s` without underscores.
pub fn remove_underscores(s: &[char]) -> (r: Vec<char>)
    ensures
        r@ == drop_underscores(s@),
{
    let mut out: Vec<char> = Vec::new();
    let mut i: usize = 0;
    while i < s.len()
        invariant
            i <= s@.len(),
            out@ == drop_underscores(s@.take(i as int)),
        decreases s@.len() - i,
    {
        let c = s[i];
        if c != '_' {
            out.push(c);
        }
        proof {
            assert(s@.take(i + 1).drop_last() == s@.take(i as int));
        }
        i = i + 1;
    }
    assert(s@.take(s@.len() as int) == s@);
    out
}

// ---------------------------------------------------------------------------
// Float syntax

pub open spec fn lower_ascii(c: char) -> char {
    if 'A' <= c <= 'Z' { ((c as u8) + 32) as char } else { c }
}

pub open spec fn lowered(s: Seq<char>) -> Seq<char> {
    s.map_values(|c: char| lower_ascii(c))
}

/// End of the run of digits starting at `i`.
pub open spec fn digits_end(s: Seq<char>, i: int) -> int
    decreases s.len() - i,
{
    if 0 <= i < s.len() && is_digit(s[i]) { digits_end(s, i + 1) } else { i }
}

/// Whether `s[i..]` is a decimal number: digits with an optional fraction
/// (at least one digit on one side of the point), then an optional exponent.
pub open spec fn is_float_number(s: Seq<char>, i: int) -> bool {
    let a = digits_end(s, i);
    let after_int = a;
    let (b, ok) = if after_int < s.len() && s[after_int] == '.' {
        let f = digits_end(s, after_int + 1);
        (f, a > i || f > after_int + 1)
    } else {
        (after_int, a > i)
    };
    ok && (b == s.len() || (s[b] == 'e' && {
        let c = if b + 1 < s.len() && (s[b + 1] == '+' || s[b + 1] == '-') { b + 2 } else { b + 1 };
        let d = digits_end(s, c);
        d > c && d == s.len()
    }))
}

/// Whether parsing `s` as a float succeeds: after lowering ASCII letters, an
/// optional sign then `inf`, `infinity`, `nan` or a decimal number.
pub open spec fn is_float_text(s: Seq<char>) -> bool {
    let l = lowered(s);
    let start = if l.len() >= 1 && (l[0] == '+' || l[0] == '-') { 1int } else { 0int };
    let rest = l.subrange(start, l.len() as int);
    rest == "inf"@ || rest == "infinity"@ || rest == "nan"@ || is_float_number(l, start)
}

fn lower_chars(s: &[char]) -> (r: Vec<char>)
    ensures
        r@ == lowered(s@),
{
    let mut out: Vec<char> = Vec::new();
    let mut i: usize = 0;
    while i < s.len()
        invariant
            i <= s@.len(),
            out@.len() == i,
            forall|k: int| 0 <= k < i ==> out@[k] == lower_ascii(#[trigger] s@[k]),
        decreases s@.len() - i,
    {
        let c = s[i];
        let lc = if 'A' <= c && c <= 'Z' { ((c as u8) + 32) as char } else { c };
        out.push(lc);
        i = i + 1;
    }
    assert(out@ =~= lowered(s@));
    out
}

fn digits_end_exec(s: &Vec<char>, i: usize) -> (r: usize)
    requires
        i <= s@.len(),
    ensures
        r == digits_end(s@, i as int),
        i <= r <= s@.len(),
{
    let mut j = i;
    while j < s.len() && '0' <= s[j] && s[j] <= '9'
        invariant
            i <= j <= s@.len(),
            digits_end(s@, j as int) == digits_end(s@, i as int),
        decreases s@.len() - j,
    {
        j = j + 1;
    }
    j
}

/// Whether `s` is accepted by float parsing.
pub fn is_float_literal(s: &[char]) -> (r: bool)
    ensures
        r == is_float_text(s@),
{
    let l = lower_chars(s);
    let start: usize = if l.len() >= 1 && (l[0] == '+' || l[0] == '-') { 1 } else { 0 };
    let mut rest: Vec<char> = Vec::new();
    let mut k = start;
    while k < l.len()
        invariant
            start <= k <= l@.len(),
            rest@ == l@.subrange(start as int, k as int),
        decreases l@.len() - k,
    {
        rest.push(l[k]);
        k = k + 1;
        assert(l@.subrange(start as int, k as int) == l@.subrange(start as int, k - 1).push(l@[k - 1]));
    }
    if crate::text::chars_is(rest.as_slice(), "inf") || crate::text::chars_is(rest.as_slice(), "infinity")
        || crate::text::chars_is(rest.as_slice(), "nan") {
        return true;
    }
    let a = digits_end_exec(&l, start);
    let (b, ok) = if a < l.len() && l[a] == '.' {
        let f = digits_end_exec(&l, a + 1);
        (f, a > start || f > a + 1)
    } else {
        (a, a > start)
    };
    if !ok {
        return false;
    }
    if b == l.len() {
        return true;
    }
    if l[b] != 'e' {
        return false;
    }
    let c = if b + 1 < l.len() && (l[b + 1] == '+' || l[b + 1] == '-') { b + 2 } else { b + 1 };
    let d = digits_end_exec(&l, c);
    d > c && d == l.len()
}

} // verus!
