//! The string methods of Hyper programs (`s.split(",")`, `s.center(9)`, ...):
//! searching, splitting, padding and case changes, stated over character
//! sequences.  Positions and lengths count characters, not bytes.

use vstd::prelude::*;
use crate::text::{chars_of, string_from_chars, append_chars, append_str, chars_is, decimal, u64_decimal};
use crate::error::{ErrorKind, format_error_spec, runtime};
use crate::semantic::{
    is_whitespace, is_whitespace_exec, trim, trim_chars, trim_start_index, trim_end_index,
    lemma_trim_start, lemma_trim_end,
};
use crate::unicode::{
    upper_of, lower_of, is_lowercase, is_uppercase, is_alphabetic, is_alphanumeric,
    is_ascii_punctuation, ascii_punctuation, char_upper, char_lower, char_is_lowercase,
    char_is_uppercase, char_is_alphabetic, char_is_alphanumeric, upper_str, lower_str,
    str_to_upper, str_to_lower,
};

verus! {

// ---------------------------------------------------------------------------
// Searching

/// Whether `sub` occurs in `s` at character position `i`.
pub open spec fn occurs_at(s: Seq<char>, sub: Seq<char>, i: int) -> bool {
    0 <= i && i + sub.len() <= s.len() && s.subrange(i, i + sub.len()) == sub
}

/// The first position at or after `i` where `sub` occurs, or -1.
pub open spec fn find_from(s: Seq<char>, sub: Seq<char>, i: int) -> int
    decreases s.len() + 1 - i,
{
    if i < 0 || i + sub.len() > s.len() {
        -1
    } else if occurs_at(s, sub, i) {
        i
    } else {
        find_from(s, sub, i + 1)
    }
}

/// The first position where `sub` occurs in `s`, or -1 (`str::find`).
pub open spec fn find_spec(s: Seq<char>, sub: Seq<char>) -> int {
    find_from(s, sub, 0)
}

/// The last position at or before `i` where `sub` occurs, or -1.
pub open spec fn rfind_from(s: Seq<char>, sub: Seq<char>, i: int) -> int
    decreases i + 1,
{
    if i < 0 {
        -1
    } else if occurs_at(s, sub, i) {
        i
    } else {
        rfind_from(s, sub, i - 1)
    }
}

/// The last position where `sub` occurs in `s`, or -1 (`str::rfind`).
pub open spec fn rfind_spec(s: Seq<char>, sub: Seq<char>) -> int {
    rfind_from(s, sub, s.len() - sub.len())
}

pub proof fn lemma_find_from(s: Seq<char>, sub: Seq<char>, i: int)
    requires
        0 <= i,
    ensures
        find_from(s, sub, i) == -1 || (i <= find_from(s, sub, i) && occurs_at(s, sub, find_from(s, sub, i))),
        forall|j: int| i <= j && (find_from(s, sub, i) == -1 || j < find_from(s, sub, i)) ==> !occurs_at(s, sub, j),
    decreases s.len() + 1 - i,
{
    if i < 0 || i + sub.len() > s.len() {
    } else if occurs_at(s, sub, i) {
    } else {
        lemma_find_from(s, sub, i + 1);
        assert forall|j: int| i <= j && (find_from(s, sub, i) == -1 || j < find_from(s, sub, i)) implies !occurs_at(s, sub, j) by {
            if j > i {
            }
        }
    }
}

pub proof fn lemma_rfind_from(s: Seq<char>, sub: Seq<char>, i: int)
    ensures
        rfind_from(s, sub, i) == -1 || (rfind_from(s, sub, i) <= i && occurs_at(s, sub, rfind_from(s, sub, i))),
        forall|j: int| rfind_from(s, sub, i) < j <= i ==> !occurs_at(s, sub, j),
    decreases i + 1,
{
    if i < 0 {
    } else if occurs_at(s, sub, i) {
    } else {
        lemma_rfind_from(s, sub, i - 1);
    }
}

/// Whether `sub` occurs in `s` at `i`, compared character by character.
pub(crate) fn occurs_at_exec(s: &[char], sub: &[char], i: usize) -> (r: bool)
    requires
        i <= s@.len(),
    ensures
        r == occurs_at(s@, sub@, i as int),
{
    if sub.len() > s.len() - i {
        return false;
    }
    let mut k: usize = 0;
    while k < sub.len()
        invariant
            i + sub@.len() <= s@.len(),
            i + sub.len() <= s.len(),
            k <= sub@.len(),
            forall|j: int| 0 <= j < k ==> s@[i + j] == sub@[j],
        decreases sub.len() - k,
    {
        if s[i + k] != sub[k] {
            assert(s@.subrange(i as int, i + sub@.len())[k as int] != sub@[k as int]);
            return false;
        }
        k = k + 1;
    }
    assert(s@.subrange(i as int, i + sub@.len()) =~= sub@);
    true
}

/// First position of `sub` in `s`.
pub fn find_pos(s: &[char], sub: &[char]) -> (r: Option<usize>)
    ensures
        match r {
            Some(i) => i as int == find_spec(s@, sub@),
            None => find_spec(s@, sub@) == -1,
        },
{
    if sub.len() == 0 {
        assert(s@.subrange(0, 0) =~= sub@);
        return Some(0);
    }
    let mut i: usize = 0;
    while i <= s.len() && sub.len() <= s.len() - i
        invariant
            sub@.len() > 0,
            i <= s@.len(),
            find_from(s@, sub@, i as int) == find_spec(s@, sub@),
        decreases s@.len() + 1 - i,
    {
        if occurs_at_exec(s, sub, i) {
            return Some(i);
        }
        i = i + 1;
    }
    None
}

/// Last position of `sub` in `s`.
pub fn rfind_pos(s: &[char], sub: &[char]) -> (r: Option<usize>)
    ensures
        match r {
            Some(i) => i as int == rfind_spec(s@, sub@),
            None => rfind_spec(s@, sub@) == -1,
        },
{
    if sub.len() > s.len() {
        assert(rfind_from(s@, sub@, s@.len() - sub@.len()) == -1);
        return None;
    }
    let mut i: usize = s.len() - sub.len();
    loop
        invariant
            i + sub@.len() <= s@.len(),
            rfind_from(s@, sub@, i as int) == rfind_spec(s@, sub@),
        decreases i,
    {
        if occurs_at_exec(s, sub, i) {
            return Some(i);
        }
        if i == 0 {
            assert(rfind_from(s@, sub@, -1) == -1);
            return None;
        }
        i = i - 1;
    }
}

/// Character index of the first occurrence of `sub` in `s`, or -1.
pub fn char_find(s: &str, sub: &str) -> (r: i64)
    requires
        s@.len() < i64::MAX,
    ensures
        r == find_spec(s@, sub@),
{
    let a = chars_of(s);
    let b = chars_of(sub);
    match find_pos(a.as_slice(), b.as_slice()) {
        Some(i) => {
            proof { lemma_find_from(a@, b@, 0); }
            i as i64
        },
        None => -1,
    }
}

/// Character index of the last occurrence of `sub` in `s`, or -1.
pub fn char_rfind(s: &str, sub: &str) -> (r: i64)
    requires
        s@.len() < i64::MAX,
    ensures
        r == rfind_spec(s@, sub@),
{
    let a = chars_of(s);
    let b = chars_of(sub);
    match rfind_pos(a.as_slice(), b.as_slice()) {
        Some(i) => {
            proof { lemma_rfind_from(a@, b@, a@.len() - b@.len()); }
            i as i64
        },
        None => -1,
    }
}

// ---------------------------------------------------------------------------
// Counting

/// Non-overlapping occurrences of a non-empty `sub` from position `i` on,
/// taken left to right.
pub open spec fn count_from(s: Seq<char>, sub: Seq<char>, i: int) -> nat
    decreases s.len() + 1 - i,
{
    if sub.len() == 0 || i < 0 || i + sub.len() > s.len() {
        0
    } else if occurs_at(s, sub, i) {
        1 + count_from(s, sub, i + sub.len())
    } else {
        count_from(s, sub, i + 1)
    }
}

/// The `count` method: non-overlapping occurrences, or one more than the
/// length for the empty substring.
pub open spec fn count_spec(s: Seq<char>, sub: Seq<char>) -> int {
    if sub.len() == 0 {
        s.len() + 1int
    } else {
        count_from(s, sub, 0) as int
    }
}

proof fn lemma_count_bound(s: Seq<char>, sub: Seq<char>, i: int)
    requires
        0 <= i <= s.len() + 1,
    ensures
        count_from(s, sub, i) <= s.len() + 1 - i,
    decreases s.len() + 1 - i,
{
    if sub.len() == 0 || i < 0 || i + sub.len() > s.len() {
    } else if occurs_at(s, sub, i) {
        lemma_count_bound(s, sub, i + sub.len());
    } else {
        lemma_count_bound(s, sub, i + 1);
    }
}

/// Number of non-overlapping occurrences of `sub` in `s`.
pub fn count_sub(s: &str, sub: &str) -> (r: i64)
    requires
        s@.len() < i64::MAX,
    ensures
        r == count_spec(s@, sub@),
{
    let a = chars_of(s);
    let b = chars_of(sub);
    if b.len() == 0 {
        return (a.len() as i64) + 1;
    }
    let mut n: i64 = 0;
    let mut i: usize = 0;
    proof { lemma_count_bound(a@, b@, 0); }
    while i <= a.len() && b.len() <= a.len() - i
        invariant
            b@.len() > 0,
            a@.len() < i64::MAX,
            i <= a@.len() + 1,
            n + count_from(a@, b@, i as int) == count_from(a@, b@, 0),
            count_from(a@, b@, 0) <= a@.len() + 1,
        decreases a@.len() + 1 - i,
    {
        if occurs_at_exec(a.as_slice(), b.as_slice(), i) {
            n = n + 1;
            i = i + b.len();
        } else {
            i = i + 1;
        }
    }
    n
}

// ---------------------------------------------------------------------------
// Splitting and joining

/// The pieces of `s` from `start` on, cut at the non-overlapping occurrences of a
/// non-empty `d` found scanning from `i` (`str::split`).
pub open spec fn split_from(s: Seq<char>, d: Seq<char>, start: int, i: int) -> Seq<Seq<char>>
    decreases s.len() + 1 - i,
{
    if d.len() == 0 || i + d.len() > s.len() {
        seq![s.subrange(start, s.len() as int)]
    } else if occurs_at(s, d, i) {
        seq![s.subrange(start, i)] + split_from(s, d, i + d.len(), i + d.len())
    } else {
        split_from(s, d, start, i + 1)
    }
}

/// Splitting at the empty string: an empty piece, one piece per character,
/// and an empty piece.
pub open spec fn split_empty(s: Seq<char>) -> Seq<Seq<char>> {
    seq![Seq::<char>::empty()] + Seq::new(s.len(), |k: int| seq![s[k]]) + seq![Seq::<char>::empty()]
}

/// `s.split(d)`.
pub open spec fn split_spec(s: Seq<char>, d: Seq<char>) -> Seq<Seq<char>> {
    if d.len() == 0 {
        split_empty(s)
    } else {
        split_from(s, d, 0, 0)
    }
}

/// The pieces of `s[0..end]`, cut at the occurrences of a non-empty `d` found
/// scanning leftwards from position `j`, in left-to-right order.
pub open spec fn rsplit_to(s: Seq<char>, d: Seq<char>, end: int, j: int) -> Seq<Seq<char>>
    decreases j + d.len(),
{
    if d.len() == 0 || j < 0 {
        seq![s.subrange(0, end)]
    } else if occurs_at(s, d, j) {
        rsplit_to(s, d, j, j - d.len()).push(s.subrange(j + d.len(), end))
    } else {
        rsplit_to(s, d, end, j - 1)
    }
}

/// `s.rsplit(d)`, put back in left-to-right order.
pub open spec fn rsplit_spec(s: Seq<char>, d: Seq<char>) -> Seq<Seq<char>> {
    if d.len() == 0 {
        split_empty(s)
    } else {
        rsplit_to(s, d, s.len() as int, s.len() - d.len())
    }
}

/// The maximal runs of non-whitespace characters of `s` from `i` on, where
/// `cur` is the run already begun (`str::split_whitespace`).
pub open spec fn words_from(s: Seq<char>, i: int, cur: Seq<char>) -> Seq<Seq<char>>
    decreases s.len() - i,
{
    if i >= s.len() {
        if cur.len() > 0 { seq![cur] } else { Seq::empty() }
    } else if is_whitespace(s[i]) {
        (if cur.len() > 0 { seq![cur] } else { Seq::empty() }) + words_from(s, i + 1, Seq::empty())
    } else {
        words_from(s, i + 1, cur.push(s[i]))
    }
}

/// `s.split_whitespace()`.
pub open spec fn words(s: Seq<char>) -> Seq<Seq<char>> {
    words_from(s, 0, Seq::empty())
}

/// The pieces joined with `sep` between neighbours.
pub open spec fn join_spec(items: Seq<Seq<char>>, sep: Seq<char>) -> Seq<char>
    decreases items.len(),
{
    if items.len() == 0 {
        Seq::empty()
    } else if items.len() == 1 {
        items[0]
    } else {
        join_spec(items.drop_last(), sep) + sep + items.last()
    }
}

/// The characters of each string.
pub open spec fn views(v: Seq<String>) -> Seq<Seq<char>> {
    v.map_values(|x: String| x@)
}

proof fn lemma_join_prepend(x: Seq<char>, rest: Seq<Seq<char>>, sep: Seq<char>)
    requires
        rest.len() > 0,
    ensures
        join_spec(seq![x] + rest, sep) == x + sep + join_spec(rest, sep),
    decreases rest.len(),
{
    let all = seq![x] + rest;
    assert(all.last() == rest.last());
    if rest.len() == 1 {
        assert(all.drop_last() =~= seq![x]);
        assert(join_spec(seq![x], sep) == x);
        assert(join_spec(rest, sep) == rest[0]);
    } else {
        lemma_join_prepend(x, rest.drop_last(), sep);
        assert(all.drop_last() =~= seq![x] + rest.drop_last());
        assert(x + sep + join_spec(rest.drop_last(), sep) + sep + rest.last()
            =~= x + sep + (join_spec(rest.drop_last(), sep) + sep + rest.last()));
    }
}

proof fn lemma_join_split_from(s: Seq<char>, d: Seq<char>, start: int, i: int)
    requires
        d.len() > 0,
        0 <= start <= i <= s.len(),
    ensures
        split_from(s, d, start, i).len() > 0,
        join_spec(split_from(s, d, start, i), d) == s.subrange(start, s.len() as int),
    decreases s.len() + 1 - i,
{
    if i + d.len() > s.len() {
    } else if occurs_at(s, d, i) {
        let rest = split_from(s, d, i + d.len(), i + d.len());
        lemma_join_split_from(s, d, i + d.len(), i + d.len());
        lemma_join_prepend(s.subrange(start, i), rest, d);
        assert(s.subrange(start, i) + d + s.subrange(i + d.len(), s.len() as int)
            =~= s.subrange(start, s.len() as int));
    } else {
        lemma_join_split_from(s, d, start, i + 1);
    }
}

proof fn lemma_join_rsplit_to(s: Seq<char>, d: Seq<char>, end: int, j: int)
    requires
        d.len() > 0,
        0 <= end <= s.len(),
        j + d.len() <= end,
    ensures
        rsplit_to(s, d, end, j).len() > 0,
        join_spec(rsplit_to(s, d, end, j), d) == s.subrange(0, end),
    decreases j + d.len(),
{
    if j < 0 {
    } else if occurs_at(s, d, j) {
        let left = rsplit_to(s, d, j, j - d.len());
        lemma_join_rsplit_to(s, d, j, j - d.len());
        assert(left.push(s.subrange(j + d.len(), end)).drop_last() =~= left);
        assert(s.subrange(0, j) + d + s.subrange(j + d.len(), end) =~= s.subrange(0, end));
    } else {
        lemma_join_rsplit_to(s, d, end, j - 1);
    }
}

proof fn lemma_join_chars(s: Seq<char>, k: int)
    requires
        0 <= k <= s.len(),
    ensures
        join_spec(seq![Seq::<char>::empty()] + Seq::new(k as nat, |j: int| seq![s[j]]), Seq::empty())
            == s.take(k),
    decreases k,
{
    let t = seq![Seq::<char>::empty()] + Seq::new(k as nat, |j: int| seq![s[j]]);
    if k == 0 {
        assert(t =~= seq![Seq::<char>::empty()]);
        assert(s.take(0) =~= Seq::<char>::empty());
    } else {
        lemma_join_chars(s, k - 1);
        assert(t.drop_last() =~= seq![Seq::<char>::empty()] + Seq::new((k - 1) as nat, |j: int| seq![s[j]]));
        assert(s.take(k - 1) + Seq::<char>::empty() + seq![s[k - 1]] =~= s.take(k));
    }
}

/// Splitting a text at a separator and joining the pieces with that separator
/// gives the text back; from the left (`split`) and from the right (`rsplit`)
/// alike, and for the empty separator too.
pub proof fn lemma_join_inverts_split(s: Seq<char>, d: Seq<char>)
    ensures
        join_spec(split_spec(s, d), d) == s,
        join_spec(rsplit_spec(s, d), d) == s,
{
    if d.len() == 0 {
        assert(d =~= Seq::<char>::empty());
        lemma_join_chars(s, s.len() as int);
        let t = seq![Seq::<char>::empty()] + Seq::new(s.len(), |j: int| seq![s[j]]);
        assert(split_empty(s) =~= t.push(Seq::<char>::empty()));
        assert(t.push(Seq::<char>::empty()).drop_last() =~= t);
        assert(join_spec(t.push(Seq::<char>::empty()), d) == join_spec(t, d) + d + Seq::<char>::empty());
        assert(s.take(s.len() as int) =~= s);
        assert(s + d + Seq::<char>::empty() =~= s);
    } else {
        lemma_join_split_from(s, d, 0, 0);
        assert(s.subrange(0, s.len() as int) =~= s);
        if s.len() - d.len() + d.len() <= s.len() {
            lemma_join_rsplit_to(s, d, s.len() as int, s.len() - d.len());
        }
    }
}

proof fn lemma_split_from_count(s: Seq<char>, d: Seq<char>, start: int, i: int)
    requires
        d.len() > 0,
        0 <= i,
    ensures
        split_from(s, d, start, i).len() == count_from(s, d, i) + 1,
    decreases s.len() + 1 - i,
{
    if i + d.len() > s.len() {
    } else if occurs_at(s, d, i) {
        lemma_split_from_count(s, d, i + d.len(), i + d.len());
    } else {
        lemma_split_from_count(s, d, start, i + 1);
    }
}

/// Splitting at a separator gives one piece more than the separator is
/// counted (`len(s.split(d)) == s.count(d) + 1`), the empty separator too.
pub proof fn lemma_split_count(s: Seq<char>, d: Seq<char>)
    ensures
        split_spec(s, d).len() == count_spec(s, d) + 1,
{
    if d.len() > 0 {
        lemma_split_from_count(s, d, 0, 0);
    }
}

/// A `String` made of `s[lo..hi]`.
fn piece(s: &[char], lo: usize, hi: usize) -> (r: String)
    requires
        lo <= hi <= s@.len(),
    ensures
        r@ == s@.subrange(lo as int, hi as int),
{
    let mut out: Vec<char> = Vec::new();
    let mut k = lo;
    while k < hi
        invariant
            lo <= k <= hi <= s@.len(),
            out@ == s@.subrange(lo as int, k as int),
        decreases hi - k,
    {
        out.push(s[k]);
        k = k + 1;
        assert(s@.subrange(lo as int, k as int) == s@.subrange(lo as int, k - 1).push(s@[k - 1]));
    }
    string_from_chars(out)
}

/// A `String` made of `s`.
fn whole(s: &Vec<char>) -> (r: String)
    ensures
        r@ == s@,
{
    let mut out: Vec<char> = Vec::new();
    append_chars(&mut out, s);
    string_from_chars(out)
}

/// `s` split at the empty string.
fn split_chars(s: &[char]) -> (r: Vec<String>)
    ensures
        views(r@) == split_empty(s@),
{
    let mut out: Vec<String> = Vec::new();
    out.push(String::new());
    let mut k: usize = 0;
    while k < s.len()
        invariant
            k <= s@.len(),
            views(out@) == seq![Seq::<char>::empty()] + Seq::new(k as nat, |j: int| seq![s@[j]]),
        decreases s@.len() - k,
    {
        let mut one: Vec<char> = Vec::new();
        one.push(s[k]);
        let ghost before = views(out@);
        out.push(string_from_chars(one));
        assert(views(out@) =~= before.push(seq![s@[k as int]]));
        k = k + 1;
        assert(views(out@) =~= seq![Seq::<char>::empty()] + Seq::new(k as nat, |j: int| seq![s@[j]]));
    }
    out.push(String::new());
    assert(views(out@) =~= split_empty(s@));
    out
}

/// `s.split(sep)`, one `String` per piece.
pub fn split_sep(s: &str, sep: &str) -> (r: Vec<String>)
    ensures
        views(r@) == split_spec(s@, sep@),
{
    let a = chars_of(s);
    let d = chars_of(sep);
    if d.len() == 0 {
        return split_chars(a.as_slice());
    }
    let mut out: Vec<String> = Vec::new();
    let mut start: usize = 0;
    let mut i: usize = 0;
    while i <= a.len() && d.len() <= a.len() - i
        invariant
            d@.len() > 0,
            start <= i <= a@.len(),
            views(out@) + split_from(a@, d@, start as int, i as int) == split_from(a@, d@, 0, 0),
        decreases a@.len() + 1 - i,
    {
        if occurs_at_exec(a.as_slice(), d.as_slice(), i) {
            let p = piece(a.as_slice(), start, i);
            let ghost before = views(out@);
            out.push(p);
            assert(views(out@) =~= before.push(p@));
            i = i + d.len();
            start = i;
            assert(before + (seq![p@] + split_from(a@, d@, i as int, i as int))
                =~= before.push(p@) + split_from(a@, d@, i as int, i as int));
        } else {
            i = i + 1;
        }
    }
    let p = piece(a.as_slice(), start, a.len());
    let ghost before = views(out@);
    out.push(p);
    assert(views(out@) =~= before.push(p@));
    assert(before + seq![p@] =~= before.push(p@));
    out
}

/// `s.rsplit(sep)`, put back in left-to-right order.
pub fn rsplit_sep(s: &str, sep: &str) -> (r: Vec<String>)
    ensures
        views(r@) == rsplit_spec(s@, sep@),
{
    let a = chars_of(s);
    let d = chars_of(sep);
    if d.len() == 0 {
        return split_chars(a.as_slice());
    }
    let mut out: Vec<String> = Vec::new();
    if d.len() > a.len() {
        out.push(whole(&a));
        assert(a@.subrange(0, a@.len() as int) =~= a@);
        assert(views(out@) =~= seq![a@]);
        return out;
    }
    let mut end: usize = a.len();
    let mut j: usize = a.len() - d.len();
    loop
        invariant
            a@ == s@,
            d@ == sep@,
            d@.len() > 0,
            j + d@.len() <= end <= a@.len(),
            rsplit_to(a@, d@, end as int, j as int) + views(out@)
                == rsplit_to(a@, d@, a@.len() as int, a@.len() - d@.len()),
        decreases j,
    {
        let ghost e0 = end as int;
        if occurs_at_exec(a.as_slice(), d.as_slice(), j) {
            assert(rsplit_to(a@, d@, e0, j as int) == rsplit_to(a@, d@, j as int, j - d@.len()).push(
                a@.subrange(j + d@.len(), e0)));
            let p = piece(a.as_slice(), j + d.len(), end);
            let ghost before = views(out@);
            out.insert(0, p);
            assert(views(out@) =~= seq![p@] + before);
            end = j;
            assert(rsplit_to(a@, d@, j as int, j - d@.len()).push(p@) + before
                =~= rsplit_to(a@, d@, j as int, j - d@.len()) + views(out@));
            if j < d.len() {
                assert(rsplit_to(a@, d@, j as int, j - d@.len()) == seq![a@.subrange(0, j as int)]);
                let q = piece(a.as_slice(), 0, end);
                let ghost mid = views(out@);
                out.insert(0, q);
                assert(views(out@) =~= seq![q@] + mid);
                assert(views(out@) == rsplit_to(a@, d@, j as int, j - d@.len()) + mid);
                assert(views(out@) == rsplit_to(a@, d@, e0, j as int) + before);
                assert(views(out@) == rsplit_to(a@, d@, a@.len() as int, a@.len() - d@.len()));
                return out;
            }
            j = j - d.len();
        } else {
            assert(rsplit_to(a@, d@, e0, j as int) == rsplit_to(a@, d@, e0, j - 1));
            if j == 0 {
                assert(rsplit_to(a@, d@, e0, -1) == seq![a@.subrange(0, e0)]);
                let q = piece(a.as_slice(), 0, end);
                let ghost mid = views(out@);
                out.insert(0, q);
                assert(views(out@) =~= seq![q@] + mid);
                assert(views(out@) == rsplit_to(a@, d@, e0, j as int) + mid);
                assert(views(out@) == rsplit_to(a@, d@, a@.len() as int, a@.len() - d@.len()));
                return out;
            }
            j = j - 1;
        }
    }
}

/// `s.split_whitespace()`, one `String` per word.
pub fn split_whitespace(s: &str) -> (r: Vec<String>)
    ensures
        views(r@) == words(s@),
{
    let a = chars_of(s);
    let mut out: Vec<String> = Vec::new();
    let mut cur: Vec<char> = Vec::new();
    let mut i: usize = 0;
    while i < a.len()
        invariant
            i <= a@.len(),
            views(out@) + words_from(a@, i as int, cur@) == words(a@),
        decreases a@.len() - i,
    {
        if is_whitespace_exec(a[i]) {
            let ghost before = views(out@);
            if cur.len() > 0 {
                out.push(whole(&cur));
                assert(views(out@) =~= before.push(cur@));
                assert(before + (seq![cur@] + words_from(a@, i + 1, Seq::empty()))
                    =~= views(out@) + words_from(a@, i + 1, Seq::empty()));
            } else {
                assert(Seq::<Seq<char>>::empty() + words_from(a@, i + 1, Seq::empty())
                    =~= words_from(a@, i + 1, Seq::empty()));
            }
            cur = Vec::new();
        } else {
            cur.push(a[i]);
        }
        i = i + 1;
    }
    if cur.len() > 0 {
        let ghost before = views(out@);
        out.push(whole(&cur));
        assert(views(out@) =~= before.push(cur@));
        assert(before + seq![cur@] =~= before.push(cur@));
    } else {
        assert(views(out@) + Seq::<Seq<char>>::empty() =~= views(out@));
    }
    out
}

/// The strings joined with `sep` between neighbours.
pub fn join_strings(items: &Vec<String>, sep: &str) -> (r: String)
    ensures
        r@ == join_spec(views(items@), sep@),
{
    let d = chars_of(sep);
    let mut out: Vec<char> = Vec::new();
    let mut i: usize = 0;
    while i < items.len()
        invariant
            i <= items@.len(),
            d@ == sep@,
            out@ == join_spec(views(items@).take(i as int), sep@),
        decreases items@.len() - i,
    {
        let ghost prev = views(items@).take(i as int);
        if i > 0 {
            append_chars(&mut out, &d);
        }
        let piece = chars_of(items[i].as_str());
        append_chars(&mut out, &piece);
        i = i + 1;
        proof {
            let now = views(items@).take(i as int);
            assert(now.drop_last() =~= prev);
            if i == 1 {
                assert(prev =~= Seq::<Seq<char>>::empty());
                assert(out@ =~= now[0]);
            }
        }
    }
    assert(views(items@).take(items@.len() as int) =~= views(items@));
    string_from_chars(out)
}

// ---------------------------------------------------------------------------
// Replacing

/// `s[start..]` with the non-overlapping occurrences of a non-empty `o` found
/// scanning from `i` replaced by `n`.
pub open spec fn replace_from(s: Seq<char>, o: Seq<char>, n: Seq<char>, start: int, i: int) -> Seq<char>
    decreases s.len() + 1 - i,
{
    if o.len() == 0 || i + o.len() > s.len() {
        s.subrange(start, s.len() as int)
    } else if occurs_at(s, o, i) {
        s.subrange(start, i) + n + replace_from(s, o, n, i + o.len(), i + o.len())
    } else {
        replace_from(s, o, n, start, i + 1)
    }
}

/// Replacing the empty string: `n` before every character and at the end.
pub open spec fn replace_empty(s: Seq<char>, n: Seq<char>) -> Seq<char>
    decreases s.len(),
{
    if s.len() == 0 {
        n
    } else {
        n + seq![s[0]] + replace_empty(s.skip(1), n)
    }
}

/// `s.replace(o, n)`.
pub open spec fn replace_spec(s: Seq<char>, o: Seq<char>, n: Seq<char>) -> Seq<char> {
    if o.len() == 0 {
        replace_empty(s, n)
    } else {
        replace_from(s, o, n, 0, 0)
    }
}

/// `s` with every non-overlapping occurrence of `o` replaced by `n`.
pub fn replace_all(s: &[char], o: &[char], n: &Vec<char>) -> (r: Vec<char>)
    ensures
        r@ == replace_spec(s@, o@, n@),
{
    let mut out: Vec<char> = Vec::new();
    if o.len() == 0 {
        let mut k: usize = 0;
        assert(s@.skip(0) =~= s@);
        assert(out@ + replace_empty(s@.skip(0), n@) =~= replace_empty(s@, n@));
        while k < s.len()
            invariant
                k <= s@.len(),
                out@ + replace_empty(s@.skip(k as int), n@) == replace_empty(s@, n@),
            decreases s@.len() - k,
        {
            let ghost before = out@;
            append_chars(&mut out, n);
            out.push(s[k]);
            assert(s@.skip(k as int).skip(1) =~= s@.skip(k + 1));
            assert(before + (n@ + seq![s@[k as int]] + replace_empty(s@.skip(k + 1), n@))
                =~= out@ + replace_empty(s@.skip(k + 1), n@));
            k = k + 1;
        }
        assert(s@.skip(k as int) =~= Seq::<char>::empty());
        append_chars(&mut out, n);
        return out;
    }
    let mut start: usize = 0;
    let mut i: usize = 0;
    while i <= s.len() && o.len() <= s.len() - i
        invariant
            o@.len() > 0,
            start <= i <= s@.len(),
            out@ + replace_from(s@, o@, n@, start as int, i as int) == replace_from(s@, o@, n@, 0, 0),
        decreases s@.len() + 1 - i,
    {
        if occurs_at_exec(s, o, i) {
            let ghost before = out@;
            let mut k = start;
            while k < i
                invariant
                    start <= k <= i <= s@.len(),
                    out@ == before + s@.subrange(start as int, k as int),
                decreases i - k,
            {
                out.push(s[k]);
                k = k + 1;
                assert(s@.subrange(start as int, k as int) == s@.subrange(start as int, k - 1).push(s@[k - 1]));
            }
            append_chars(&mut out, n);
            let ghost piece = s@.subrange(start as int, i as int);
            i = i + o.len();
            start = i;
            assert(before + (piece + n@ + replace_from(s@, o@, n@, i as int, i as int))
                =~= out@ + replace_from(s@, o@, n@, i as int, i as int));
        } else {
            i = i + 1;
        }
    }
    let ghost before = out@;
    let mut k = start;
    while k < s.len()
        invariant
            start <= k <= s@.len(),
            out@ == before + s@.subrange(start as int, k as int),
        decreases s@.len() - k,
    {
        out.push(s[k]);
        k = k + 1;
        assert(s@.subrange(start as int, k as int) == s@.subrange(start as int, k - 1).push(s@[k - 1]));
    }
    out
}

// ---------------------------------------------------------------------------
// Stripping, prefixes and partitions

/// `s` without leading whitespace (`str::trim_start`).
pub open spec fn trim_start(s: Seq<char>) -> Seq<char> {
    s.skip(trim_start_index(s, 0))
}

/// `s` without trailing whitespace (`str::trim_end`).
pub open spec fn trim_end(s: Seq<char>) -> Seq<char> {
    s.take(trim_end_index(s, 0, s.len() as int))
}

fn trim_start_chars(s: &[char]) -> (r: Vec<char>)
    ensures
        r@ == trim_start(s@),
{
    proof { lemma_trim_start(s@, 0); }
    let mut a: usize = 0;
    while a < s.len() && is_whitespace_exec(s[a])
        invariant
            a <= s@.len(),
            trim_start_index(s@, a as int) == trim_start_index(s@, 0),
        decreases s@.len() - a,
    {
        a = a + 1;
    }
    let mut out: Vec<char> = Vec::new();
    let mut k = a;
    while k < s.len()
        invariant
            a <= k <= s@.len(),
            out@ == s@.subrange(a as int, k as int),
        decreases s@.len() - k,
    {
        out.push(s[k]);
        k = k + 1;
        assert(s@.subrange(a as int, k as int) == s@.subrange(a as int, k - 1).push(s@[k - 1]));
    }
    out
}

fn trim_end_chars(s: &[char]) -> (r: Vec<char>)
    ensures
        r@ == trim_end(s@),
{
    proof { lemma_trim_end(s@, 0, s@.len() as int); }
    let mut b: usize = s.len();
    while b > 0 && is_whitespace_exec(s[b - 1])
        invariant
            b <= s@.len(),
            trim_end_index(s@, 0, b as int) == trim_end_index(s@, 0, s@.len() as int),
        decreases b,
    {
        b = b - 1;
    }
    let mut out: Vec<char> = Vec::new();
    let mut k: usize = 0;
    while k < b
        invariant
            k <= b <= s@.len(),
            out@ == s@.take(k as int),
        decreases b - k,
    {
        out.push(s[k]);
        k = k + 1;
        assert(s@.take(k as int) == s@.take(k - 1).push(s@[k - 1]));
    }
    out
}

/// Whether `s` begins with `p`.
pub open spec fn starts_with(s: Seq<char>, p: Seq<char>) -> bool {
    p.len() <= s.len() && s.take(p.len() as int) == p
}

/// Whether `s` ends with `p`.
pub open spec fn ends_with(s: Seq<char>, p: Seq<char>) -> bool {
    p.len() <= s.len() && s.skip(s.len() - p.len()) == p
}

fn starts_with_exec(s: &[char], p: &[char]) -> (r: bool)
    ensures
        r == starts_with(s@, p@),
{
    let r = occurs_at_exec(s, p, 0);
    proof {
        if p@.len() <= s@.len() {
            assert(s@.take(p@.len() as int) =~= s@.subrange(0, p@.len() as int));
        }
    }
    r
}

fn ends_with_exec(s: &[char], p: &[char]) -> (r: bool)
    ensures
        r == ends_with(s@, p@),
{
    if p.len() > s.len() {
        return false;
    }
    let r = occurs_at_exec(s, p, s.len() - p.len());
    assert(s@.skip(s@.len() - p@.len()) =~= s@.subrange(s@.len() - p@.len(), s@.len() as int));
    r
}

/// `s` without the prefix `p`, or `s` itself (`removeprefix`).
pub open spec fn remove_prefix(s: Seq<char>, p: Seq<char>) -> Seq<char> {
    if starts_with(s, p) { s.skip(p.len() as int) } else { s }
}

/// `s` without the suffix `p`, or `s` itself (`removesuffix`).
pub open spec fn remove_suffix(s: Seq<char>, p: Seq<char>) -> Seq<char> {
    if ends_with(s, p) { s.take(s.len() - p.len()) } else { s }
}

fn slice_chars(s: &[char], lo: usize, hi: usize) -> (r: Vec<char>)
    requires
        lo <= hi <= s@.len(),
    ensures
        r@ == s@.subrange(lo as int, hi as int),
{
    let mut out: Vec<char> = Vec::new();
    let mut k = lo;
    while k < hi
        invariant
            lo <= k <= hi <= s@.len(),
            out@ == s@.subrange(lo as int, k as int),
        decreases hi - k,
    {
        out.push(s[k]);
        k = k + 1;
        assert(s@.subrange(lo as int, k as int) == s@.subrange(lo as int, k - 1).push(s@[k - 1]));
    }
    out
}

/// `s.partition(sep)`: the text before the first `sep`, `sep`, and the text
/// after it; or `s` and two empty strings when `sep` does not occur.
pub open spec fn partition_spec(s: Seq<char>, sep: Seq<char>) -> (Seq<char>, Seq<char>, Seq<char>) {
    let i = find_spec(s, sep);
    if i >= 0 {
        (s.take(i), sep, s.skip(i + sep.len()))
    } else {
        (s, Seq::empty(), Seq::empty())
    }
}

/// `s.rpartition(sep)`: split at the last `sep`; two empty strings and `s`
/// when `sep` does not occur.
pub open spec fn rpartition_spec(s: Seq<char>, sep: Seq<char>) -> (Seq<char>, Seq<char>, Seq<char>) {
    let i = rfind_spec(s, sep);
    if i >= 0 {
        (s.take(i), sep, s.skip(i + sep.len()))
    } else {
        (Seq::empty(), Seq::empty(), s)
    }
}

/// The three parts of a partition always spell the text again.
pub proof fn lemma_partition_parts(s: Seq<char>, sep: Seq<char>)
    ensures
        partition_spec(s, sep).0 + partition_spec(s, sep).1 + partition_spec(s, sep).2 == s,
        rpartition_spec(s, sep).0 + rpartition_spec(s, sep).1 + rpartition_spec(s, sep).2 == s,
{
    lemma_find_from(s, sep, 0);
    lemma_rfind_from(s, sep, s.len() - sep.len());
    let i = find_spec(s, sep);
    if i >= 0 {
        assert(s.take(i) + sep + s.skip(i + sep.len()) =~= s);
    } else {
        assert(s + Seq::<char>::empty() + Seq::<char>::empty() =~= s);
    }
    let j = rfind_spec(s, sep);
    if j >= 0 {
        assert(s.take(j) + sep + s.skip(j + sep.len()) =~= s);
    } else {
        assert(Seq::<char>::empty() + Seq::<char>::empty() + s =~= s);
    }
}

fn partition_at(s: &[char], sep: &Vec<char>, at: Option<usize>) -> (r: (Vec<char>, Vec<char>, Vec<char>))
    requires
        match at {
            Some(i) => i + sep@.len() <= s@.len(),
            None => true,
        },
    ensures
        match at {
            Some(i) => r.0@ == s@.take(i as int) && r.1@ == sep@ && r.2@ == s@.skip(i + sep@.len()),
            None => r.0@ == s@ && r.1@ == Seq::<char>::empty() && r.2@ == Seq::<char>::empty(),
        },
{
    match at {
        Some(i) => {
            let n = s.len();
            assert(i + sep@.len() <= n);
            let j = i + sep.len();
            let a = slice_chars(s, 0, i);
            let mut b: Vec<char> = Vec::new();
            append_chars(&mut b, sep);
            let c = slice_chars(s, j, s.len());
            assert(a@ =~= s@.take(i as int));
            assert(c@ =~= s@.skip(i + sep@.len()));
            (a, b, c)
        },
        None => {
            let a = slice_chars(s, 0, s.len());
            assert(a@ =~= s@);
            (a, Vec::new(), Vec::new())
        },
    }
}

// ---------------------------------------------------------------------------
// Padding

/// `k` copies of `c`.
pub open spec fn repeat(c: char, k: int) -> Seq<char> {
    Seq::new(k as nat, |_j: int| c)
}

/// Fill columns `center` puts on the left, as Python's `str.center` does:
/// half the padding, one more when both the padding and the width are odd.
pub open spec fn center_left(pad: int, width: int) -> int {
    pad / 2 + (if pad % 2 == 1 && width % 2 == 1 { 1int } else { 0int })
}

/// `s` centred in `width` columns of `fill`.
pub open spec fn center_spec(s: Seq<char>, width: int, fill: char) -> Seq<char> {
    if width <= s.len() {
        s
    } else {
        let pad = width - s.len();
        repeat(fill, center_left(pad, width)) + s + repeat(fill, pad - center_left(pad, width))
    }
}

/// `s` padded on the right to `width` columns (`ljust`).
pub open spec fn ljust_spec(s: Seq<char>, width: int, fill: char) -> Seq<char> {
    if width <= s.len() { s } else { s + repeat(fill, width - s.len()) }
}

/// `s` padded on the left to `width` columns (`rjust`).
pub open spec fn rjust_spec(s: Seq<char>, width: int, fill: char) -> Seq<char> {
    if width <= s.len() { s } else { repeat(fill, width - s.len()) + s }
}

/// `s` padded with zeros to `width` columns, after a leading sign if any.
pub open spec fn zfill_spec(s: Seq<char>, width: int) -> Seq<char> {
    if width <= s.len() {
        s
    } else if s.len() > 0 && (s[0] == '+' || s[0] == '-') {
        seq![s[0]] + repeat('0', width - s.len()) + s.skip(1)
    } else {
        repeat('0', width - s.len()) + s
    }
}

/// Every padding method yields `max(width, len)` characters and keeps the
/// text's characters, in order, where the padding leaves them.
pub proof fn lemma_padding_width(s: Seq<char>, width: int, fill: char)
    ensures
        center_spec(s, width, fill).len() == if width <= s.len() { s.len() as int } else { width },
        ljust_spec(s, width, fill).len() == if width <= s.len() { s.len() as int } else { width },
        rjust_spec(s, width, fill).len() == if width <= s.len() { s.len() as int } else { width },
        zfill_spec(s, width).len() == if width <= s.len() { s.len() as int } else { width },
        ljust_spec(s, width, fill).take(s.len() as int) == s,
        rjust_spec(s, width, fill).skip(rjust_spec(s, width, fill).len() - s.len()) == s,
{
    assert(ljust_spec(s, width, fill).take(s.len() as int) =~= s);
    assert(rjust_spec(s, width, fill).skip(rjust_spec(s, width, fill).len() - s.len()) =~= s);
}

fn push_repeat(out: &mut Vec<char>, c: char, k: usize)
    ensures
        final(out)@ == old(out)@ + repeat(c, k as int),
{
    let mut i: usize = 0;
    while i < k
        invariant
            i <= k,
            out@ == old(out)@ + repeat(c, i as int),
        decreases k - i,
    {
        out.push(c);
        i = i + 1;
        assert(out@ =~= old(out)@ + repeat(c, i as int));
    }
}

/// `s` centred in `width` columns of `fill`.
pub fn pad_center(s: &str, width: usize, fill: char) -> (r: String)
    ensures
        r@ == center_spec(s@, width as int, fill),
{
    let a = chars_of(s);
    let len = a.len();
    if width <= len {
        return string_from_chars(a);
    }
    let pad = width - len;
    let left = pad / 2 + if pad % 2 == 1 && width % 2 == 1 { 1 } else { 0 };
    let right = pad - left;
    let mut out: Vec<char> = Vec::new();
    push_repeat(&mut out, fill, left);
    append_chars(&mut out, &a);
    push_repeat(&mut out, fill, right);
    string_from_chars(out)
}

/// `s` padded on the left with `fill` to `width` columns.
pub fn pad_left(s: &str, width: usize, fill: char) -> (r: String)
    ensures
        r@ == rjust_spec(s@, width as int, fill),
{
    let a = chars_of(s);
    if width <= a.len() {
        return string_from_chars(a);
    }
    let mut out: Vec<char> = Vec::new();
    push_repeat(&mut out, fill, width - a.len());
    append_chars(&mut out, &a);
    string_from_chars(out)
}

/// `s` padded on the right with `fill` to `width` columns.
pub fn pad_right(s: &str, width: usize, fill: char) -> (r: String)
    ensures
        r@ == ljust_spec(s@, width as int, fill),
{
    let a = chars_of(s);
    if width <= a.len() {
        return string_from_chars(a);
    }
    let mut out = a.clone();
    let n = a.len();
    push_repeat(&mut out, fill, width - n);
    string_from_chars(out)
}

/// `s` padded with zeros to `width` columns, keeping a leading sign first.
pub fn zfill(s: &str, width: usize) -> (r: String)
    ensures
        r@ == zfill_spec(s@, width as int),
{
    let a = chars_of(s);
    let len = a.len();
    if width <= len {
        return string_from_chars(a);
    }
    let mut out: Vec<char> = Vec::new();
    if len > 0 && (a[0] == '+' || a[0] == '-') {
        out.push(a[0]);
        push_repeat(&mut out, '0', width - len);
        let rest = slice_chars(a.as_slice(), 1, len);
        append_chars(&mut out, &rest);
        assert(rest@ =~= a@.skip(1));
    } else {
        push_repeat(&mut out, '0', width - len);
        append_chars(&mut out, &a);
    }
    string_from_chars(out)
}

// ---------------------------------------------------------------------------
// Case

/// Each character of `t` lower-cased on its own (`char::to_lowercase`).
pub open spec fn lower_each(t: Seq<char>) -> Seq<char>
    decreases t.len(),
{
    if t.len() == 0 {
        Seq::empty()
    } else {
        lower_each(t.drop_last()) + lower_of(t.last())
    }
}

/// `capitalize`: the first character upper-cased, every other one lower-cased.
pub open spec fn capitalize_spec(s: Seq<char>) -> Seq<char> {
    if s.len() == 0 {
        Seq::empty()
    } else {
        upper_of(s[0]) + lower_each(s.skip(1))
    }
}

/// `title` from position `i` on: a character after whitespace or ASCII
/// punctuation (or at the start) is upper-cased, any other lower-cased;
/// `cap` says whether the next cased position starts a word.
pub open spec fn title_from(s: Seq<char>, i: int, cap: bool) -> Seq<char>
    decreases s.len() - i,
{
    if i < 0 || i >= s.len() {
        Seq::empty()
    } else if is_whitespace(s[i]) || is_ascii_punctuation(s[i]) {
        seq![s[i]] + title_from(s, i + 1, true)
    } else if cap {
        upper_of(s[i]) + title_from(s, i + 1, false)
    } else {
        lower_of(s[i]) + title_from(s, i + 1, false)
    }
}

/// `title`.
pub open spec fn title_spec(s: Seq<char>) -> Seq<char> {
    title_from(s, 0, true)
}

/// One character with its case swapped: lower to upper, upper to lower,
/// anything else kept.
pub open spec fn swap_of(c: char) -> Seq<char> {
    if is_lowercase(c) {
        upper_of(c)
    } else if is_uppercase(c) {
        lower_of(c)
    } else {
        seq![c]
    }
}

/// `swapcase`: every character with its case swapped.
pub open spec fn swap_each(t: Seq<char>) -> Seq<char>
    decreases t.len(),
{
    if t.len() == 0 {
        Seq::empty()
    } else {
        swap_each(t.drop_last()) + swap_of(t.last())
    }
}

/// The scan behind `istitle` from position `i`: `saw` records a cased
/// character seen so far, `expect` that the next cased one must be upper case.
pub open spec fn title_check(s: Seq<char>, i: int, saw: bool, expect: bool) -> bool
    decreases s.len() - i,
{
    if i < 0 || i >= s.len() {
        saw
    } else if is_whitespace(s[i]) || is_ascii_punctuation(s[i]) {
        title_check(s, i + 1, saw, true)
    } else if is_uppercase(s[i]) {
        if !expect { false } else { title_check(s, i + 1, true, false) }
    } else if is_lowercase(s[i]) {
        if expect { false } else { title_check(s, i + 1, true, expect) }
    } else {
        title_check(s, i + 1, saw, expect)
    }
}

/// `istitle`: non-empty, every word starts upper case and goes on lower case,
/// and some character is cased.
pub open spec fn is_title_spec(s: Seq<char>) -> bool {
    s.len() > 0 && title_check(s, 0, false, true)
}

/// `islower`: no upper-case character and at least one lower-case one.
pub open spec fn is_lower_spec(s: Seq<char>) -> bool {
    (forall|i: int| 0 <= i < s.len() ==> !is_uppercase(#[trigger] s[i]))
        && (exists|i: int| 0 <= i < s.len() && is_lowercase(#[trigger] s[i]))
}

/// `isupper`: no lower-case character and at least one upper-case one.
pub open spec fn is_upper_spec(s: Seq<char>) -> bool {
    (forall|i: int| 0 <= i < s.len() ==> !is_lowercase(#[trigger] s[i]))
        && (exists|i: int| 0 <= i < s.len() && is_uppercase(#[trigger] s[i]))
}

/// The first character upper-cased and the rest lower-cased.
pub fn capitalize(s: &str) -> (r: String)
    ensures
        r@ == capitalize_spec(s@),
{
    let a = chars_of(s);
    if a.len() == 0 {
        return String::new();
    }
    let mut out = char_upper(a[0]);
    let mut k: usize = 1;
    assert(a@.subrange(1, 1) =~= Seq::<char>::empty());
    assert(out@ =~= upper_of(a@[0]) + lower_each(a@.subrange(1, 1)));
    while k < a.len()
        invariant
            1 <= k <= a@.len(),
            out@ == upper_of(a@[0]) + lower_each(a@.subrange(1, k as int)),
        decreases a@.len() - k,
    {
        let l = char_lower(a[k]);
        let ghost before = out@;
        append_chars(&mut out, &l);
        k = k + 1;
        assert(a@.subrange(1, k as int).drop_last() =~= a@.subrange(1, k - 1));
        assert(out@ =~= upper_of(a@[0]) + lower_each(a@.subrange(1, k as int)));
    }
    assert(a@.subrange(1, a@.len() as int) =~= a@.skip(1));
    string_from_chars(out)
}

/// Each word's first character upper-cased and the others lower-cased.
pub fn title_case(s: &str) -> (r: String)
    ensures
        r@ == title_spec(s@),
{
    let a = chars_of(s);
    let mut out: Vec<char> = Vec::new();
    let mut cap = true;
    let mut i: usize = 0;
    while i < a.len()
        invariant
            i <= a@.len(),
            out@ + title_from(a@, i as int, cap) == title_spec(a@),
        decreases a@.len() - i,
    {
        let c = a[i];
        let ghost before = out@;
        let ghost piece: Seq<char>;
        if is_whitespace_exec(c) || ascii_punctuation(c) {
            out.push(c);
            cap = true;
            proof { piece = seq![c]; }
        } else if cap {
            let u = char_upper(c);
            append_chars(&mut out, &u);
            cap = false;
            proof { piece = u@; }
        } else {
            let l = char_lower(c);
            append_chars(&mut out, &l);
            proof { piece = l@; }
        }
        i = i + 1;
        assert(before + (piece + title_from(a@, i as int, cap)) =~= out@ + title_from(a@, i as int, cap));
    }
    assert(out@ + title_from(a@, i as int, cap) =~= out@);
    string_from_chars(out)
}

/// Every character with its case swapped.
pub fn swapcase(s: &str) -> (r: String)
    ensures
        r@ == swap_each(s@),
{
    let a = chars_of(s);
    let mut out: Vec<char> = Vec::new();
    let mut k: usize = 0;
    assert(a@.take(0) =~= Seq::<char>::empty());
    while k < a.len()
        invariant
            k <= a@.len(),
            out@ == swap_each(a@.take(k as int)),
        decreases a@.len() - k,
    {
        let c = a[k];
        if char_is_lowercase(c) {
            let u = char_upper(c);
            append_chars(&mut out, &u);
        } else if char_is_uppercase(c) {
            let l = char_lower(c);
            append_chars(&mut out, &l);
        } else {
            out.push(c);
            assert(out@ =~= swap_each(a@.take(k as int)) + seq![c]);
        }
        k = k + 1;
        assert(a@.take(k as int).drop_last() =~= a@.take(k - 1));
    }
    assert(a@.take(a@.len() as int) =~= a@);
    string_from_chars(out)
}

/// Whether `s` is in title case.
pub fn is_title(s: &str) -> (r: bool)
    ensures
        r == is_title_spec(s@),
{
    let a = chars_of(s);
    if a.len() == 0 {
        return false;
    }
    let mut saw = false;
    let mut expect = true;
    let mut i: usize = 0;
    while i < a.len()
        invariant
            i <= a@.len(),
            a@ == s@,
            title_check(a@, i as int, saw, expect) == title_check(a@, 0, false, true),
        decreases a@.len() - i,
    {
        let c = a[i];
        if is_whitespace_exec(c) || ascii_punctuation(c) {
            expect = true;
        } else if char_is_uppercase(c) {
            if !expect {
                return false;
            }
            saw = true;
            expect = false;
        } else if char_is_lowercase(c) {
            if expect {
                return false;
            }
            saw = true;
        }
        i = i + 1;
    }
    saw
}

/// Whether `s` has a lower-case character and no upper-case one.
pub fn is_lower(s: &str) -> (r: bool)
    ensures
        r == is_lower_spec(s@),
{
    let a = chars_of(s);
    let mut has = false;
    let mut i: usize = 0;
    while i < a.len()
        invariant
            i <= a@.len(),
            a@ == s@,
            forall|j: int| 0 <= j < i ==> !is_uppercase(#[trigger] a@[j]),
            has == exists|j: int| 0 <= j < i && is_lowercase(#[trigger] a@[j]),
        decreases a@.len() - i,
    {
        if char_is_uppercase(a[i]) {
            return false;
        }
        if char_is_lowercase(a[i]) {
            has = true;
        }
        i = i + 1;
    }
    has
}

/// Whether `s` has an upper-case character and no lower-case one.
pub fn is_upper(s: &str) -> (r: bool)
    ensures
        r == is_upper_spec(s@),
{
    let a = chars_of(s);
    let mut has = false;
    let mut i: usize = 0;
    while i < a.len()
        invariant
            i <= a@.len(),
            a@ == s@,
            forall|j: int| 0 <= j < i ==> !is_lowercase(#[trigger] a@[j]),
            has == exists|j: int| 0 <= j < i && is_uppercase(#[trigger] a@[j]),
        decreases a@.len() - i,
    {
        if char_is_lowercase(a[i]) {
            return false;
        }
        if char_is_uppercase(a[i]) {
            has = true;
        }
        i = i + 1;
    }
    has
}

// ---------------------------------------------------------------------------
// Character classes

/// The classes that `isdigit`, `isalpha`, `isalnum`, `isspace` and `isascii`
/// ask every character to belong to.
#[derive(Debug, PartialEq)]
pub enum CharClass {
    Digit,
    Alpha,
    Alnum,
    Space,
    Ascii,
}

pub open spec fn in_class(cls: CharClass, c: char) -> bool {
    match cls {
        CharClass::Digit => '0' <= c <= '9',
        CharClass::Alpha => is_alphabetic(c),
        CharClass::Alnum => is_alphanumeric(c),
        CharClass::Space => is_whitespace(c),
        CharClass::Ascii => c <= '\u{7f}',
    }
}

/// Whether every character of `s` is in `cls`.
pub open spec fn all_in(s: Seq<char>, cls: CharClass) -> bool {
    forall|i: int| 0 <= i < s.len() ==> in_class(cls, #[trigger] s[i])
}

fn in_class_exec(cls: &CharClass, c: char) -> (r: bool)
    ensures
        r == in_class(*cls, c),
{
    match cls {
        CharClass::Digit => '0' <= c && c <= '9',
        CharClass::Alpha => char_is_alphabetic(c),
        CharClass::Alnum => char_is_alphanumeric(c),
        CharClass::Space => is_whitespace_exec(c),
        CharClass::Ascii => c <= '\u{7f}',
    }
}

/// Whether every character of `s` is in `cls`.
pub fn all_in_class(s: &[char], cls: CharClass) -> (r: bool)
    ensures
        r == all_in(s@, cls),
{
    let mut i: usize = 0;
    while i < s.len()
        invariant
            i <= s@.len(),
            forall|j: int| 0 <= j < i ==> in_class(cls, #[trigger] s@[j]),
        decreases s@.len() - i,
    {
        if !in_class_exec(&cls, s[i]) {
            return false;
        }
        i = i + 1;
    }
    true
}

// ---------------------------------------------------------------------------
// Method calls

/// An argument of a string method, holding what the methods read of it.
#[derive(Debug, PartialEq)]
pub enum StrArg {
    Str(String),
    Int(i64),
    /// A list, each item already rendered as the program prints it.
    List(Vec<String>),
    /// Any other kind of value.
    Other,
}

/// The mathematical reading of a [`StrArg`].
pub enum ArgView {
    Str(Seq<char>),
    Int(int),
    List(Seq<Seq<char>>),
    Other,
}

impl View for StrArg {
    type V = ArgView;

    open spec fn view(&self) -> ArgView {
        match self {
            StrArg::Str(t) => ArgView::Str(t@),
            StrArg::Int(n) => ArgView::Int(*n as int),
            StrArg::List(v) => ArgView::List(views(v@)),
            StrArg::Other => ArgView::Other,
        }
    }
}

/// What a string method returns.
#[derive(Debug, PartialEq)]
pub enum StrValue {
    Str(String),
    Int(i64),
    Bool(bool),
    List(Vec<String>),
}

/// The mathematical reading of a [`StrValue`].
pub enum ValueView {
    Str(Seq<char>),
    Int(int),
    Bool(bool),
    List(Seq<Seq<char>>),
}

impl View for StrValue {
    type V = ValueView;

    open spec fn view(&self) -> ValueView {
        match self {
            StrValue::Str(t) => ValueView::Str(t@),
            StrValue::Int(n) => ValueView::Int(*n as int),
            StrValue::Bool(b) => ValueView::Bool(*b),
            StrValue::List(v) => ValueView::List(views(v@)),
        }
    }
}

pub open spec fn arg_views(args: Seq<StrArg>) -> Seq<ArgView> {
    args.map_values(|a: StrArg| a@)
}

/// `method expects N argument(s) but got M` (N written `min-max` for a range).
pub open spec fn arity_error(method: Seq<char>, min: nat, max: nat, got: nat) -> Seq<char> {
    method + " expects "@ + (if min == max { decimal(min) } else { decimal(min) + "-"@ + decimal(max) })
        + " argument(s) but got "@ + decimal(got)
}

/// `res` when the call has between `min` and `max` arguments, else the
/// argument-count error.
pub open spec fn with_arity(
    method: Seq<char>,
    args: Seq<ArgView>,
    min: nat,
    max: nat,
    res: Result<ValueView, Seq<char>>,
) -> Result<ValueView, Seq<char>> {
    if min <= args.len() <= max { res } else { Err(arity_error(method, min, max, args.len())) }
}

/// The text of a string argument.
pub open spec fn string_arg(method: Seq<char>, a: ArgView) -> Result<Seq<char>, Seq<char>> {
    match a {
        ArgView::Str(t) => Ok(t),
        _ => Err("'"@ + method + "' expects a string argument"@),
    }
}

/// The value of an integer argument.
pub open spec fn int_arg(method: Seq<char>, a: ArgView) -> Result<int, Seq<char>> {
    match a {
        ArgView::Int(n) => Ok(n),
        _ => Err("'"@ + method + "' expects an integer argument"@),
    }
}

/// The fill character of a padding method: the second argument, a string of
/// one character, or a space when there is none.
pub open spec fn fill_arg(method: Seq<char>, args: Seq<ArgView>) -> Result<char, Seq<char>> {
    if args.len() < 2 {
        Ok(' ')
    } else {
        match string_arg(method, args[1]) {
            Err(e) => Err(e),
            Ok(t) => if t.len() == 1 {
                Ok(t[0])
            } else {
                Err("'"@ + method + "' fill character must be a single character"@)
            },
        }
    }
}

/// A padding width: negative widths count as zero.
pub open spec fn width_of(n: int) -> int {
    (if n < 0 { 0 } else { n }) as usize as int
}

/// A method that reads one string argument and computes with it.
pub open spec fn on_string(
    method: Seq<char>,
    args: Seq<ArgView>,
    f: spec_fn(Seq<char>) -> ValueView,
) -> Result<ValueView, Seq<char>> {
    with_arity(method, args, 1, 1, match string_arg(method, args[0]) {
        Ok(t) => Ok(f(t)),
        Err(e) => Err(e),
    })
}

/// A padding method: a width, an optional fill character.
pub open spec fn on_padding(
    method: Seq<char>,
    args: Seq<ArgView>,
    f: spec_fn(int, char) -> Seq<char>,
) -> Result<ValueView, Seq<char>> {
    with_arity(method, args, 1, 2, match int_arg(method, args[0]) {
        Err(e) => Err(e),
        Ok(n) => match fill_arg(method, args) {
            Err(e) => Err(e),
            Ok(c) => Ok(ValueView::Str(f(width_of(n), c))),
        },
    })
}

pub open spec fn triple(p: (Seq<char>, Seq<char>, Seq<char>)) -> ValueView {
    ValueView::List(seq![p.0, p.1, p.2])
}

/// What `s.method(args)` gives: a value, or the message of the runtime error
/// it stops with.
pub open spec fn string_method(s: Seq<char>, m: Seq<char>, args: Seq<ArgView>) -> Result<ValueView, Seq<char>> {
    if m == "strip"@ {
        with_arity(m, args, 0, 0, Ok(ValueView::Str(trim(s))))
    } else if m == "lstrip"@ {
        with_arity(m, args, 0, 0, Ok(ValueView::Str(trim_start(s))))
    } else if m == "rstrip"@ {
        with_arity(m, args, 0, 0, Ok(ValueView::Str(trim_end(s))))
    } else if m == "upper"@ {
        with_arity(m, args, 0, 0, Ok(ValueView::Str(upper_str(s))))
    } else if m == "lower"@ {
        with_arity(m, args, 0, 0, Ok(ValueView::Str(lower_str(s))))
    } else if m == "capitalize"@ {
        with_arity(m, args, 0, 0, Ok(ValueView::Str(capitalize_spec(s))))
    } else if m == "title"@ {
        with_arity(m, args, 0, 0, Ok(ValueView::Str(title_spec(s))))
    } else if m == "swapcase"@ {
        with_arity(m, args, 0, 0, Ok(ValueView::Str(swap_each(s))))
    } else if m == "join"@ {
        with_arity(m, args, 1, 1, match args[0] {
            ArgView::List(items) => Ok(ValueView::Str(join_spec(items, s))),
            _ => Err("'join' expects a list argument"@),
        })
    } else if m == "len"@ {
        with_arity(m, args, 0, 0, Ok(ValueView::Int(s.len() as int)))
    } else {
        search_method(s, m, args)
    }
}

/// The searching and splitting methods.
pub open spec fn search_method(s: Seq<char>, m: Seq<char>, args: Seq<ArgView>) -> Result<ValueView, Seq<char>> {
    if m == "startswith"@ {
        on_string(m, args, |p: Seq<char>| ValueView::Bool(starts_with(s, p)))
    } else if m == "endswith"@ {
        on_string(m, args, |p: Seq<char>| ValueView::Bool(ends_with(s, p)))
    } else if m == "split"@ {
        with_arity(m, args, 0, 1, if args.len() == 0 {
            Ok(ValueView::List(words(s)))
        } else {
            match string_arg(m, args[0]) {
                Ok(d) => Ok(ValueView::List(split_spec(s, d))),
                Err(e) => Err(e),
            }
        })
    } else if m == "rsplit"@ {
        with_arity(m, args, 0, 1, if args.len() == 0 {
            Ok(ValueView::List(words(s)))
        } else {
            match string_arg(m, args[0]) {
                Ok(d) => Ok(ValueView::List(rsplit_spec(s, d))),
                Err(e) => Err(e),
            }
        })
    } else if m == "replace"@ {
        with_arity(m, args, 2, 2, match string_arg(m, args[0]) {
            Err(e) => Err(e),
            Ok(o) => match string_arg(m, args[1]) {
                Err(e) => Err(e),
                Ok(n) => Ok(ValueView::Str(replace_spec(s, o, n))),
            },
        })
    } else if m == "find"@ {
        on_string(m, args, |t: Seq<char>| ValueView::Int(find_spec(s, t)))
    } else if m == "rfind"@ {
        on_string(m, args, |t: Seq<char>| ValueView::Int(rfind_spec(s, t)))
    } else if m == "index"@ || m == "rindex"@ {
        with_arity(m, args, 1, 1, match string_arg(m, args[0]) {
            Err(e) => Err(e),
            Ok(t) => {
                let i = if m == "index"@ { find_spec(s, t) } else { rfind_spec(s, t) };
                if i < 0 { Err("substring not found"@) } else { Ok(ValueView::Int(i)) }
            },
        })
    } else if m == "count"@ {
        on_string(m, args, |t: Seq<char>| ValueView::Int(count_spec(s, t)))
    } else {
        shape_method(s, m, args)
    }
}

/// The classifying, padding and cutting methods.
pub open spec fn shape_method(s: Seq<char>, m: Seq<char>, args: Seq<ArgView>) -> Result<ValueView, Seq<char>> {
    if m == "isdigit"@ {
        with_arity(m, args, 0, 0, Ok(ValueView::Bool(s.len() > 0 && all_in(s, CharClass::Digit))))
    } else if m == "isalpha"@ {
        with_arity(m, args, 0, 0, Ok(ValueView::Bool(s.len() > 0 && all_in(s, CharClass::Alpha))))
    } else if m == "isalnum"@ {
        with_arity(m, args, 0, 0, Ok(ValueView::Bool(s.len() > 0 && all_in(s, CharClass::Alnum))))
    } else if m == "isspace"@ {
        with_arity(m, args, 0, 0, Ok(ValueView::Bool(s.len() > 0 && all_in(s, CharClass::Space))))
    } else if m == "islower"@ {
        with_arity(m, args, 0, 0, Ok(ValueView::Bool(is_lower_spec(s))))
    } else if m == "isupper"@ {
        with_arity(m, args, 0, 0, Ok(ValueView::Bool(is_upper_spec(s))))
    } else if m == "istitle"@ {
        with_arity(m, args, 0, 0, Ok(ValueView::Bool(is_title_spec(s))))
    } else if m == "isascii"@ {
        with_arity(m, args, 0, 0, Ok(ValueView::Bool(all_in(s, CharClass::Ascii))))
    } else if m == "center"@ {
        on_padding(m, args, |w: int, c: char| center_spec(s, w, c))
    } else if m == "ljust"@ {
        on_padding(m, args, |w: int, c: char| ljust_spec(s, w, c))
    } else if m == "rjust"@ {
        on_padding(m, args, |w: int, c: char| rjust_spec(s, w, c))
    } else if m == "zfill"@ {
        with_arity(m, args, 1, 1, match int_arg(m, args[0]) {
            Err(e) => Err(e),
            Ok(n) => Ok(ValueView::Str(zfill_spec(s, width_of(n)))),
        })
    } else if m == "removeprefix"@ {
        on_string(m, args, |p: Seq<char>| ValueView::Str(remove_prefix(s, p)))
    } else if m == "removesuffix"@ {
        on_string(m, args, |p: Seq<char>| ValueView::Str(remove_suffix(s, p)))
    } else if m == "partition"@ {
        on_string(m, args, |p: Seq<char>| triple(partition_spec(s, p)))
    } else if m == "rpartition"@ {
        on_string(m, args, |p: Seq<char>| triple(rpartition_spec(s, p)))
    } else {
        Err("string has no method '"@ + m + "'"@)
    }
}

fn arity_error_exec(method: &[char], min: usize, max: usize, got: usize) -> (r: Vec<char>)
    ensures
        r@ == arity_error(method@, min as nat, max as nat, got as nat),
{
    let mut out: Vec<char> = Vec::new();
    let ghost m = method@;
    let mut k: usize = 0;
    while k < method.len()
        invariant
            k <= method@.len(),
            out@ == method@.take(k as int),
        decreases method@.len() - k,
    {
        out.push(method[k]);
        k = k + 1;
        assert(method@.take(k as int) == method@.take(k - 1).push(method@[k - 1]));
    }
    assert(method@.take(method@.len() as int) =~= method@);
    append_str(&mut out, " expects ");
    let lo = u64_decimal(min as u64);
    append_chars(&mut out, &lo);
    if min != max {
        append_str(&mut out, "-");
        let hi = u64_decimal(max as u64);
        append_chars(&mut out, &hi);
    }
    append_str(&mut out, " argument(s) but got ");
    let n = u64_decimal(got as u64);
    append_chars(&mut out, &n);
    out
}

fn quoted_error(method: &[char], tail: &str) -> (r: Vec<char>)
    ensures
        r@ == "'"@ + method@ + tail@,
{
    let mut out: Vec<char> = Vec::new();
    append_str(&mut out, "'");
    let mut k: usize = 0;
    let ghost before = out@;
    while k < method.len()
        invariant
            k <= method@.len(),
            out@ == before + method@.take(k as int),
        decreases method@.len() - k,
    {
        out.push(method[k]);
        k = k + 1;
        assert(method@.take(k as int) == method@.take(k - 1).push(method@[k - 1]));
    }
    assert(method@.take(method@.len() as int) =~= method@);
    append_str(&mut out, tail);
    out
}

fn string_arg_exec(method: &[char], a: &StrArg) -> (r: Result<Vec<char>, Vec<char>>)
    ensures
        match (r, string_arg(method@, a@)) {
            (Ok(x), Ok(y)) => x@ == y,
            (Err(x), Err(y)) => x@ == y,
            _ => false,
        },
{
    match a {
        StrArg::Str(t) => Ok(chars_of(t.as_str())),
        _ => Err(quoted_error(method, "' expects a string argument")),
    }
}

fn int_arg_exec(method: &[char], a: &StrArg) -> (r: Result<i64, Vec<char>>)
    ensures
        match (r, int_arg(method@, a@)) {
            (Ok(x), Ok(y)) => x == y,
            (Err(x), Err(y)) => x@ == y,
            _ => false,
        },
{
    match a {
        StrArg::Int(n) => Ok(*n),
        _ => Err(quoted_error(method, "' expects an integer argument")),
    }
}

fn fill_arg_exec(method: &[char], args: &Vec<StrArg>) -> (r: Result<char, Vec<char>>)
    ensures
        match (r, fill_arg(method@, arg_views(args@))) {
            (Ok(x), Ok(y)) => x == y,
            (Err(x), Err(y)) => x@ == y,
            _ => false,
        },
{
    if args.len() < 2 {
        return Ok(' ');
    }
    match string_arg_exec(method, &args[1]) {
        Err(e) => Err(e),
        Ok(t) => if t.len() == 1 {
            Ok(t[0])
        } else {
            Err(quoted_error(method, "' fill character must be a single character"))
        },
    }
}

fn width_exec(n: i64) -> (w: usize)
    ensures
        w as int == width_of(n as int),
{
    let k: i64 = if n < 0 { 0 } else { n };
    k as usize
}

fn str_value(v: Vec<char>) -> (r: StrValue)
    ensures
        r@ == ValueView::Str(v@),
{
    StrValue::Str(string_from_chars(v))
}

fn text_value(v: String) -> (r: StrValue)
    ensures
        r@ == ValueView::Str(v@),
{
    StrValue::Str(v)
}

fn triple_value(p: (Vec<char>, Vec<char>, Vec<char>)) -> (r: StrValue)
    ensures
        r@ == ValueView::List(seq![p.0@, p.1@, p.2@]),
{
    let (a, b, c) = p;
    let mut out: Vec<String> = Vec::new();
    out.push(string_from_chars(a));
    out.push(string_from_chars(b));
    out.push(string_from_chars(c));
    assert(views(out@) =~= seq![a@, b@, c@]);
    StrValue::List(out)
}

/// Calls the string method `method_name` on `s` with `args`.  A call the
/// method does not accept gives the runtime error it stops the program with,
/// formatted for `line`.
pub fn call_string_method(s: &str, method_name: &str, args: &Vec<StrArg>, line: u32) -> (r: Result<StrValue, String>)
    requires
        s@.len() < i64::MAX,
    ensures
        string_method(s@, method_name@, arg_views(args@)) matches Ok(v) ==> r matches Ok(w) && w@ == v,
        string_method(s@, method_name@, arg_views(args@)) matches Err(msg) ==> r matches Err(e)
            && e@ == format_error_spec(ErrorKind::Runtime, line, msg),
{
    match string_method_body(s, method_name, args) {
        Ok(v) => Ok(v),
        Err(msg) => {
            let text = string_from_chars(msg);
            Err(runtime(line, text.as_str()))
        },
    }
}

#[verifier::rlimit(60)]
fn string_method_body(s: &str, method_name: &str, args: &Vec<StrArg>) -> (r: Result<StrValue, Vec<char>>)
    requires
        s@.len() < i64::MAX,
    ensures
        match (r, string_method(s@, method_name@, arg_views(args@))) {
            (Ok(x), Ok(y)) => x@ == y,
            (Err(x), Err(y)) => x@ == y,
            _ => false,
        },
{
    let a = chars_of(s);
    let m = chars_of(method_name);
    let mm = m.as_slice();
    let n = args.len();
    let ghost av = arg_views(args@);
    assert(av.len() == n);
    assert(forall|i: int| 0 <= i < n ==> av[i] == args@[i]@);
    if chars_is(mm, "strip") {
        if n != 0 { return Err(arity_error_exec(mm, 0, 0, n)); }
        Ok(str_value(trim_chars(a.as_slice())))
    } else if chars_is(mm, "lstrip") {
        if n != 0 { return Err(arity_error_exec(mm, 0, 0, n)); }
        Ok(str_value(trim_start_chars(a.as_slice())))
    } else if chars_is(mm, "rstrip") {
        if n != 0 { return Err(arity_error_exec(mm, 0, 0, n)); }
        Ok(str_value(trim_end_chars(a.as_slice())))
    } else if chars_is(mm, "upper") {
        if n != 0 { return Err(arity_error_exec(mm, 0, 0, n)); }
        Ok(text_value(str_to_upper(s)))
    } else if chars_is(mm, "lower") {
        if n != 0 { return Err(arity_error_exec(mm, 0, 0, n)); }
        Ok(text_value(str_to_lower(s)))
    } else if chars_is(mm, "capitalize") {
        if n != 0 { return Err(arity_error_exec(mm, 0, 0, n)); }
        Ok(text_value(capitalize(s)))
    } else if chars_is(mm, "title") {
        if n != 0 { return Err(arity_error_exec(mm, 0, 0, n)); }
        Ok(text_value(title_case(s)))
    } else if chars_is(mm, "swapcase") {
        if n != 0 { return Err(arity_error_exec(mm, 0, 0, n)); }
        Ok(text_value(swapcase(s)))
    } else if chars_is(mm, "join") {
        if n != 1 { return Err(arity_error_exec(mm, 1, 1, n)); }
        match &args[0] {
            StrArg::List(items) => Ok(text_value(join_strings(items, s))),
            _ => {
                let mut e: Vec<char> = Vec::new();
                append_str(&mut e, "'join' expects a list argument");
                Err(e)
            },
        }
    } else if chars_is(mm, "len") {
        if n != 0 { return Err(arity_error_exec(mm, 0, 0, n)); }
        Ok(StrValue::Int(a.len() as i64))
    } else {
        search_method_body(s, &a, &m, args)
    }
}

fn search_method_body(s: &str, a: &Vec<char>, m: &Vec<char>, args: &Vec<StrArg>) -> (r: Result<StrValue, Vec<char>>)
    requires
        s@.len() < i64::MAX,
        a@ == s@,
    ensures
        match (r, search_method(s@, m@, arg_views(args@))) {
            (Ok(x), Ok(y)) => x@ == y,
            (Err(x), Err(y)) => x@ == y,
            _ => false,
        },
{
    let mm = m.as_slice();
    let n = args.len();
    let ghost av = arg_views(args@);
    assert(av.len() == n);
    assert(forall|i: int| 0 <= i < n ==> av[i] == args@[i]@);
    if chars_is(mm, "startswith") {
        if n != 1 { return Err(arity_error_exec(mm, 1, 1, n)); }
        match string_arg_exec(mm, &args[0]) {
            Err(e) => Err(e),
            Ok(p) => Ok(StrValue::Bool(starts_with_exec(a.as_slice(), p.as_slice()))),
        }
    } else if chars_is(mm, "endswith") {
        if n != 1 { return Err(arity_error_exec(mm, 1, 1, n)); }
        match string_arg_exec(mm, &args[0]) {
            Err(e) => Err(e),
            Ok(p) => Ok(StrValue::Bool(ends_with_exec(a.as_slice(), p.as_slice()))),
        }
    } else if chars_is(mm, "split") {
        if n > 1 { return Err(arity_error_exec(mm, 0, 1, n)); }
        if n == 0 {
            return Ok(StrValue::List(split_whitespace(s)));
        }
        match &args[0] {
            StrArg::Str(d) => Ok(StrValue::List(split_sep(s, d.as_str()))),
            _ => Err(quoted_error(mm, "' expects a string argument")),
        }
    } else if chars_is(mm, "rsplit") {
        if n > 1 { return Err(arity_error_exec(mm, 0, 1, n)); }
        if n == 0 {
            return Ok(StrValue::List(split_whitespace(s)));
        }
        match &args[0] {
            StrArg::Str(d) => Ok(StrValue::List(rsplit_sep(s, d.as_str()))),
            _ => Err(quoted_error(mm, "' expects a string argument")),
        }
    } else if chars_is(mm, "replace") {
        if n != 2 { return Err(arity_error_exec(mm, 2, 2, n)); }
        match string_arg_exec(mm, &args[0]) {
            Err(e) => Err(e),
            Ok(o) => match string_arg_exec(mm, &args[1]) {
                Err(e) => Err(e),
                Ok(nw) => Ok(str_value(replace_all(a.as_slice(), o.as_slice(), &nw))),
            },
        }
    } else if chars_is(mm, "find") {
        if n != 1 { return Err(arity_error_exec(mm, 1, 1, n)); }
        match &args[0] {
            StrArg::Str(t) => Ok(StrValue::Int(char_find(s, t.as_str()))),
            _ => Err(quoted_error(mm, "' expects a string argument")),
        }
    } else if chars_is(mm, "rfind") {
        if n != 1 { return Err(arity_error_exec(mm, 1, 1, n)); }
        match &args[0] {
            StrArg::Str(t) => Ok(StrValue::Int(char_rfind(s, t.as_str()))),
            _ => Err(quoted_error(mm, "' expects a string argument")),
        }
    } else if chars_is(mm, "index") || chars_is(mm, "rindex") {
        if n != 1 { return Err(arity_error_exec(mm, 1, 1, n)); }
        match &args[0] {
            StrArg::Str(t) => {
                let i = if chars_is(mm, "index") { char_find(s, t.as_str()) } else { char_rfind(s, t.as_str()) };
                if i < 0 {
                    let mut e: Vec<char> = Vec::new();
                    append_str(&mut e, "substring not found");
                    return Err(e);
                }
                Ok(StrValue::Int(i))
            },
            _ => Err(quoted_error(mm, "' expects a string argument")),
        }
    } else if chars_is(mm, "count") {
        if n != 1 { return Err(arity_error_exec(mm, 1, 1, n)); }
        match &args[0] {
            StrArg::Str(t) => Ok(StrValue::Int(count_sub(s, t.as_str()))),
            _ => Err(quoted_error(mm, "' expects a string argument")),
        }
    } else {
        shape_method_body(s, a, m, args)
    }
}

fn padding_body(s: &str, mm: &[char], args: &Vec<StrArg>, kind: u8) -> (r: Result<StrValue, Vec<char>>)
    requires
        1 <= args@.len() <= 2,
        kind < 3,
    ensures
        match (r, int_arg(mm@, args@[0]@)) {
            (Err(x), Err(y)) => x@ == y,
            (_, Err(_)) => false,
            (r, Ok(w)) => match (r, fill_arg(mm@, arg_views(args@))) {
                (Err(x), Err(y)) => x@ == y,
                (Ok(x), Ok(c)) => x@ == ValueView::Str(
                    if kind == 0 { center_spec(s@, width_of(w), c) }
                    else if kind == 1 { ljust_spec(s@, width_of(w), c) }
                    else { rjust_spec(s@, width_of(w), c) }),
                _ => false,
            },
        },
{
    let w = match int_arg_exec(mm, &args[0]) {
        Err(e) => { return Err(e); },
        Ok(v) => width_exec(v),
    };
    let f = match fill_arg_exec(mm, args) {
        Err(e) => { return Err(e); },
        Ok(c) => c,
    };
    if kind == 0 {
        Ok(text_value(pad_center(s, w, f)))
    } else if kind == 1 {
        Ok(text_value(pad_right(s, w, f)))
    } else {
        Ok(text_value(pad_left(s, w, f)))
    }
}

fn shape_method_body(s: &str, a: &Vec<char>, m: &Vec<char>, args: &Vec<StrArg>) -> (r: Result<StrValue, Vec<char>>)
    requires
        s@.len() < i64::MAX,
        a@ == s@,
    ensures
        match (r, shape_method(s@, m@, arg_views(args@))) {
            (Ok(x), Ok(y)) => x@ == y,
            (Err(x), Err(y)) => x@ == y,
            _ => false,
        },
{
    let mm = m.as_slice();
    let n = args.len();
    let ghost av = arg_views(args@);
    assert(av.len() == n);
    assert(forall|i: int| 0 <= i < n ==> av[i] == args@[i]@);
    if chars_is(mm, "isdigit") {
        if n != 0 { return Err(arity_error_exec(mm, 0, 0, n)); }
        Ok(StrValue::Bool(a.len() > 0 && all_in_class(a.as_slice(), CharClass::Digit)))
    } else if chars_is(mm, "isalpha") {
        if n != 0 { return Err(arity_error_exec(mm, 0, 0, n)); }
        Ok(StrValue::Bool(a.len() > 0 && all_in_class(a.as_slice(), CharClass::Alpha)))
    } else if chars_is(mm, "isalnum") {
        if n != 0 { return Err(arity_error_exec(mm, 0, 0, n)); }
        Ok(StrValue::Bool(a.len() > 0 && all_in_class(a.as_slice(), CharClass::Alnum)))
    } else if chars_is(mm, "isspace") {
        if n != 0 { return Err(arity_error_exec(mm, 0, 0, n)); }
        Ok(StrValue::Bool(a.len() > 0 && all_in_class(a.as_slice(), CharClass::Space)))
    } else if chars_is(mm, "islower") {
        if n != 0 { return Err(arity_error_exec(mm, 0, 0, n)); }
        Ok(StrValue::Bool(is_lower(s)))
    } else if chars_is(mm, "isupper") {
        if n != 0 { return Err(arity_error_exec(mm, 0, 0, n)); }
        Ok(StrValue::Bool(is_upper(s)))
    } else if chars_is(mm, "istitle") {
        if n != 0 { return Err(arity_error_exec(mm, 0, 0, n)); }
        Ok(StrValue::Bool(is_title(s)))
    } else if chars_is(mm, "isascii") {
        if n != 0 { return Err(arity_error_exec(mm, 0, 0, n)); }
        Ok(StrValue::Bool(all_in_class(a.as_slice(), CharClass::Ascii)))
    } else if chars_is(mm, "center") {
        if n < 1 || n > 2 { return Err(arity_error_exec(mm, 1, 2, n)); }
        padding_body(s, mm, args, 0)
    } else if chars_is(mm, "ljust") {
        if n < 1 || n > 2 { return Err(arity_error_exec(mm, 1, 2, n)); }
        padding_body(s, mm, args, 1)
    } else if chars_is(mm, "rjust") {
        if n < 1 || n > 2 { return Err(arity_error_exec(mm, 1, 2, n)); }
        padding_body(s, mm, args, 2)
    } else if chars_is(mm, "zfill") {
        if n != 1 { return Err(arity_error_exec(mm, 1, 1, n)); }
        match int_arg_exec(mm, &args[0]) {
            Err(e) => Err(e),
            Ok(v) => Ok(text_value(zfill(s, width_exec(v)))),
        }
    } else if chars_is(mm, "removeprefix") {
        if n != 1 { return Err(arity_error_exec(mm, 1, 1, n)); }
        match string_arg_exec(mm, &args[0]) {
            Err(e) => Err(e),
            Ok(p) => {
                let av = a.as_slice();
                if starts_with_exec(av, p.as_slice()) {
                    let r = slice_chars(av, p.len(), a.len());
                    assert(r@ =~= a@.skip(p@.len() as int));
                    Ok(str_value(r))
                } else {
                    Ok(str_value(z_whole(av)))
                }
            },
        }
    } else if chars_is(mm, "removesuffix") {
        if n != 1 { return Err(arity_error_exec(mm, 1, 1, n)); }
        match string_arg_exec(mm, &args[0]) {
            Err(e) => Err(e),
            Ok(p) => {
                let av = a.as_slice();
                if ends_with_exec(av, p.as_slice()) {
                    let r = slice_chars(av, 0, a.len() - p.len());
                    assert(r@ =~= a@.take(a@.len() - p@.len()));
                    Ok(str_value(r))
                } else {
                    Ok(str_value(z_whole(av)))
                }
            },
        }
    } else if chars_is(mm, "partition") {
        if n != 1 { return Err(arity_error_exec(mm, 1, 1, n)); }
        match string_arg_exec(mm, &args[0]) {
            Err(e) => Err(e),
            Ok(p) => {
                let av = a.as_slice();
                let at = find_pos(av, p.as_slice());
                proof { lemma_find_from(a@, p@, 0); }
                Ok(triple_value(partition_at(av, &p, at)))
            },
        }
    } else if chars_is(mm, "rpartition") {
        if n != 1 { return Err(arity_error_exec(mm, 1, 1, n)); }
        match string_arg_exec(mm, &args[0]) {
            Err(e) => Err(e),
            Ok(p) => {
                let av = a.as_slice();
                let at = rfind_pos(av, p.as_slice());
                proof { lemma_rfind_from(a@, p@, a@.len() - p@.len()); }
                match at {
                    Some(_) => Ok(triple_value(partition_at(av, &p, at))),
                    None => Ok(triple_value((Vec::new(), Vec::new(), z_whole(av)))),
                }
            },
        }
    } else {
        let mut e: Vec<char> = Vec::new();
        append_str(&mut e, "string has no method '");
        append_chars(&mut e, m);
        append_str(&mut e, "'");
        Err(e)
    }
}

fn z_whole(s: &[char]) -> (r: Vec<char>)
    ensures
        r@ == s@,
{
    let r = slice_chars(s, 0, s.len());
    assert(r@ =~= s@);
    r
}

} // verus!
