//! The truth-value and list builtins of the compiled runtime: `bool`, `all`,
//! `any`, `abs`, `int`, `float`, `sum`, `min`, `max`, `sorted` and `reversed`,
//! and `==` on runtime values.
//!
//! A value is held by its kind and what the builtins read of it: the 64-bit
//! payload of a number or `bool` (a float by its bits), the text of a string,
//! and the number of entries of a list or dict.  Where a float must be added
//! or compared, the builtin says so and leaves that arithmetic to the caller.

use vstd::prelude::*;
use vstd::wrapping::i64_specs::wrapping_add;
use crate::error::{runtime, format_error_spec, ErrorKind};
use crate::json::{key_lt, key_less, lemma_key_lt_asymmetric, lemma_key_lt_transitive, lemma_key_lt_total,
    lemma_key_lt_irreflexive};
use crate::text::{copy_string, string_chars, chars_of, append_chars, append_str, string_from_chars};
use crate::semantic::{trim, trim_chars};
use crate::literals::{parse_i64, parse_i64_spec};

verus! {

/// A runtime value as the builtins read it.
#[derive(Debug)]
pub enum RtItem {
    I64(i64),
    U64(i64),
    /// A float by the bits of its `f64`.
    F64(u64),
    Str(String),
    Bool(i64),
    NoneValue,
    /// A list by its number of items.
    List(usize),
    /// A dict by its number of entries.
    Dict(usize),
    Struct,
    File,
}

pub enum ItemV {
    I64(i64),
    U64(i64),
    F64(u64),
    Str(Seq<char>),
    Bool(i64),
    NoneValue,
    List(nat),
    Dict(nat),
    Struct,
    File,
}

pub open spec fn item_v(i: RtItem) -> ItemV {
    match i {
        RtItem::I64(p) => ItemV::I64(p),
        RtItem::U64(p) => ItemV::U64(p),
        RtItem::F64(b) => ItemV::F64(b),
        RtItem::Str(t) => ItemV::Str(t@),
        RtItem::Bool(p) => ItemV::Bool(p),
        RtItem::NoneValue => ItemV::NoneValue,
        RtItem::List(n) => ItemV::List(n as nat),
        RtItem::Dict(n) => ItemV::Dict(n as nat),
        RtItem::Struct => ItemV::Struct,
        RtItem::File => ItemV::File,
    }
}

pub open spec fn items_v(s: Seq<RtItem>) -> Seq<ItemV> {
    s.map_values(|i: RtItem| item_v(i))
}

/// Which kind a value is, as a number.
pub open spec fn kind_tag(v: ItemV) -> nat {
    match v {
        ItemV::I64(_) => 0,
        ItemV::U64(_) => 1,
        ItemV::F64(_) => 2,
        ItemV::Str(_) => 3,
        ItemV::Bool(_) => 4,
        ItemV::NoneValue => 5,
        ItemV::List(_) => 6,
        ItemV::Dict(_) => 7,
        ItemV::Struct => 8,
        ItemV::File => 9,
    }
}

/// Whether a value counts as true: `None`, zero, `0.0` and `-0.0`, the
/// empty string and empty lists and dicts are false, everything else true.
pub open spec fn truthy(v: ItemV) -> bool {
    match v {
        ItemV::NoneValue => false,
        ItemV::Bool(p) => p != 0,
        ItemV::I64(p) => p != 0,
        ItemV::U64(p) => p != 0,
        ItemV::F64(b) => b & 0x7fff_ffff_ffff_ffffu64 != 0,
        ItemV::Str(t) => t.len() > 0,
        ItemV::List(n) => n > 0,
        ItemV::Dict(n) => n > 0,
        _ => true,
    }
}

pub fn kind_of(v: &RtItem) -> (r: u8)
    ensures
        r as nat == kind_tag(item_v(*v)),
{
    match v {
        RtItem::I64(_) => 0,
        RtItem::U64(_) => 1,
        RtItem::F64(_) => 2,
        RtItem::Str(_) => 3,
        RtItem::Bool(_) => 4,
        RtItem::NoneValue => 5,
        RtItem::List(_) => 6,
        RtItem::Dict(_) => 7,
        RtItem::Struct => 8,
        RtItem::File => 9,
    }
}

pub fn clone_item(v: &RtItem) -> (r: RtItem)
    ensures
        item_v(r) == item_v(*v),
{
    match v {
        RtItem::I64(p) => RtItem::I64(*p),
        RtItem::U64(p) => RtItem::U64(*p),
        RtItem::F64(b) => RtItem::F64(*b),
        RtItem::Str(t) => RtItem::Str(copy_string(t)),
        RtItem::Bool(p) => RtItem::Bool(*p),
        RtItem::NoneValue => RtItem::NoneValue,
        RtItem::List(n) => RtItem::List(*n),
        RtItem::Dict(n) => RtItem::Dict(*n),
        RtItem::Struct => RtItem::Struct,
        RtItem::File => RtItem::File,
    }
}

/// Whether `v` counts as true.
pub fn is_truthy(v: &RtItem) -> (r: bool)
    ensures
        r == truthy(item_v(*v)),
{
    match v {
        RtItem::NoneValue => false,
        RtItem::Bool(p) => *p != 0,
        RtItem::I64(p) => *p != 0,
        RtItem::U64(p) => *p != 0,
        RtItem::F64(b) => *b & 0x7fff_ffff_ffff_ffffu64 != 0,
        RtItem::Str(t) => t.unicode_len() > 0,
        RtItem::List(n) => *n > 0,
        RtItem::Dict(n) => *n > 0,
        _ => true,
    }
}

/// `bool(x)`: 1 when `x` counts as true, else 0.
pub fn builtin_bool(v: &RtItem) -> (r: i64)
    ensures
        r == (if truthy(item_v(*v)) { 1i64 } else { 0i64 }),
{
    if is_truthy(v) { 1 } else { 0 }
}

/// `all(xs)`: 1 when every item counts as true (so for the empty list).
pub fn builtin_all(items: &Vec<RtItem>) -> (r: i64)
    ensures
        r == (if forall|i: int| 0 <= i < items@.len() ==> truthy(#[trigger] items_v(items@)[i]) { 1i64 } else { 0i64 }),
{
    let mut i: usize = 0;
    while i < items.len()
        invariant
            i <= items@.len(),
            forall|k: int| 0 <= k < i ==> truthy(#[trigger] items_v(items@)[k]),
        decreases items@.len() - i,
    {
        if !is_truthy(&items[i]) {
            assert(!truthy(items_v(items@)[i as int]));
            return 0;
        }
        i = i + 1;
    }
    1
}

/// `any(xs)`: 1 when some item counts as true.
pub fn builtin_any(items: &Vec<RtItem>) -> (r: i64)
    ensures
        r == (if exists|i: int| 0 <= i < items@.len() && truthy(#[trigger] items_v(items@)[i]) { 1i64 } else { 0i64 }),
{
    let mut i: usize = 0;
    while i < items.len()
        invariant
            i <= items@.len(),
            forall|k: int| 0 <= k < i ==> !truthy(#[trigger] items_v(items@)[k]),
        decreases items@.len() - i,
    {
        if is_truthy(&items[i]) {
            assert(truthy(items_v(items@)[i as int]));
            return 1;
        }
        i = i + 1;
    }
    0
}

/// The runtime error a builtin reports on `line`.
pub open spec fn rt_error(line: u32, message: Seq<char>) -> Seq<char> {
    format_error_spec(ErrorKind::Runtime, line, message)
}

/// `abs(x)`: an `i64` by its magnitude (`i64::MIN` stays as it is), a `u64`
/// as it is, a float with its sign bit cleared; anything else is an error.
pub open spec fn abs_spec(v: ItemV, line: u32) -> Result<ItemV, Seq<char>> {
    match v {
        ItemV::I64(p) => Ok(ItemV::I64(if p == i64::MIN { p } else if p < 0 { (-p) as i64 } else { p })),
        ItemV::U64(p) => Ok(ItemV::U64(p)),
        ItemV::F64(b) => Ok(ItemV::F64(b & 0x7fff_ffff_ffff_ffffu64)),
        _ => Err(rt_error(line, "abs() expected a number"@)),
    }
}

pub fn builtin_abs(v: &RtItem, line: u32) -> (r: Result<RtItem, String>)
    ensures
        match r {
            Ok(x) => abs_spec(item_v(*v), line) == Ok::<ItemV, Seq<char>>(item_v(x)),
            Err(e) => abs_spec(item_v(*v), line) == Err::<ItemV, Seq<char>>(e@),
        },
{
    match v {
        RtItem::I64(p) => {
            let p = *p;
            Ok(RtItem::I64(if p == i64::MIN { p } else if p < 0 { -p } else { p }))
        },
        RtItem::U64(p) => Ok(RtItem::U64(*p)),
        RtItem::F64(b) => Ok(RtItem::F64(*b & 0x7fff_ffff_ffff_ffffu64)),
        _ => Err(runtime(line, "abs() expected a number")),
    }
}

/// Whether a value is a number (`bool` counts as one).
pub open spec fn numeric(v: ItemV) -> bool {
    v is I64 || v is U64 || v is F64 || v is Bool
}

/// The payload an integer or `bool` value holds.
pub open spec fn int_payload(v: ItemV) -> i64 {
    match v {
        ItemV::I64(p) => p,
        ItemV::U64(p) => p,
        ItemV::Bool(p) => p,
        _ => 0,
    }
}

/// The payloads of the items added up, wrapping around at 64 bits.
pub open spec fn wrapping_sum(s: Seq<ItemV>) -> i64
    decreases s.len(),
{
    if s.len() == 0 { 0 } else { wrapping_add(wrapping_sum(s.drop_last()), int_payload(s.last())) }
}

/// What `sum` gives when it does not fail.
#[derive(Debug)]
pub enum SumOutcome {
    /// The wrapping sum of integer items.
    Int(i64),
    /// Some item is a float: the items are to be added as floats.
    FloatSum,
}

/// `sum(xs)`: an error unless every item is a number; the float case when
/// some item is a float; otherwise the payloads added with wrap-around.
pub fn builtin_sum(items: &Vec<RtItem>, line: u32) -> (r: Result<SumOutcome, String>)
    ensures
        (r is Err) == (exists|i: int| 0 <= i < items@.len() && !numeric(#[trigger] items_v(items@)[i])),
        r matches Err(e) ==> e@ == rt_error(line, "sum() expected a list of numbers"@),
        r matches Ok(SumOutcome::FloatSum) <==> (r is Ok && exists|i: int| 0 <= i < items@.len()
            && #[trigger] items_v(items@)[i] is F64),
        r matches Ok(SumOutcome::Int(n)) ==> n == wrapping_sum(items_v(items@)),
{
    let ghost vs = items_v(items@);
    let mut i: usize = 0;
    let mut has_float = false;
    while i < items.len()
        invariant
            i <= items@.len(),
            vs == items_v(items@),
            forall|k: int| 0 <= k < i ==> numeric(#[trigger] vs[k]),
            has_float == exists|k: int| 0 <= k < i && #[trigger] vs[k] is F64,
        decreases items@.len() - i,
    {
        match &items[i] {
            RtItem::I64(_) | RtItem::U64(_) | RtItem::Bool(_) => {},
            RtItem::F64(_) => {
                has_float = true;
            },
            _ => {
                assert(!numeric(vs[i as int]));
                return Err(runtime(line, "sum() expected a list of numbers"));
            },
        }
        i = i + 1;
        assert(has_float == exists|k: int| 0 <= k < i && #[trigger] vs[k] is F64) by {
            if has_float {
                if !(vs[i - 1] is F64) {
                    let k = choose|k: int| 0 <= k < i - 1 && #[trigger] vs[k] is F64;
                    assert(0 <= k < i && vs[k] is F64);
                }
            }
        }
    }
    if has_float {
        return Ok(SumOutcome::FloatSum);
    }
    let mut acc: i64 = 0;
    let mut j: usize = 0;
    assert(vs.take(0) =~= Seq::<ItemV>::empty());
    while j < items.len()
        invariant
            j <= items@.len(),
            vs == items_v(items@),
            acc == wrapping_sum(vs.take(j as int)),
        decreases items@.len() - j,
    {
        let p = match &items[j] {
            RtItem::I64(p) => *p,
            RtItem::U64(p) => *p,
            RtItem::Bool(p) => *p,
            _ => 0,
        };
        assert(p == int_payload(vs[j as int]));
        assert(vs.take(j + 1).drop_last() =~= vs.take(j as int));
        acc = acc.wrapping_add(p);
        j = j + 1;
    }
    assert(vs.take(j as int) =~= vs);
    Ok(SumOutcome::Int(acc))
}

/// The number an integer or `bool` value stands for: a `u64` payload read
/// unsigned.
pub open spec fn num_value(v: ItemV) -> int {
    match v {
        ItemV::I64(p) => p as int,
        ItemV::Bool(p) => p as int,
        ItemV::U64(p) => (p as u64) as int,
        _ => 0,
    }
}

/// Integers that a float holds exactly, so that comparing them as floats
/// compares them as integers.
pub open spec fn exact_in_float(v: ItemV) -> bool {
    -0x20_0000_0000_0000 <= num_value(v) <= 0x20_0000_0000_0000
}

/// Item `i` is the first smallest (or, with `want_max`, largest) of `s`.
pub open spec fn extreme_at(s: Seq<ItemV>, i: int, want_max: bool) -> bool {
    &&& 0 <= i < s.len()
    &&& forall|j: int| 0 <= j < s.len() ==> (if want_max {
        num_value(#[trigger] s[j]) <= num_value(s[i])
    } else {
        num_value(s[i]) <= num_value(#[trigger] s[j])
    })
    &&& forall|j: int| 0 <= j < i ==> num_value(#[trigger] s[j]) != num_value(s[i])
}

/// The error `min` (or `max`) reports for an empty list, or for one with
/// an item that is not a number.
pub open spec fn extreme_message(want_max: bool, empty: bool) -> Seq<char> {
    if empty {
        if want_max { "max() arg is an empty sequence"@ } else { "min() arg is an empty sequence"@ }
    } else {
        if want_max { "max() expected numeric list elements"@ } else { "min() expected numeric list elements"@ }
    }
}

/// What `min` or `max` gives when it does not fail.
#[derive(Debug)]
pub enum ExtremeOutcome {
    /// A signed integer (a `bool` counts as one).
    Int(i64),
    /// An unsigned integer, by its payload.
    UInt(i64),
    /// Some item is a float, or an integer a float does not hold exactly:
    /// the items are to be compared as floats.
    FloatCompare,
}

fn num_of(v: &RtItem) -> (r: i128)
    requires
        item_v(*v) is I64 || item_v(*v) is U64 || item_v(*v) is Bool,
    ensures
        r == num_value(item_v(*v)),
{
    match v {
        RtItem::I64(p) => *p as i128,
        RtItem::Bool(p) => *p as i128,
        RtItem::U64(p) => (*p as u64) as i128,
        _ => 0,
    }
}

/// `min(xs)` (or `max(xs)` with `want_max`): an error for an empty list or
/// one with an item that is not a number; the float case when an item is a
/// float or an integer too large for a float to hold exactly; otherwise the
/// first smallest (largest) item, a `bool` given as an integer.
pub fn builtin_min_max(items: &Vec<RtItem>, want_max: bool, line: u32) -> (r: Result<ExtremeOutcome, String>)
    ensures
        (r is Err) == (items@.len() == 0 || exists|i: int| 0 <= i < items@.len() && !numeric(#[trigger] items_v(items@)[i])),
        r matches Err(e) ==> e@ == rt_error(line, extreme_message(want_max, items@.len() == 0)),
        r matches Ok(ExtremeOutcome::FloatCompare) <==> (r is Ok && exists|i: int| 0 <= i < items@.len()
            && (#[trigger] items_v(items@)[i] is F64 || !exact_in_float(items_v(items@)[i]))),
        r matches Ok(ExtremeOutcome::Int(p)) ==> exists|i: int| extreme_at(items_v(items@), i, want_max)
            && !(items_v(items@)[i] is U64) && p == int_payload(#[trigger] items_v(items@)[i]),
        r matches Ok(ExtremeOutcome::UInt(p)) ==> exists|i: int| extreme_at(items_v(items@), i, want_max)
            && items_v(items@)[i] is U64 && p == int_payload(#[trigger] items_v(items@)[i]),
{
    let ghost vs = items_v(items@);
    if items.len() == 0 {
        if want_max {
            return Err(runtime(line, "max() arg is an empty sequence"));
        } else {
            return Err(runtime(line, "min() arg is an empty sequence"));
        }
    }
    let mut i: usize = 0;
    let mut inexact = false;
    while i < items.len()
        invariant
            i <= items@.len(),
            vs == items_v(items@),
            forall|k: int| 0 <= k < i ==> numeric(#[trigger] vs[k]),
            inexact == exists|k: int| 0 <= k < i && (#[trigger] vs[k] is F64 || !exact_in_float(vs[k])),
        decreases items@.len() - i,
    {
        let this_inexact = match &items[i] {
            RtItem::I64(_) | RtItem::U64(_) | RtItem::Bool(_) => {
                let n = num_of(&items[i]);
                n < -0x20_0000_0000_0000i128 || n > 0x20_0000_0000_0000i128
            },
            RtItem::F64(_) => true,
            _ => {
                assert(!numeric(vs[i as int]));
                if want_max {
                    return Err(runtime(line, "max() expected numeric list elements"));
                } else {
                    return Err(runtime(line, "min() expected numeric list elements"));
                }
            },
        };
        assert(this_inexact == (vs[i as int] is F64 || !exact_in_float(vs[i as int])));
        inexact = inexact || this_inexact;
        i = i + 1;
        assert(inexact == exists|k: int| 0 <= k < i && (#[trigger] vs[k] is F64 || !exact_in_float(vs[k]))) by {
            if inexact && !this_inexact {
                let k = choose|k: int| 0 <= k < i - 1 && (#[trigger] vs[k] is F64 || !exact_in_float(vs[k]));
                assert(0 <= k < i);
            }
        }
    }
    if inexact {
        return Ok(ExtremeOutcome::FloatCompare);
    }
    assert(forall|k: int| 0 <= k < vs.len() ==> !(#[trigger] vs[k] is F64));
    assert(numeric(vs[0]) && !(vs[0] is F64));
    assert(vs[0] == item_v(items@[0]));
    let mut best: usize = 0;
    let mut bv: i128 = num_of(&items[0]);
    let mut j: usize = 1;
    while j < items.len()
        invariant
            1 <= j <= items@.len(),
            vs == items_v(items@),
            forall|k: int| 0 <= k < vs.len() ==> numeric(#[trigger] vs[k]) && !(vs[k] is F64),
            best < j,
            bv == num_value(vs[best as int]),
            extreme_at(vs.take(j as int), best as int, want_max),
        decreases items@.len() - j,
    {
        assert(numeric(vs[j as int]) && !(vs[j as int] is F64));
        assert(vs[j as int] == item_v(items@[j as int]));
        let v = num_of(&items[j]);
        let take = if want_max { v > bv } else { v < bv };
        let ghost t = vs.take(j + 1);
        proof {
            assert(t.take(j as int) =~= vs.take(j as int));
            assert forall|k: int| 0 <= k < j implies t[k] == vs.take(j as int)[k] by {}
        }
        if take {
            best = j;
            bv = v;
        }
        j = j + 1;
        proof {
            assert(vs.take(j as int) =~= t);
        }
    }
    assert(vs.take(j as int) =~= vs);
    let p = match &items[best] {
        RtItem::I64(p) => *p,
        RtItem::U64(p) => *p,
        RtItem::Bool(p) => *p,
        _ => 0,
    };
    match &items[best] {
        RtItem::U64(_) => Ok(ExtremeOutcome::UInt(p)),
        _ => Ok(ExtremeOutcome::Int(p)),
    }
}

/// What `int(x)` gives when it does not fail.
#[derive(Debug)]
pub enum IntConversion {
    /// The integer.
    Int(i64),
    /// `x` is a float: it is to be cast to an integer as a float.
    FromFloat,
}

/// `int(x)`: an integer or `bool` as its payload; a string by the decimal
/// it spells once surrounding whitespace is trimmed (an optional sign, then
/// digits, within `i64`), else an error quoting the trimmed text; a float
/// cast as a float; anything else an error.
pub open spec fn int_spec(v: ItemV, line: u32) -> Result<Option<int>, Seq<char>> {
    match v {
        ItemV::I64(p) => Ok(Some(p as int)),
        ItemV::Bool(p) => Ok(Some(p as int)),
        ItemV::U64(p) => Ok(Some(p as int)),
        ItemV::F64(_) => Ok(None),
        ItemV::Str(t) => match parse_i64_spec(trim(t)) {
            Some(n) => Ok(Some(n)),
            None => Err(rt_error(line, "invalid literal for int(): '"@ + trim(t) + "'"@)),
        },
        _ => Err(rt_error(line, "int() argument must be a number or string"@)),
    }
}

pub fn builtin_int(v: &RtItem, line: u32) -> (r: Result<IntConversion, String>)
    ensures
        match int_spec(item_v(*v), line) {
            Ok(Some(n)) => r matches Ok(IntConversion::Int(m)) && m == n,
            Ok(None) => r matches Ok(IntConversion::FromFloat),
            Err(e) => r matches Err(x) && x@ == e,
        },
{
    match v {
        RtItem::I64(p) => Ok(IntConversion::Int(*p)),
        RtItem::Bool(p) => Ok(IntConversion::Int(*p)),
        RtItem::U64(p) => Ok(IntConversion::Int(*p)),
        RtItem::F64(_) => Ok(IntConversion::FromFloat),
        RtItem::Str(t) => {
            let cs = string_chars(t);
            let tc = trim_chars(cs.as_slice());
            match parse_i64(tc.as_slice()) {
                Some(n) => Ok(IntConversion::Int(n)),
                None => {
                    let mut m = chars_of("invalid literal for int(): '");
                    append_chars(&mut m, &tc);
                    append_str(&mut m, "'");
                    let text = string_from_chars(m);
                    Err(runtime(line, text.as_str()))
                },
            }
        },
        _ => Err(runtime(line, "int() argument must be a number or string")),
    }
}

/// What `float(x)` asks of the caller when it does not fail; the
/// conversions themselves are floating point.
#[derive(Debug)]
pub enum FloatConversion {
    /// A float: itself, by its bits.
    Same(u64),
    /// A signed integer (or `bool`) to convert.
    FromInt(i64),
    /// An unsigned integer, by its payload, to convert.
    FromUnsigned(i64),
    /// A string, with surrounding whitespace trimmed, to parse as a float;
    /// text that does not parse is reported with [`float_parse_error`].
    Parse(String),
}

/// `float(x)` on a value that is neither a number nor a string.
pub open spec fn float_arg_error(line: u32) -> Seq<char> {
    rt_error(line, "float() argument must be a number or string"@)
}

/// `float(x)`: a number is handed on by its kind, a string trimmed;
/// anything else is an error.
pub fn builtin_float(v: &RtItem, line: u32) -> (r: Result<FloatConversion, String>)
    ensures
        match item_v(*v) {
            ItemV::F64(b) => r matches Ok(FloatConversion::Same(c)) && c == b,
            ItemV::I64(p) => r matches Ok(FloatConversion::FromInt(q)) && q == p,
            ItemV::Bool(p) => r matches Ok(FloatConversion::FromInt(q)) && q == p,
            ItemV::U64(p) => r matches Ok(FloatConversion::FromUnsigned(q)) && q == p,
            ItemV::Str(t) => r matches Ok(FloatConversion::Parse(u)) && u@ == trim(t),
            _ => r matches Err(e) && e@ == float_arg_error(line),
        },
{
    match v {
        RtItem::F64(b) => Ok(FloatConversion::Same(*b)),
        RtItem::I64(p) => Ok(FloatConversion::FromInt(*p)),
        RtItem::Bool(p) => Ok(FloatConversion::FromInt(*p)),
        RtItem::U64(p) => Ok(FloatConversion::FromUnsigned(*p)),
        RtItem::Str(t) => {
            let cs = string_chars(t);
            let tc = trim_chars(cs.as_slice());
            Ok(FloatConversion::Parse(string_from_chars(tc)))
        },
        _ => Err(runtime(line, "float() argument must be a number or string")),
    }
}

/// The error for text that `float(x)` could not parse.
pub fn float_parse_error(text: &str, line: u32) -> (r: String)
    ensures
        r@ == rt_error(line, "could not convert string to float: '"@ + text@ + "'"@),
{
    let mut m = chars_of("could not convert string to float: '");
    append_str(&mut m, text);
    append_str(&mut m, "'");
    let msg = string_from_chars(m);
    runtime(line, msg.as_str())
}

/// What `a == b` gives: decided, or left to a comparison of floats or of
/// the contents of two lists or two dicts.
#[derive(Debug, PartialEq, Eq)]
pub enum EqOutcome {
    Decided(bool),
    /// Two numbers of which one is a float: compared as floats.
    CompareFloats,
    /// Two lists: equal when as long and equal item by item.
    CompareLists,
    /// Two dicts: equal when as large and every key of one holds an equal
    /// value in the other.
    CompareDicts,
}

/// `a == b` in the compiled runtime: strings by their text, `None` equals
/// `None`, `bool`s and signed integers by payload, a float against a float
/// or a signed integer as floats, lists and dicts by content; any other
/// pair (a `u64`, a struct or a file included) is unequal.
pub open spec fn eq_spec(a: ItemV, b: ItemV) -> EqOutcome {
    match (a, b) {
        (ItemV::Str(x), ItemV::Str(y)) => EqOutcome::Decided(x == y),
        (ItemV::NoneValue, ItemV::NoneValue) => EqOutcome::Decided(true),
        (ItemV::Bool(x), ItemV::Bool(y)) => EqOutcome::Decided(x == y),
        (ItemV::I64(x), ItemV::I64(y)) => EqOutcome::Decided(x == y),
        (ItemV::F64(_), ItemV::F64(_)) | (ItemV::F64(_), ItemV::I64(_)) | (ItemV::I64(_), ItemV::F64(_)) =>
            EqOutcome::CompareFloats,
        (ItemV::List(_), ItemV::List(_)) => EqOutcome::CompareLists,
        (ItemV::Dict(_), ItemV::Dict(_)) => EqOutcome::CompareDicts,
        _ => EqOutcome::Decided(false),
    }
}

pub fn value_eq(a: &RtItem, b: &RtItem) -> (r: EqOutcome)
    ensures
        r == eq_spec(item_v(*a), item_v(*b)),
{
    match (a, b) {
        (RtItem::Str(x), RtItem::Str(y)) => {
            let xc = string_chars(x);
            let yc = string_chars(y);
            EqOutcome::Decided(crate::text::chars_eq(xc.as_slice(), yc.as_slice()))
        },
        (RtItem::NoneValue, RtItem::NoneValue) => EqOutcome::Decided(true),
        (RtItem::Bool(x), RtItem::Bool(y)) => EqOutcome::Decided(*x == *y),
        (RtItem::I64(x), RtItem::I64(y)) => EqOutcome::Decided(*x == *y),
        (RtItem::F64(_), RtItem::F64(_)) | (RtItem::F64(_), RtItem::I64(_)) | (RtItem::I64(_), RtItem::F64(_)) =>
            EqOutcome::CompareFloats,
        (RtItem::List(_), RtItem::List(_)) => EqOutcome::CompareLists,
        (RtItem::Dict(_), RtItem::Dict(_)) => EqOutcome::CompareDicts,
        _ => EqOutcome::Decided(false),
    }
}

/// Equality is symmetric: `a == b` and `b == a` are decided alike, or left
/// to the same comparison.
pub proof fn lemma_eq_symmetric(a: ItemV, b: ItemV)
    ensures
        eq_spec(a, b) == eq_spec(b, a),
{
}

/// `reversed(xs)`: the items in reverse order.
pub fn builtin_reversed(items: &Vec<RtItem>) -> (r: Vec<RtItem>)
    ensures
        items_v(r@) == items_v(items@).reverse(),
{
    let ghost vs = items_v(items@);
    let mut out: Vec<RtItem> = Vec::new();
    let mut i: usize = items.len();
    while i > 0
        invariant
            i <= items@.len(),
            vs == items_v(items@),
            items_v(out@) =~= vs.reverse().take(items@.len() - i),
        decreases i,
    {
        i = i - 1;
        let ghost before = items_v(out@);
        let x = clone_item(&items[i]);
        out.push(x);
        assert(items_v(out@) =~= before.push(item_v(x)));
        assert(vs.reverse().take(items@.len() - i) =~= vs.reverse().take(items@.len() - i - 1).push(vs[i as int]));
    }
    assert(vs.reverse().take(items@.len() as int) =~= vs.reverse());
    out
}


/// The order `sorted` puts items of one kind in: integers and `bool`s by
/// payload, strings by text.
pub open spec fn item_lt(a: ItemV, b: ItemV) -> bool {
    match (a, b) {
        (ItemV::I64(x), ItemV::I64(y)) => x < y,
        (ItemV::Bool(x), ItemV::Bool(y)) => x < y,
        (ItemV::Str(s), ItemV::Str(t)) => key_lt(s, t),
        _ => false,
    }
}

/// Items of one sortable kind, each no greater than the next.
pub open spec fn items_sorted(s: Seq<ItemV>) -> bool {
    forall|a: int, b: int| 0 <= a < b < s.len() ==> !item_lt(#[trigger] s[b], #[trigger] s[a])
}

/// A kind `sorted` orders itself.
pub open spec fn sortable(v: ItemV) -> bool {
    v is I64 || v is Bool || v is Str
}

/// The error of `sorted(xs)`, if any: mixed kinds, or a kind it cannot sort.
pub open spec fn sort_error(s: Seq<ItemV>, line: u32) -> Option<Seq<char>> {
    if s.len() == 0 {
        None
    } else if exists|i: int| 0 <= i < s.len() && kind_tag(#[trigger] s[i]) != kind_tag(s[0]) {
        Some(rt_error(line, "sorted() requires a homogeneous list"@))
    } else if !(sortable(s[0]) || s[0] is F64) {
        Some(rt_error(line, "sorted() supports lists of int, float, or str"@))
    } else {
        None
    }
}

/// What `sorted` gives when it does not fail.
#[derive(Debug)]
pub enum SortOutcome {
    /// The items in order.
    Sorted(Vec<RtItem>),
    /// The items are floats: they are to be ordered as floats.
    FloatOrder,
}

proof fn lemma_item_order(a: ItemV, b: ItemV, c: ItemV)
    requires
        kind_tag(a) == kind_tag(b),
        kind_tag(b) == kind_tag(c),
        sortable(a),
    ensures
        item_lt(a, b) ==> !item_lt(b, a),
        item_lt(a, b) && item_lt(b, c) ==> item_lt(a, c),
        !item_lt(a, b) && !item_lt(b, a) ==> a == b,
        !item_lt(a, a),
{
    match (a, b, c) {
        (ItemV::Str(x), ItemV::Str(y), ItemV::Str(z)) => {
            lemma_key_lt_asymmetric(x, y);
            lemma_key_lt_transitive(x, y, z);
            lemma_key_lt_total(x, y);
            lemma_key_lt_irreflexive(x);
        },
        _ => {},
    }
}

pub proof fn lemma_insert_multiset<A>(s: Seq<A>, p: int, x: A)
    requires
        0 <= p <= s.len(),
    ensures
        s.insert(p, x).to_multiset() =~= s.to_multiset().insert(x),
{
    broadcast use vstd::seq_lib::group_to_multiset_ensures;
    let t = s.insert(p, x);
    assert(t.remove(p) =~= s);
    assert(t[p] == x);
    assert(t.contains(x));
    assert(t.to_multiset().count(x) > 0);
    assert(s.to_multiset() =~= t.to_multiset().remove(x));
}

fn item_less(a: &RtItem, b: &RtItem) -> (r: bool)
    ensures
        r == item_lt(item_v(*a), item_v(*b)),
{
    match (a, b) {
        (RtItem::I64(x), RtItem::I64(y)) => *x < *y,
        (RtItem::Bool(x), RtItem::Bool(y)) => *x < *y,
        (RtItem::Str(s), RtItem::Str(t)) => {
            let sc = string_chars(s);
            let tc = string_chars(t);
            key_less(sc.as_slice(), tc.as_slice())
        },
        _ => false,
    }
}

/// The items in order, for a list of one sortable kind.
fn sort_items(items: &Vec<RtItem>) -> (r: Vec<RtItem>)
    requires
        forall|i: int| 0 <= i < items@.len() ==> kind_tag(#[trigger] items_v(items@)[i]) == kind_tag(items_v(items@)[0]),
        items@.len() > 0 ==> sortable(items_v(items@)[0]),
    ensures
        items_v(r@).to_multiset() == items_v(items@).to_multiset(),
        items_sorted(items_v(r@)),
{
    let ghost vs = items_v(items@);
    let mut out: Vec<RtItem> = Vec::new();
    let mut i: usize = 0;
    assert(vs.take(0) =~= Seq::<ItemV>::empty());
    assert(items_v(out@) =~= Seq::<ItemV>::empty());
    while i < items.len()
        invariant
            i <= items@.len(),
            vs == items_v(items@),
            forall|k: int| 0 <= k < items@.len() ==> kind_tag(#[trigger] vs[k]) == kind_tag(vs[0]),
            items@.len() > 0 ==> sortable(vs[0]),
            items_v(out@).to_multiset() == vs.take(i as int).to_multiset(),
            items_sorted(items_v(out@)),
            forall|k: int| 0 <= k < out@.len() ==> kind_tag(#[trigger] items_v(out@)[k]) == kind_tag(vs[0]),
        decreases items@.len() - i,
    {
        let x = clone_item(&items[i]);
        let ghost xv = item_v(x);
        let ghost ov = items_v(out@);
        let mut p: usize = 0;
        loop
            invariant_except_break
                p <= out@.len(),
                xv == item_v(x),
                ov == items_v(out@),
                forall|k: int| 0 <= k < p ==> !item_lt(xv, #[trigger] ov[k]),
            ensures
                p <= out@.len(),
                ov == items_v(out@),
                forall|k: int| 0 <= k < p ==> !item_lt(xv, #[trigger] ov[k]),
                p == out@.len() || item_lt(xv, ov[p as int]),
            decreases out@.len() - p,
        {
            if p >= out.len() {
                break;
            }
            assert(ov[p as int] == item_v(out@[p as int]));
            if item_less(&x, &out[p]) {
                break;
            }
            p = p + 1;
        }
        proof {
            assert(xv == vs[i as int]);
            assert(kind_tag(vs[i as int]) == kind_tag(vs[0]));
            assert(forall|k: int| 0 <= k < ov.len() ==> kind_tag(#[trigger] ov[k]) == kind_tag(vs[0]));
            assert forall|a: int, b: int| 0 <= a < b < ov.len() + 1 implies
                !item_lt(#[trigger] ov.insert(p as int, xv)[b], #[trigger] ov.insert(p as int, xv)[a]) by {
                let t = ov.insert(p as int, xv);
                if b < p {
                    assert(t[a] == ov[a] && t[b] == ov[b]);
                } else if b == p {
                    assert(t[a] == ov[a]);
                    lemma_item_order(ov[a], xv, xv);
                    lemma_item_order(xv, ov[a], xv);
                } else if a == p {
                    assert(t[b] == ov[b - 1]);
                    lemma_item_order(xv, ov[p as int], ov[b - 1]);
                    lemma_item_order(ov[b - 1], ov[p as int], xv);
                    lemma_item_order(ov[b - 1], xv, ov[p as int]);
                    lemma_item_order(ov[p as int], xv, ov[b - 1]);
                } else if a < p {
                    assert(t[a] == ov[a] && t[b] == ov[b - 1]);
                } else {
                    assert(t[a] == ov[a - 1] && t[b] == ov[b - 1]);
                }
            }
            lemma_insert_multiset(ov, p as int, xv);
            assert(vs.take(i + 1) =~= vs.take(i as int).push(vs[i as int]));
            broadcast use vstd::seq_lib::group_to_multiset_ensures;
        }
        out.insert(p, x);
        assert(items_v(out@) =~= ov.insert(p as int, xv));
        i = i + 1;
    }
    assert(vs.take(i as int) =~= vs);
    out
}

/// `sorted(xs)`: an error for mixed kinds or a kind it cannot order; the
/// float case for a list of floats; otherwise the items in order.
pub fn builtin_sorted(items: &Vec<RtItem>, line: u32) -> (r: Result<SortOutcome, String>)
    ensures
        match r {
            Err(e) => sort_error(items_v(items@), line) == Some(e@),
            Ok(SortOutcome::FloatOrder) => sort_error(items_v(items@), line) is None && items@.len() > 0
                && items_v(items@)[0] is F64,
            Ok(SortOutcome::Sorted(out)) => sort_error(items_v(items@), line) is None
                && !(items@.len() > 0 && items_v(items@)[0] is F64)
                && items_v(out@).to_multiset() == items_v(items@).to_multiset()
                && items_sorted(items_v(out@)),
        },
{
    let ghost vs = items_v(items@);
    if items.len() == 0 {
        let out: Vec<RtItem> = Vec::new();
        assert(items_v(out@) =~= vs);
        return Ok(SortOutcome::Sorted(out));
    }
    let k0 = kind_of(&items[0]);
    let mut i: usize = 0;
    while i < items.len()
        invariant
            i <= items@.len(),
            vs == items_v(items@),
            k0 as nat == kind_tag(vs[0]),
            forall|k: int| 0 <= k < i ==> kind_tag(#[trigger] vs[k]) == kind_tag(vs[0]),
        decreases items@.len() - i,
    {
        if kind_of(&items[i]) != k0 {
            assert(kind_tag(vs[i as int]) != kind_tag(vs[0]));
            return Err(runtime(line, "sorted() requires a homogeneous list"));
        }
        i = i + 1;
    }
    match &items[0] {
        RtItem::F64(_) => Ok(SortOutcome::FloatOrder),
        RtItem::I64(_) | RtItem::Bool(_) | RtItem::Str(_) => Ok(SortOutcome::Sorted(sort_items(items))),
        _ => Err(runtime(line, "sorted() supports lists of int, float, or str")),
    }
}

} // verus!
