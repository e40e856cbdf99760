//! Runtime values of compiled programs and the text `print` and `str()` give
//! them: lists as `[a, b]`, dicts as `{k: v}`, struct instances as their
//! field values in braces.

use vstd::prelude::*;
use crate::text::{signed_decimal, i64_decimal, append_chars, append_str, string_from_chars};

verus! {

/// What a runtime value holds.
#[derive(Debug)]
pub enum RtValue {
    Int(i64),
    /// A float, by the text its `Display` form gives.
    Float(String),
    Str(String),
    Bool(bool),
    NoneValue,
    List(Vec<RtValue>),
    /// Entries in insertion order.
    Dict(Vec<(String, RtValue)>),
    /// Field values in declaration order.
    Struct(Vec<RtValue>),
    File,
    /// A payload of no known kind.
    Unknown,
}

/// The printed form of a value.
pub open spec fn value_text(v: RtValue) -> Seq<char>
    decreases v,
{
    match v {
        RtValue::Int(n) => signed_decimal(n as int),
        RtValue::Float(t) => t@,
        RtValue::Str(s) => s@,
        RtValue::Bool(b) => if b { "true"@ } else { "false"@ },
        RtValue::NoneValue => "None"@,
        RtValue::List(items) => "["@ + values_text(items@) + "]"@,
        RtValue::Dict(es) => "{"@ + entries_text(es@) + "}"@,
        RtValue::Struct(fields) => "{"@ + values_text(fields@) + "}"@,
        RtValue::File => "<file>"@,
        RtValue::Unknown => "<?>"@,
    }
}

/// Printed values joined by `, `.
pub open spec fn values_text(vs: Seq<RtValue>) -> Seq<char>
    decreases vs,
{
    if vs.len() == 0 {
        Seq::empty()
    } else if vs.len() == 1 {
        value_text(vs[0])
    } else {
        values_text(vs.drop_last()) + ", "@ + value_text(vs.last())
    }
}

/// Dict entries as `key: value`, joined by `, `.
pub open spec fn entries_text(es: Seq<(String, RtValue)>) -> Seq<char>
    decreases es,
{
    if es.len() == 0 {
        Seq::empty()
    } else {
        let last = es.last().0@ + ": "@ + value_text(es.last().1);
        if es.len() == 1 { last } else { entries_text(es.drop_last()) + ", "@ + last }
    }
}

fn push_value(out: &mut Vec<char>, v: &RtValue)
    ensures
        final(out)@ == old(out)@ + value_text(*v),
    decreases v, 1int,
{
    match v {
        RtValue::Int(n) => {
            let digits = i64_decimal(*n);
            append_chars(out, &digits);
        },
        RtValue::Float(t) => append_str(out, t.as_str()),
        RtValue::Str(s) => append_str(out, s.as_str()),
        RtValue::Bool(b) => {
            if *b {
                append_str(out, "true");
            } else {
                append_str(out, "false");
            }
        },
        RtValue::NoneValue => append_str(out, "None"),
        RtValue::List(items) => {
            let ghost start = out@;
            append_str(out, "[");
            push_values(out, items);
            append_str(out, "]");
            assert(out@ =~= start + value_text(*v));
        },
        RtValue::Dict(es) => {
            let ghost start = out@;
            append_str(out, "{");
            push_entries(out, es);
            append_str(out, "}");
            assert(out@ =~= start + value_text(*v));
        },
        RtValue::Struct(fields) => {
            let ghost start = out@;
            append_str(out, "{");
            push_values(out, fields);
            append_str(out, "}");
            assert(out@ =~= start + value_text(*v));
        },
        RtValue::File => append_str(out, "<file>"),
        RtValue::Unknown => append_str(out, "<?>"),
    }
}

fn push_values(out: &mut Vec<char>, items: &Vec<RtValue>)
    ensures
        final(out)@ == old(out)@ + values_text(items@),
    decreases items, 0int,
{
    let ghost start = out@;
    let mut i: usize = 0;
    assert(items@.take(0) =~= Seq::<RtValue>::empty());
    while i < items.len()
        invariant
            i <= items@.len(),
            out@ == start + values_text(items@.take(i as int)),
        decreases items@.len() - i,
    {
        let ghost prev = items@.take(i as int);
        if i > 0 {
            append_str(out, ", ");
        }
        assert(decreases_to!(items => items@[i as int]));
        push_value(out, &items[i]);
        i = i + 1;
        assert(items@.take(i as int).drop_last() =~= prev);
        assert(out@ =~= start + values_text(items@.take(i as int)));
    }
    assert(items@.take(items@.len() as int) =~= items@);
}

fn push_entries(out: &mut Vec<char>, es: &Vec<(String, RtValue)>)
    ensures
        final(out)@ == old(out)@ + entries_text(es@),
    decreases es, 0int,
{
    let ghost start = out@;
    let mut i: usize = 0;
    assert(es@.take(0) =~= Seq::<(String, RtValue)>::empty());
    while i < es.len()
        invariant
            i <= es@.len(),
            out@ == start + entries_text(es@.take(i as int)),
        decreases es@.len() - i,
    {
        let ghost prev = es@.take(i as int);
        if i > 0 {
            append_str(out, ", ");
        }
        let (k, v) = &es[i];
        append_str(out, k.as_str());
        append_str(out, ": ");
        assert(decreases_to!(es => es@[i as int]));
        assert(decreases_to!(es@[i as int] => es@[i as int].1));
        push_value(out, v);
        i = i + 1;
        assert(es@.take(i as int).drop_last() =~= prev);
        assert(out@ =~= start + entries_text(es@.take(i as int)));
    }
    assert(es@.take(es@.len() as int) =~= es@);
}

/// The printed form of a value (`str(v)`, and what `print` shows).
pub fn format_value(v: &RtValue) -> (s: String)
    ensures
        s@ == value_text(*v),
{
    let mut out: Vec<char> = Vec::new();
    push_value(&mut out, v);
    string_from_chars(out)
}

/// A list printed as `[a, b, c]`.
pub fn format_list(items: &Vec<RtValue>) -> (s: String)
    ensures
        s@ == "["@ + values_text(items@) + "]"@,
{
    let mut out: Vec<char> = Vec::new();
    append_str(&mut out, "[");
    push_values(&mut out, items);
    append_str(&mut out, "]");
    string_from_chars(out)
}

/// A dict printed as `{k: v, ...}` in insertion order.
pub fn format_dict(entries: &Vec<(String, RtValue)>) -> (s: String)
    ensures
        s@ == "{"@ + entries_text(entries@) + "}"@,
{
    let mut out: Vec<char> = Vec::new();
    append_str(&mut out, "{");
    push_entries(&mut out, entries);
    append_str(&mut out, "}");
    string_from_chars(out)
}

/// A struct instance printed as its field values in braces.
pub fn format_struct(fields: &Vec<RtValue>) -> (s: String)
    ensures
        s@ == "{"@ + values_text(fields@) + "}"@,
{
    let mut out: Vec<char> = Vec::new();
    append_str(&mut out, "{");
    push_values(&mut out, fields);
    append_str(&mut out, "}");
    string_from_chars(out)
}

} // verus!
