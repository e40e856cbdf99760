//! The text format of the `json` module: reading a document into a value and
//! writing a value back out.
//!
//! An object keeps its keys in the order they were first read, and a key read
//! twice keeps its first place and its last value; objects are written with
//! their keys in increasing order, so equal objects print alike.  Numbers that
//! are not 64-bit integers are kept as the text they were read from.  Error
//! positions count bytes of the UTF-8 text, as the messages say.

use vstd::prelude::*;
use crate::text::{decimal, signed_decimal, u64_decimal, i64_decimal, append_str, append_chars, chars_of, string_from_chars};
use crate::strings::repeat;
use crate::strings::{occurs_at, occurs_at_exec};
use crate::literals::{parse_i64_spec, is_float_text, parse_i64, is_float_literal, all_digits, digits_value, digit_value, signed_value};
use crate::text::digit_char;

verus! {

// ---------------------------------------------------------------------------
// Values

/// A JSON value as the library holds it.
#[derive(Debug, PartialEq)]
pub enum JsonValue {
    Null,
    Bool(bool),
    Int(i64),
    /// A number that is not a 64-bit integer, by its text.
    Float(String),
    Str(String),
    List(Vec<JsonValue>),
    /// The entries of an object, in the order their keys were first read.
    Object(Vec<(String, JsonValue)>),
    /// A value that has no JSON form, with the message writing it gives.
    Invalid(String),
}

/// The kinds of runtime value that have no JSON form.
#[derive(Debug, Clone, Copy, PartialEq, Eq, Structural)]
pub enum Unserializable {
    Function,
    Module,
    File,
    MappedFile,
    StructDefinition,
    Trait,
    Other,
}

/// How the message for a value of kind `k` names it.
pub open spec fn unserializable_label(k: Unserializable) -> Seq<char> {
    match k {
        Unserializable::Function => "a function"@,
        Unserializable::Module => "a module"@,
        Unserializable::File => "a file"@,
        Unserializable::MappedFile => "a mapped file"@,
        Unserializable::StructDefinition => "a struct definition"@,
        Unserializable::Trait => "a trait"@,
        Unserializable::Other => "this value"@,
    }
}

/// What stands in a document for a runtime value of kind `k`: writing it
/// fails with `cannot serialize <label> to JSON`.
pub fn unserializable(k: Unserializable) -> (r: JsonValue)
    ensures
        json_of(r) == Json::Invalid("cannot serialize "@ + unserializable_label(k) + " to JSON"@),
{
    let mut m = chars_of("cannot serialize ");
    match k {
        Unserializable::Function => append_str(&mut m, "a function"),
        Unserializable::Module => append_str(&mut m, "a module"),
        Unserializable::File => append_str(&mut m, "a file"),
        Unserializable::MappedFile => append_str(&mut m, "a mapped file"),
        Unserializable::StructDefinition => append_str(&mut m, "a struct definition"),
        Unserializable::Trait => append_str(&mut m, "a trait"),
        Unserializable::Other => append_str(&mut m, "this value"),
    }
    append_str(&mut m, " to JSON");
    JsonValue::Invalid(string_from_chars(m))
}

/// The mathematical reading of a [`JsonValue`].
pub enum Json {
    Null,
    Bool(bool),
    Int(int),
    Float(Seq<char>),
    Str(Seq<char>),
    List(Seq<Json>),
    Object(Seq<(Seq<char>, Json)>),
    Invalid(Seq<char>),
}

pub open spec fn json_of(v: JsonValue) -> Json
    decreases v,
{
    match v {
        JsonValue::Null => Json::Null,
        JsonValue::Bool(b) => Json::Bool(b),
        JsonValue::Int(n) => Json::Int(n as int),
        JsonValue::Float(t) => Json::Float(t@),
        JsonValue::Str(t) => Json::Str(t@),
        JsonValue::List(items) => Json::List(jsons_of(items@)),
        JsonValue::Object(entries) => Json::Object(entries_of(entries@)),
        JsonValue::Invalid(m) => Json::Invalid(m@),
    }
}

pub open spec fn jsons_of(vs: Seq<JsonValue>) -> Seq<Json>
    decreases vs,
{
    if vs.len() == 0 {
        seq![]
    } else {
        jsons_of(vs.drop_last()).push(json_of(vs.last()))
    }
}

pub open spec fn entries_of(es: Seq<(String, JsonValue)>) -> Seq<(Seq<char>, Json)>
    decreases es,
{
    if es.len() == 0 {
        seq![]
    } else {
        entries_of(es.drop_last()).push((es.last().0@, json_of(es.last().1)))
    }
}

impl View for JsonValue {
    type V = Json;

    open spec fn view(&self) -> Json {
        json_of(*self)
    }
}

/// Text order: the first differing character decides, and a proper prefix
/// comes first (the order of `str`).
pub open spec fn key_lt(a: Seq<char>, b: Seq<char>) -> bool
    decreases a.len(),
{
    if a.len() == 0 {
        b.len() > 0
    } else if b.len() == 0 {
        false
    } else if a[0] != b[0] {
        a[0] < b[0]
    } else {
        key_lt(a.skip(1), b.skip(1))
    }
}

/// No two entries share a key.
pub open spec fn keys_distinct(es: Seq<(Seq<char>, Json)>) -> bool {
    forall|i: int, j: int| 0 <= i < j < es.len() ==> #[trigger] es[i].0 != #[trigger] es[j].0
}

/// A value as reading gives it: no object, however deep, has a key twice;
/// every integer is a 64-bit one; every number kept as text is a
/// [`float_text`]; no part lacks a JSON form.
pub open spec fn json_wf(v: Json) -> bool
    decreases v,
{
    match v {
        Json::Int(n) => i64::MIN <= n <= i64::MAX,
        Json::Float(t) => float_text(t),
        Json::Invalid(_) => false,
        Json::List(items) => forall|i: int| 0 <= i < items.len() ==> json_wf(#[trigger] items[i]),
        Json::Object(es) => keys_distinct(es) && forall|i: int| 0 <= i < es.len() ==> json_wf(#[trigger] es[i].1),
        _ => true,
    }
}

/// The entries with `k` bound to `v`: an entry with that key gets the new
/// value in its place, otherwise the new entry goes last.
pub open spec fn insert_entry(es: Seq<(Seq<char>, Json)>, k: Seq<char>, v: Json) -> Seq<(Seq<char>, Json)>
    decreases es.len(),
{
    if es.len() == 0 {
        seq![(k, v)]
    } else if es[0].0 == k {
        seq![(k, v)] + es.skip(1)
    } else {
        seq![es[0]] + insert_entry(es.skip(1), k, v)
    }
}

/// `order` (indices of entries, sorted by key) with index `i` put before the
/// first entry whose key is greater than that of entry `i`.
pub open spec fn insert_index(order: Seq<int>, es: Seq<(Seq<char>, Json)>, i: int) -> Seq<int>
    decreases order.len(),
{
    if order.len() == 0 {
        seq![i]
    } else if key_lt(es[i].0, es[order[0]].0) {
        seq![i] + order
    } else {
        seq![order[0]] + insert_index(order.skip(1), es, i)
    }
}

/// The indices of the first `n` entries, in increasing key order (entries with
/// equal keys in their own order).
pub open spec fn sort_order_upto(es: Seq<(Seq<char>, Json)>, n: int) -> Seq<int>
    decreases n,
{
    if n <= 0 {
        Seq::empty()
    } else {
        insert_index(sort_order_upto(es, n - 1), es, n - 1)
    }
}

/// The order in which an object's entries are written: by increasing key.
pub open spec fn sort_order(es: Seq<(Seq<char>, Json)>) -> Seq<int> {
    sort_order_upto(es, es.len() as int)
}

// ---------------------------------------------------------------------------
// Positions

/// Bytes in the UTF-8 encoding of `c`.
pub open spec fn utf8_len(c: char) -> nat {
    if (c as u32) < 0x80 { 1 } else if (c as u32) < 0x800 { 2 } else if (c as u32) < 0x10000 { 3 } else { 4 }
}

/// The byte offset of character position `i` of `s`.
pub open spec fn byte_offset(s: Seq<char>, i: int) -> nat
    decreases i,
{
    if i <= 0 {
        0
    } else {
        byte_offset(s, i - 1) + utf8_len(s[i - 1])
    }
}

/// ` at byte N` for character position `i`.
pub open spec fn at_byte(s: Seq<char>, i: int) -> Seq<char> {
    " at byte "@ + decimal(byte_offset(s, i))
}

// ---------------------------------------------------------------------------
// Reading: the pieces

pub open spec fn is_json_ws(c: char) -> bool {
    c == ' ' || c == '\t' || c == '\n' || c == '\r'
}

/// The first position at or after `i` that is not JSON whitespace.
pub open spec fn skip_ws(s: Seq<char>, i: int) -> int
    decreases s.len() - i,
{
    if 0 <= i < s.len() && is_json_ws(s[i]) { skip_ws(s, i + 1) } else { i }
}

pub proof fn lemma_skip_ws(s: Seq<char>, i: int)
    ensures
        i <= skip_ws(s, i),
        0 <= i <= s.len() ==> skip_ws(s, i) <= s.len(),
        skip_ws(s, skip_ws(s, i)) == skip_ws(s, i),
    decreases s.len() - i,
{
    if 0 <= i < s.len() && is_json_ws(s[i]) {
        lemma_skip_ws(s, i + 1);
    }
}

/// The value of a hexadecimal digit.
pub open spec fn hex_value(c: char) -> Option<int> {
    if '0' <= c <= '9' {
        Some(c as int - '0' as int)
    } else if 'a' <= c <= 'f' {
        Some(c as int - 'a' as int + 10)
    } else if 'A' <= c <= 'F' {
        Some(c as int - 'A' as int + 10)
    } else {
        None
    }
}

/// The value of hexadecimal digits, or `None` when one is not a digit.
pub open spec fn hex_digits(d: Seq<char>) -> Option<int>
    decreases d.len(),
{
    if d.len() == 0 {
        Some(0)
    } else {
        match (hex_digits(d.drop_last()), hex_value(d.last())) {
            (Some(a), Some(b)) => Some(a * 16 + b),
            _ => None,
        }
    }
}

/// What `u16::from_str_radix(d, 16)` accepts of four characters: four
/// hexadecimal digits, or `+` and three.
pub open spec fn hex4_value(d: Seq<char>) -> Option<int> {
    if d.len() == 4 && d[0] == '+' {
        hex_digits(d.skip(1))
    } else {
        hex_digits(d)
    }
}

/// The four characters at `i` read as a hexadecimal code unit.
pub open spec fn hex4(s: Seq<char>, i: int) -> Result<int, Seq<char>> {
    if byte_offset(s, s.len() as int) < byte_offset(s, i) + 4 {
        Err("truncated unicode escape"@)
    } else if i + 4 <= s.len() && hex4_value(s.subrange(i, i + 4)) is Some {
        Ok(hex4_value(s.subrange(i, i + 4))->0)
    } else {
        Err("invalid unicode escape"@)
    }
}

/// The character whose code is `v`.
pub open spec fn code_char(v: int) -> char {
    choose|c: char| #[trigger] code_of(c) == v
}

/// The code of a character.
pub open spec fn code_of(c: char) -> int {
    c as int
}

/// A Unicode scalar value: not a surrogate, not past `U+10FFFF`.
pub open spec fn is_scalar(v: int) -> bool {
    (0 <= v < 0xD800) || (0xE000 <= v <= 0x10FFFF)
}

/// The escape `\uXXXX` whose digits start at `i`, with a second `\uXXXX`
/// after a high surrogate: the character, and whether two escapes were read.
pub open spec fn unicode_escape(s: Seq<char>, i: int) -> Result<(char, bool), Seq<char>> {
    match hex4(s, i) {
        Err(e) => Err(e),
        Ok(high) => if 0xD800 <= high < 0xDC00 {
            if i + 5 < s.len() && s[i + 4] == '\\' && s[i + 5] == 'u' {
                match hex4(s, i + 6) {
                    Err(e) => Err(e),
                    Ok(low) => if 0xDC00 <= low < 0xE000 {
                        Ok((code_char((high - 0xD800) * 1024 + (low - 0xDC00) + 0x10000), true))
                    } else {
                        Err("invalid low surrogate"@)
                    },
                }
            } else {
                Err("lone high surrogate"@)
            }
        } else if is_scalar(high) {
            Ok((code_char(high), false))
        } else {
            Err("invalid unicode escape"@)
        },
    }
}

/// The first byte of the UTF-8 encoding of `c`.
pub open spec fn lead_byte(c: char) -> u8 {
    let v = c as u32;
    if v < 0x80 {
        v as u8
    } else if v < 0x800 {
        (0xC0 + v / 64) as u8
    } else if v < 0x10000 {
        (0xE0 + v / 4096) as u8
    } else {
        (0xF0 + v / 262144) as u8
    }
}

/// The character an escape letter stands for, if it is one of `"\/bfnrt`.
pub open spec fn simple_escape(c: char) -> Option<char> {
    if c == '"' { Some('"') }
    else if c == '\\' { Some('\\') }
    else if c == '/' { Some('/') }
    else if c == 'b' { Some('\u{8}') }
    else if c == 'f' { Some('\u{c}') }
    else if c == 'n' { Some('\n') }
    else if c == 'r' { Some('\r') }
    else if c == 't' { Some('\t') }
    else { None }
}

/// The rest of a string from `i` on, `acc` read so far: the text and the
/// position after the closing quote.
pub open spec fn string_body(s: Seq<char>, i: int, acc: Seq<char>) -> Result<(Seq<char>, int), Seq<char>>
    decreases s.len() - i,
{
    if i < 0 || i >= s.len() {
        Err("unterminated string"@)
    } else if s[i] == '"' {
        Ok((acc, i + 1))
    } else if s[i] == '\\' {
        if i + 1 >= s.len() {
            Err("unterminated escape"@)
        } else if simple_escape(s[i + 1]) is Some {
            string_body(s, i + 2, acc.push(simple_escape(s[i + 1])->0))
        } else if s[i + 1] == 'u' {
            match unicode_escape(s, i + 2) {
                Err(e) => Err(e),
                Ok((c, pair)) => string_body(s, if pair { i + 12 } else { i + 6 }, acc.push(c)),
            }
        } else {
            Err("invalid escape '\\"@ + seq![lead_byte(s[i + 1]) as char] + "'"@)
        }
    } else {
        string_body(s, i + 1, acc.push(s[i]))
    }
}

/// `expected 'c' at byte N`.
pub open spec fn expected(c: char, s: Seq<char>, i: int) -> Seq<char> {
    "expected '"@ + seq![c] + "'"@ + at_byte(s, i)
}

/// A string starting at `i` with its opening quote.
pub open spec fn string_at(s: Seq<char>, i: int) -> Result<(Seq<char>, int), Seq<char>> {
    if 0 <= i < s.len() && s[i] == '"' {
        string_body(s, i + 1, Seq::empty())
    } else {
        Err(expected('"', s, i))
    }
}

pub proof fn lemma_string_body_advances(s: Seq<char>, i: int, acc: Seq<char>)
    ensures
        string_body(s, i, acc) matches Ok((_, j)) ==> i < j <= s.len(),
    decreases s.len() - i,
{
    if i < 0 || i >= s.len() {
    } else if s[i] == '"' {
    } else if s[i] == '\\' {
        if i + 1 >= s.len() {
        } else if simple_escape(s[i + 1]) is Some {
            lemma_string_body_advances(s, i + 2, acc.push(simple_escape(s[i + 1])->0));
        } else if s[i + 1] == 'u' {
            match unicode_escape(s, i + 2) {
                Err(e) => {},
                Ok((c, pair)) => {
                    lemma_string_body_advances(s, if pair { i + 12 } else { i + 6 }, acc.push(c));
                },
            }
        }
    } else {
        lemma_string_body_advances(s, i + 1, acc.push(s[i]));
    }
}

/// Characters that may make up a number: digits, `.`, `e`, `E`, `+`, `-`.
pub open spec fn is_number_char(c: char) -> bool {
    ('0' <= c <= '9') || c == '.' || c == 'e' || c == 'E' || c == '+' || c == '-'
}

/// The end of the run of number characters from `i`.
pub open spec fn number_end(s: Seq<char>, i: int) -> int
    decreases s.len() - i,
{
    if 0 <= i < s.len() && is_number_char(s[i]) { number_end(s, i + 1) } else { i }
}

/// A number starting at `i`: an optional sign, then the run of number
/// characters.  Without `.`, `e` or `E` it is read as an `i64` when it is
/// one; otherwise its text must read as a float.
pub open spec fn number_at(s: Seq<char>, i: int) -> Result<(Json, int), Seq<char>> {
    let j0 = if 0 <= i < s.len() && (s[i] == '-' || s[i] == '+') { i + 1 } else { i };
    let j = number_end(s, j0);
    let text = s.subrange(i, j);
    let is_float = exists|k: int| j0 <= k < j && (s[k] == '.' || s[k] == 'e' || s[k] == 'E');
    if text.len() == 0 {
        Err("expected a value"@ + at_byte(s, i))
    } else if !is_float && parse_i64_spec(text) is Some {
        Ok((Json::Int(parse_i64_spec(text)->0), j))
    } else if is_float_text(text) {
        Ok((Json::Float(text), j))
    } else {
        Err("invalid number '"@ + text + "'"@)
    }
}

/// A number text that reading keeps as text: after an optional sign only
/// number characters, a `.`, `e` or `E` in it or no 64-bit integer value,
/// and readable as a float.
pub open spec fn float_text(t: Seq<char>) -> bool {
    let j0 = if t.len() > 0 && (t[0] == '-' || t[0] == '+') { 1int } else { 0int };
    &&& t.len() > 0
    &&& forall|k: int| j0 <= k < t.len() ==> is_number_char(#[trigger] t[k])
    &&& ((exists|k: int| j0 <= k < t.len() && (t[k] == '.' || t[k] == 'e' || t[k] == 'E'))
        || parse_i64_spec(t) is None)
    &&& is_float_text(t)
}

/// Every character of the run from `i` to `number_end(s, i)` is a number
/// character.
pub proof fn lemma_number_chars(s: Seq<char>, i: int)
    requires
        0 <= i <= s.len(),
    ensures
        forall|k: int| i <= k < number_end(s, i) ==> is_number_char(#[trigger] s[k]),
    decreases s.len() - i,
{
    if 0 <= i < s.len() && is_number_char(s[i]) {
        lemma_number_chars(s, i + 1);
    }
}

pub proof fn lemma_number_end(s: Seq<char>, i: int)
    requires
        0 <= i <= s.len(),
    ensures
        i <= number_end(s, i) <= s.len(),
    decreases s.len() - i,
{
    if 0 <= i < s.len() && is_number_char(s[i]) {
        lemma_number_end(s, i + 1);
    }
}

/// A keyword `word` at `i`.
pub open spec fn keyword_at(s: Seq<char>, i: int, word: Seq<char>, v: Json) -> Result<(Json, int), Seq<char>> {
    if occurs_at(s, word, i) {
        Ok((v, i + word.len()))
    } else {
        Err("invalid literal"@ + at_byte(s, i))
    }
}

// ---------------------------------------------------------------------------
// Reading: values

/// The value starting at `i`, and the position after it.
pub open spec fn value_at(s: Seq<char>, i: int) -> Result<(Json, int), Seq<char>>
    decreases s.len() - i, 1int,
{
    if i < 0 || i >= s.len() {
        Err("unexpected end of input"@)
    } else if s[i] == '{' {
        object_at(s, i)
    } else if s[i] == '[' {
        array_at(s, i)
    } else if s[i] == '"' {
        match string_at(s, i) {
            Err(e) => Err(e),
            Ok((t, j)) => Ok((Json::Str(t), j)),
        }
    } else if s[i] == 't' {
        keyword_at(s, i, "true"@, Json::Bool(true))
    } else if s[i] == 'f' {
        keyword_at(s, i, "false"@, Json::Bool(false))
    } else if s[i] == 'n' {
        keyword_at(s, i, "null"@, Json::Null)
    } else {
        number_at(s, i)
    }
}

/// An array starting at its `[` at `i`.
pub open spec fn array_at(s: Seq<char>, i: int) -> Result<(Json, int), Seq<char>>
    decreases s.len() - i, 0int,
{
    if i < 0 || i >= s.len() || s[i] != '[' {
        Err(expected('[', s, i))
    } else {
        let p = skip_ws(s, i + 1);
        if 0 <= p < s.len() && s[p] == ']' {
            Ok((Json::List(Seq::empty()), p + 1))
        } else {
            items_at(s, i + 1, Seq::empty())
        }
    }
}

/// The items of an array from `i` on, `acc` read so far.
pub open spec fn items_at(s: Seq<char>, i: int, acc: Seq<Json>) -> Result<(Json, int), Seq<char>>
    decreases s.len() - i, 2int,
{
    let p = skip_ws(s, i);
    proof { lemma_skip_ws(s, i); }
    if i < 0 || i > s.len() {
        Err("unexpected end of input"@)
    } else {
        match value_at(s, p) {
            Err(e) => Err(e),
            Ok((v, q)) => {
                let r = skip_ws(s, q);
                proof { lemma_skip_ws(s, q); }
                if r <= i {
                    Err("unexpected end of input"@)
                } else if 0 <= r < s.len() && s[r] == ',' {
                    items_at(s, r + 1, acc.push(v))
                } else if 0 <= r < s.len() && s[r] == ']' {
                    Ok((Json::List(acc.push(v)), r + 1))
                } else {
                    Err("expected ',' or ']'"@ + at_byte(s, r))
                }
            },
        }
    }
}

/// An object starting at its `{` at `i`.
pub open spec fn object_at(s: Seq<char>, i: int) -> Result<(Json, int), Seq<char>>
    decreases s.len() - i, 0int,
{
    if i < 0 || i >= s.len() || s[i] != '{' {
        Err(expected('{', s, i))
    } else {
        let p = skip_ws(s, i + 1);
        if 0 <= p < s.len() && s[p] == '}' {
            Ok((Json::Object(Seq::empty()), p + 1))
        } else {
            members_at(s, i + 1, Seq::empty())
        }
    }
}

/// The members of an object from `i` on, `acc` read so far.
pub open spec fn members_at(s: Seq<char>, i: int, acc: Seq<(Seq<char>, Json)>) -> Result<(Json, int), Seq<char>>
    decreases s.len() - i, 2int,
{
    let p = skip_ws(s, i);
    proof { lemma_skip_ws(s, i); }
    if i < 0 || i > s.len() {
        Err("unexpected end of input"@)
    } else {
        match string_at(s, p) {
            Err(e) => Err(e),
            Ok((k, q)) => {
                let q2 = skip_ws(s, q);
                if !(0 <= q2 < s.len() && s[q2] == ':') {
                    Err(expected(':', s, q2))
                } else {
                    let q3 = skip_ws(s, q2 + 1);
                    proof {
                        lemma_string_body_advances(s, p + 1, Seq::empty());
                        lemma_skip_ws(s, q);
                        lemma_skip_ws(s, q2 + 1);
                    }
                    match value_at(s, q3) {
                        Err(e) => Err(e),
                        Ok((v, q4)) => {
                            let r = skip_ws(s, q4);
                            proof { lemma_skip_ws(s, q4); }
                            let acc2 = insert_entry(acc, k, v);
                            if r <= i {
                                Err("unexpected end of input"@)
                            } else if 0 <= r < s.len() && s[r] == ',' {
                                members_at(s, r + 1, acc2)
                            } else if 0 <= r < s.len() && s[r] == '}' {
                                Ok((Json::Object(acc2), r + 1))
                            } else {
                                Err("expected ',' or '}'"@ + at_byte(s, r))
                            }
                        },
                    }
                }
            },
        }
    }
}

/// A whole document: one value, with whitespace around it and nothing else.
pub open spec fn parse_spec(s: Seq<char>) -> Result<Json, Seq<char>> {
    match value_at(s, skip_ws(s, 0)) {
        Err(e) => Err(e),
        Ok((v, q)) => {
            let r = skip_ws(s, q);
            if r < s.len() {
                Err("unexpected trailing content"@ + at_byte(s, r))
            } else {
                Ok(v)
            }
        },
    }
}

// ---------------------------------------------------------------------------
// Reading: every value read takes at least one character

#[verifier::rlimit(50)]
pub proof fn lemma_value_advances(s: Seq<char>, i: int)
    ensures
        value_at(s, i) matches Ok((_, j)) ==> i < j <= s.len(),
    decreases s.len() - i, 1int,
{
    if i < 0 || i >= s.len() {
    } else if s[i] == '{' {
        lemma_object_advances(s, i);
    } else if s[i] == '[' {
        lemma_array_advances(s, i);
    } else if s[i] == '"' {
        lemma_string_body_advances(s, i + 1, Seq::empty());
    } else if s[i] == 't' || s[i] == 'f' || s[i] == 'n' {
        reveal_strlit("true");
        reveal_strlit("false");
        reveal_strlit("null");
    } else {
        lemma_number_advances(s, i);
    }
}

proof fn lemma_number_advances(s: Seq<char>, i: int)
    requires
        0 <= i < s.len(),
    ensures
        number_at(s, i) matches Ok((_, j)) ==> i < j <= s.len(),
{
    let j0 = if 0 <= i < s.len() && (s[i] == '-' || s[i] == '+') { i + 1 } else { i };
    lemma_number_end(s, j0);
}

pub proof fn lemma_array_advances(s: Seq<char>, i: int)
    ensures
        array_at(s, i) matches Ok((_, j)) ==> i < j <= s.len(),
    decreases s.len() - i, 0int,
{
    if i < 0 || i >= s.len() || s[i] != '[' {
    } else {
        lemma_skip_ws(s, i + 1);
        lemma_items_advances(s, i + 1, Seq::empty());
    }
}

pub proof fn lemma_items_advances(s: Seq<char>, i: int, acc: Seq<Json>)
    ensures
        items_at(s, i, acc) matches Ok((_, j)) ==> i < j <= s.len(),
    decreases s.len() - i, 2int,
{
    let p = skip_ws(s, i);
    lemma_skip_ws(s, i);
    if i < 0 || i > s.len() {
    } else {
        lemma_value_advances(s, p);
        match value_at(s, p) {
            Err(e) => {},
            Ok((v, q)) => {
                let r = skip_ws(s, q);
                lemma_skip_ws(s, q);
                if r <= i {
                } else if 0 <= r < s.len() && s[r] == ',' {
                    lemma_items_advances(s, r + 1, acc.push(v));
                }
            },
        }
    }
}

pub proof fn lemma_object_advances(s: Seq<char>, i: int)
    ensures
        object_at(s, i) matches Ok((_, j)) ==> i < j <= s.len(),
    decreases s.len() - i, 0int,
{
    if i < 0 || i >= s.len() || s[i] != '{' {
    } else {
        lemma_skip_ws(s, i + 1);
        lemma_members_advances(s, i + 1, Seq::empty());
    }
}

pub proof fn lemma_members_advances(s: Seq<char>, i: int, acc: Seq<(Seq<char>, Json)>)
    ensures
        members_at(s, i, acc) matches Ok((_, j)) ==> i < j <= s.len(),
    decreases s.len() - i, 2int,
{
    let p = skip_ws(s, i);
    lemma_skip_ws(s, i);
    if i < 0 || i > s.len() {
    } else {
        match string_at(s, p) {
            Err(e) => {},
            Ok((k, q)) => {
                let q2 = skip_ws(s, q);
                if !(0 <= q2 < s.len() && s[q2] == ':') {
                } else {
                    let q3 = skip_ws(s, q2 + 1);
                    lemma_string_body_advances(s, p + 1, Seq::empty());
                    lemma_skip_ws(s, q);
                    lemma_skip_ws(s, q2 + 1);
                    lemma_value_advances(s, q3);
                    match value_at(s, q3) {
                        Err(e) => {},
                        Ok((v, q4)) => {
                            let r = skip_ws(s, q4);
                            lemma_skip_ws(s, q4);
                            if r <= i {
                            } else if 0 <= r < s.len() && s[r] == ',' {
                                lemma_members_advances(s, r + 1, insert_entry(acc, k, v));
                            }
                        },
                    }
                }
            },
        }
    }
}

pub proof fn lemma_jsons_of(vs: Seq<JsonValue>)
    ensures
        jsons_of(vs).len() == vs.len(),
        forall|i: int| 0 <= i < vs.len() ==> #[trigger] jsons_of(vs)[i] == json_of(vs[i]),
    decreases vs.len(),
{
    if vs.len() > 0 {
        lemma_jsons_of(vs.drop_last());
        assert forall|i: int| 0 <= i < vs.len() implies #[trigger] jsons_of(vs)[i] == json_of(vs[i]) by {
            if i < vs.len() - 1 {
                assert(vs.drop_last()[i] == vs[i]);
            }
        }
    }
}

pub proof fn lemma_entries_of(es: Seq<(String, JsonValue)>)
    ensures
        entries_of(es).len() == es.len(),
        forall|i: int| 0 <= i < es.len() ==> #[trigger] entries_of(es)[i] == (es[i].0@, json_of(es[i].1)),
    decreases es.len(),
{
    if es.len() > 0 {
        lemma_entries_of(es.drop_last());
        assert forall|i: int| 0 <= i < es.len() implies #[trigger] entries_of(es)[i] == (es[i].0@, json_of(es[i].1)) by {
            if i < es.len() - 1 {
                assert(es.drop_last()[i] == es[i]);
            }
        }
    }
}

proof fn lemma_insert_prefix(es: Seq<(Seq<char>, Json)>, k: Seq<char>, v: Json, i: int)
    requires
        0 <= i <= es.len(),
        forall|j: int| 0 <= j < i ==> #[trigger] es[j].0 != k,
    ensures
        insert_entry(es, k, v) == es.take(i) + insert_entry(es.skip(i), k, v),
    decreases i,
{
    if i == 0 {
        assert(es.skip(0) =~= es);
        assert(es.take(0) + insert_entry(es, k, v) =~= insert_entry(es, k, v));
    } else {
        assert(es[0].0 != k);
        let rest = es.skip(1);
        assert forall|j: int| 0 <= j < i - 1 implies #[trigger] rest[j].0 != k by {
            assert(rest[j] == es[j + 1]);
        }
        lemma_insert_prefix(rest, k, v, i - 1);
        assert(rest.skip(i - 1) =~= es.skip(i));
        assert(seq![es[0]] + (rest.take(i - 1) + insert_entry(es.skip(i), k, v))
            =~= es.take(i) + insert_entry(es.skip(i), k, v));
    }
}

proof fn lemma_key_lt_skip(a: Seq<char>, b: Seq<char>, i: int)
    requires
        0 <= i <= a.len(),
        i <= b.len(),
        forall|j: int| 0 <= j < i ==> a[j] == b[j],
    ensures
        key_lt(a, b) == key_lt(a.skip(i), b.skip(i)),
    decreases i,
{
    if i == 0 {
        assert(a.skip(0) =~= a);
        assert(b.skip(0) =~= b);
    } else {
        assert(a[0] == b[0]);
        assert(a.skip(1).skip(i - 1) =~= a.skip(i));
        assert(b.skip(1).skip(i - 1) =~= b.skip(i));
        assert forall|j: int| 0 <= j < i - 1 implies a.skip(1)[j] == b.skip(1)[j] by {
            assert(a.skip(1)[j] == a[j + 1]);
            assert(b.skip(1)[j] == b[j + 1]);
        }
        lemma_key_lt_skip(a.skip(1), b.skip(1), i - 1);
    }
}

/// Whether `a` comes before `b` in text order.
pub(crate) fn key_less(a: &[char], b: &[char]) -> (r: bool)
    ensures
        r == key_lt(a@, b@),
{
    let mut i: usize = 0;
    while i < a.len() && i < b.len() && a[i] == b[i]
        invariant
            i <= a@.len(),
            i <= b@.len(),
            forall|j: int| 0 <= j < i ==> a@[j] == b@[j],
        decreases a@.len() - i,
    {
        i = i + 1;
    }
    proof { lemma_key_lt_skip(a@, b@, i as int); }
    if i == a.len() {
        i < b.len()
    } else if i == b.len() {
        false
    } else {
        assert(a@.skip(i as int)[0] == a@[i as int]);
        assert(b@.skip(i as int)[0] == b@[i as int]);
        a[i] < b[i]
    }
}

/// Binds `k` to `v` among the entries of an object: in the place of an entry
/// with that key, or last.
fn insert_member(entries: &mut Vec<(String, JsonValue)>, k: String, v: JsonValue)
    ensures
        entries_of(final(entries)@) == insert_entry(entries_of(old(entries)@), k@, json_of(v)),
{
    let ghost es = entries_of(entries@);
    proof { lemma_entries_of(entries@); }
    let kc = chars_of(k.as_str());
    let mut i: usize = 0;
    while i < entries.len()
        invariant
            i <= entries@.len(),
            entries@ == old(entries)@,
            es == entries_of(entries@),
            es.len() == entries@.len(),
            forall|j: int| 0 <= j < entries@.len() ==> #[trigger] es[j] == (entries@[j].0@, json_of(entries@[j].1)),
            kc@ == k@,
            forall|j: int| 0 <= j < i ==> #[trigger] es[j].0 != k@,
        decreases entries@.len() - i,
    {
        let ki = chars_of(entries[i].0.as_str());
        assert(ki@ == es[i as int].0);
        proof { lemma_insert_prefix(es, k@, json_of(v), i as int); }
        assert(es.skip(i as int)[0] == es[i as int]);
        if crate::text::chars_eq(ki.as_slice(), kc.as_slice()) {
            let ghost old_es = entries@;
            entries.remove(i);
            entries.insert(i, (k, v));
            proof {
                lemma_entries_of(entries@);
                assert(entries_of(entries@) =~= es.take(i as int) + (seq![(k@, json_of(v))] + es.skip(i as int).skip(1)));
            }
            return;
        }
        i = i + 1;
    }
    proof { lemma_insert_prefix(es, k@, json_of(v), i as int); }
    entries.push((k, v));
    proof {
        lemma_entries_of(entries@);
        assert(es.skip(i as int) =~= Seq::<(Seq<char>, Json)>::empty());
        assert(entries_of(entries@) =~= es.take(i as int) + insert_entry(es.skip(i as int), k@, json_of(v)));
    }
}

// ---------------------------------------------------------------------------
// Reading: the executable reader

pub proof fn lemma_byte_offset(s: Seq<char>, i: int, j: int)
    requires
        0 <= i <= j,
    ensures
        byte_offset(s, i) + (j - i) <= byte_offset(s, j),
        byte_offset(s, j) <= byte_offset(s, i) + 4 * (j - i),
        byte_offset(s, i) <= 4 * i,
    decreases j,
{
    if j > i {
        lemma_byte_offset(s, i, j - 1);
    } else if i > 0 {
        lemma_byte_offset(s, i - 1, i - 1);
    }
}

/// `char::from_u32`: the character with code `v` when `v` is a Unicode scalar
/// value, `None` otherwise, as its documentation states.
#[verifier::external_body]
pub(crate) fn char_from_u32(v: u32) -> (r: Option<char>)
    ensures
        match r {
            Some(c) => is_scalar(v as int) && c as int == v as int,
            None => !is_scalar(v as int),
        },
{
    char::from_u32(v)
}

fn utf8_len_exec(c: char) -> (n: usize)
    ensures
        n == utf8_len(c),
{
    let v = c as u32;
    if v < 0x80 { 1 } else if v < 0x800 { 2 } else if v < 0x10000 { 3 } else { 4 }
}

fn hex_value_exec(c: char) -> (r: Option<u32>)
    ensures
        match (r, hex_value(c)) {
            (Some(a), Some(b)) => a == b,
            (None, None) => true,
            _ => false,
        },
{
    if '0' <= c && c <= '9' {
        Some((c as u32) - ('0' as u32))
    } else if 'a' <= c && c <= 'f' {
        Some((c as u32) - ('a' as u32) + 10)
    } else if 'A' <= c && c <= 'F' {
        Some((c as u32) - ('A' as u32) + 10)
    } else {
        None
    }
}

fn hex_digits_exec(d: &[char], lo: usize) -> (r: Option<u32>)
    requires
        lo <= d@.len() <= 4,
    ensures
        match (r, hex_digits(d@.subrange(lo as int, d@.len() as int))) {
            (Some(a), Some(b)) => a == b,
            (None, None) => true,
            _ => false,
        },
{
    let mut acc: u32 = 0;
    let mut k = lo;
    assert(d@.subrange(lo as int, lo as int) =~= Seq::<char>::empty());
    while k < d.len()
        invariant
            lo <= k <= d@.len() <= 4,
            hex_digits(d@.subrange(lo as int, k as int)) == Some(acc as int),
            k - lo == 0 ==> acc == 0,
            k - lo == 1 ==> acc < 16,
            k - lo == 2 ==> acc < 256,
            k - lo == 3 ==> acc < 4096,
            k - lo == 4 ==> acc < 65536,
        decreases d@.len() - k,
    {
        let ghost prefix = d@.subrange(lo as int, (k + 1) as int);
        assert(prefix.drop_last() =~= d@.subrange(lo as int, k as int));
        match hex_value_exec(d[k]) {
            None => {
                proof { lemma_hex_digits_none(d@.subrange(lo as int, d@.len() as int), (k - lo) as int); }
                assert(d@.subrange(lo as int, d@.len() as int).subrange(0, k - lo + 1) =~= prefix);
                return None;
            },
            Some(h) => {
                acc = acc * 16 + h;
            },
        }
        k = k + 1;
    }
    Some(acc)
}

proof fn lemma_hex_digits_none(d: Seq<char>, k: int)
    requires
        0 <= k < d.len(),
        hex_value(d[k]) is None,
    ensures
        hex_digits(d) is None,
    decreases d.len(),
{
    if k < d.len() - 1 {
        assert(d.drop_last()[k] == d[k]);
        lemma_hex_digits_none(d.drop_last(), k);
    }
}

fn hex4_value_exec(d: &[char]) -> (r: Option<u32>)
    requires
        d@.len() == 4,
    ensures
        match (r, hex4_value(d@)) {
            (Some(a), Some(b)) => a == b,
            (None, None) => true,
            _ => false,
        },
{
    if d[0] == '+' {
        assert(d@.subrange(1, 4) =~= d@.skip(1));
        hex_digits_exec(d, 1)
    } else {
        assert(d@.subrange(0, 4) =~= d@);
        hex_digits_exec(d, 0)
    }
}

fn slice_of(s: &Vec<char>, lo: usize, hi: usize) -> (r: Vec<char>)
    requires
        lo <= hi <= s@.len(),
    ensures
        r@ == s@.subrange(lo as int, hi as int),
{
    let mut out: Vec<char> = Vec::new();
    let mut k = lo;
    while k < hi
        invariant
            lo <= k <= hi <= s@.len(),
            out@ == s@.subrange(lo as int, k as int),
        decreases hi - k,
    {
        out.push(s[k]);
        k = k + 1;
        assert(s@.subrange(lo as int, k as int) == s@.subrange(lo as int, k - 1).push(s@[k - 1]));
    }
    out
}

/// The reader over a document's characters: a position and its byte offset.
struct Reader {
    s: Vec<char>,
    pos: usize,
    byte: usize,
    total: usize,
}

fn message(text: &str) -> (r: String)
    ensures
        r@ == text@,
{
    let v = chars_of(text);
    string_from_chars(v)
}

impl Reader {
    spec fn inv(&self) -> bool {
        &&& self.pos <= self.s@.len()
        &&& self.byte == byte_offset(self.s@, self.pos as int)
        &&& self.total == byte_offset(self.s@, self.s@.len() as int)
        &&& 4 * self.s@.len() + 16 < usize::MAX
    }

    fn new(s: Vec<char>) -> (r: Reader)
        requires
            4 * s@.len() + 16 < usize::MAX,
        ensures
            r.inv(),
            r.s@ == s@,
            r.pos == 0,
    {
        let mut total: usize = 0;
        let mut i: usize = 0;
        while i < s.len()
            invariant
                i <= s@.len(),
                4 * s@.len() + 16 < usize::MAX,
                total == byte_offset(s@, i as int),
            decreases s@.len() - i,
        {
            proof { lemma_byte_offset(s@, i as int, i as int); }
            total = total + utf8_len_exec(s[i]);
            i = i + 1;
        }
        Reader { s, pos: 0, byte: 0, total }
    }

    fn advance(&mut self)
        requires
            old(self).inv(),
            old(self).pos < old(self).s@.len(),
        ensures
            final(self).inv(),
            final(self).s == old(self).s,
            final(self).pos == old(self).pos + 1,
    {
        proof { lemma_byte_offset(self.s@, self.pos as int, self.pos as int); }
        self.byte = self.byte + utf8_len_exec(self.s[self.pos]);
        self.pos = self.pos + 1;
    }

    fn at(&self, i: usize) -> (r: Option<char>)
        ensures
            i < self.s@.len() ==> r == Some(self.s@[i as int]),
            i >= self.s@.len() ==> r is None,
    {
        if i < self.s.len() { Some(self.s[i]) } else { None }
    }

    /// `" at byte N"` for the current position.
    fn at_byte_text(&self, out: &mut Vec<char>)
        requires
            self.inv(),
        ensures
            final(out)@ == old(out)@ + at_byte(self.s@, self.pos as int),
    {
        append_str(out, " at byte ");
        let d = u64_decimal(self.byte as u64);
        append_chars(out, &d);
    }

    fn expected_error(&self, c: char) -> (r: String)
        requires
            self.inv(),
        ensures
            r@ == expected(c, self.s@, self.pos as int),
    {
        let mut out: Vec<char> = Vec::new();
        append_str(&mut out, "expected '");
        out.push(c);
        append_str(&mut out, "'");
        self.at_byte_text(&mut out);
        assert(out@ =~= expected(c, self.s@, self.pos as int));
        string_from_chars(out)
    }

    fn skip_whitespace(&mut self)
        requires
            old(self).inv(),
        ensures
            final(self).inv(),
            final(self).s == old(self).s,
            final(self).pos == skip_ws(old(self).s@, old(self).pos as int),
    {
        let ghost start = self.pos as int;
        loop
            invariant
                self.inv(),
                self.s == old(self).s,
                start == old(self).pos,
                skip_ws(self.s@, self.pos as int) == skip_ws(self.s@, start),
            decreases self.s@.len() - self.pos,
        {
            match self.at(self.pos) {
                Some(c) => {
                    if c == ' ' || c == '\t' || c == '\n' || c == '\r' {
                        self.advance();
                    } else {
                        assert(skip_ws(self.s@, self.pos as int) == self.pos);
                        return;
                    }
                },
                None => {
                    assert(skip_ws(self.s@, self.pos as int) == self.pos);
                    return;
                },
            }
        }
    }

    fn parse_hex4(&mut self) -> (r: Result<u32, String>)
        requires
            old(self).inv(),
        ensures
            final(self).inv(),
            final(self).s == old(self).s,
            match (r, hex4(old(self).s@, old(self).pos as int)) {
                (Ok(v), Ok(w)) => v == w && final(self).pos == old(self).pos + 4,
                (Err(e), Err(m)) => e@ == m,
                _ => false,
            },
    {
        proof { lemma_byte_offset(self.s@, self.pos as int, self.s@.len() as int); }
        if self.total < self.byte + 4 {
            return Err(message("truncated unicode escape"));
        }
        if self.pos + 4 > self.s.len() {
            return Err(message("invalid unicode escape"));
        }
        let p = self.pos;
        let d = [self.s[p], self.s[p + 1], self.s[p + 2], self.s[p + 3]];
        assert(d@ =~= self.s@.subrange(p as int, p + 4));
        match hex4_value_exec(&d) {
            None => Err(message("invalid unicode escape")),
            Some(v) => {
                self.advance();
                self.advance();
                self.advance();
                self.advance();
                Ok(v)
            },
        }
    }

    fn parse_unicode_escape(&mut self) -> (r: Result<char, String>)
        requires
            old(self).inv(),
        ensures
            final(self).inv(),
            final(self).s == old(self).s,
            match (r, unicode_escape(old(self).s@, old(self).pos as int)) {
                (Ok(c), Ok((d, pair))) => c == d && final(self).pos == old(self).pos + if pair { 10int } else { 4int },
                (Err(e), Err(m)) => e@ == m,
                _ => false,
            },
    {
        let ghost i = self.pos as int;
        let high = match self.parse_hex4() {
            Err(e) => { return Err(e); },
            Ok(v) => v,
        };
        if 0xD800 <= high && high < 0xDC00 {
            if self.at(self.pos) == Some('\\') && self.at(self.pos + 1) == Some('u') {
                self.advance();
                self.advance();
                let low = match self.parse_hex4() {
                    Err(e) => { return Err(e); },
                    Ok(v) => v,
                };
                if 0xDC00 <= low && low < 0xE000 {
                    let code: u32 = (high - 0xD800) * 1024 + (low - 0xDC00) + 0x10000;
                    match char_from_u32(code) {
                        Some(c) => {
                            assert(code_of(c) == code as int);
                            assert(c == code_char(code as int));
                            Ok(c)
                        },
                        None => Err(message("invalid surrogate pair")),
                    }
                } else {
                    Err(message("invalid low surrogate"))
                }
            } else {
                Err(message("lone high surrogate"))
            }
        } else {
            match char_from_u32(high) {
                Some(c) => {
                    assert(code_of(c) == high as int);
                    assert(c == code_char(high as int));
                    Ok(c)
                },
                None => Err(message("invalid unicode escape")),
            }
        }
    }

    fn parse_string(&mut self) -> (r: Result<String, String>)
        requires
            old(self).inv(),
        ensures
            final(self).inv(),
            final(self).s == old(self).s,
            match (r, string_at(old(self).s@, old(self).pos as int)) {
                (Ok(t), Ok((u, j))) => t@ == u && final(self).pos == j,
                (Err(e), Err(m)) => e@ == m,
                _ => false,
            },
    {
        if self.at(self.pos) != Some('"') {
            return Err(self.expected_error('"'));
        }
        self.advance();
        let mut out: Vec<char> = Vec::new();
        let ghost start = self.pos as int;
        assert(out@ =~= Seq::<char>::empty());
        loop
            invariant
                self.inv(),
                self.s == old(self).s,
                start == old(self).pos + 1,
                string_at(self.s@, old(self).pos as int) == string_body(self.s@, start, Seq::empty()),
                string_body(self.s@, self.pos as int, out@) == string_body(self.s@, start, Seq::empty()),
            decreases self.s@.len() - self.pos,
        {
            let c = match self.at(self.pos) {
                None => { return Err(message("unterminated string")); },
                Some(c) => c,
            };
            if c == '"' {
                self.advance();
                return Ok(string_from_chars(out));
            }
            if c == '\\' {
                let e = match self.at(self.pos + 1) {
                    None => { return Err(message("unterminated escape")); },
                    Some(e) => e,
                };
                let simple = if e == '"' { Some('"') }
                    else if e == '\\' { Some('\\') }
                    else if e == '/' { Some('/') }
                    else if e == 'b' { Some('\u{8}') }
                    else if e == 'f' { Some('\u{c}') }
                    else if e == 'n' { Some('\n') }
                    else if e == 'r' { Some('\r') }
                    else if e == 't' { Some('\t') }
                    else { None };
                assert(simple == simple_escape(e));
                match simple {
                    Some(x) => {
                        self.advance();
                        self.advance();
                        out.push(x);
                    },
                    None => {
                        if e == 'u' {
                            self.advance();
                            self.advance();
                            match self.parse_unicode_escape() {
                                Err(m) => { return Err(m); },
                                Ok(ch) => { out.push(ch); },
                            }
                        } else {
                            let v = e as u32;
                            let b: u8 = if v < 0x80 {
                                v as u8
                            } else if v < 0x800 {
                                (0xC0 + v / 64) as u8
                            } else if v < 0x10000 {
                                (0xE0 + v / 4096) as u8
                            } else {
                                (0xF0 + v / 262144) as u8
                            };
                            let mut msg: Vec<char> = Vec::new();
                            append_str(&mut msg, "invalid escape '\\");
                            msg.push(b as char);
                            append_str(&mut msg, "'");
                            assert(msg@ =~= "invalid escape '\\"@ + seq![lead_byte(e) as char] + "'"@);
                            return Err(string_from_chars(msg));
                        }
                    },
                }
            } else {
                out.push(c);
                self.advance();
            }
        }
    }

    fn parse_literal(&mut self, word: &str, v: JsonValue) -> (r: Result<JsonValue, String>)
        requires
            old(self).inv(),
        ensures
            final(self).inv(),
            final(self).s == old(self).s,
            match (r, keyword_at(old(self).s@, old(self).pos as int, word@, v@)) {
                (Ok(x), Ok((y, j))) => x@ == y && final(self).pos == j,
                (Err(e), Err(m)) => e@ == m,
                _ => false,
            },
    {
        let w = chars_of(word);
        if occurs_at_exec(self.s.as_slice(), w.as_slice(), self.pos) {
            let mut k: usize = 0;
            let ghost p0 = self.pos;
            while k < w.len()
                invariant
                    self.inv(),
                    self.s == old(self).s,
                    p0 == old(self).pos,
                    k <= w@.len(),
                    p0 + w@.len() <= self.s@.len(),
                    self.pos == p0 + k,
                decreases w@.len() - k,
            {
                self.advance();
                k = k + 1;
            }
            Ok(v)
        } else {
            let mut msg: Vec<char> = Vec::new();
            append_str(&mut msg, "invalid literal");
            self.at_byte_text(&mut msg);
            Err(string_from_chars(msg))
        }
    }

    fn parse_number(&mut self) -> (r: Result<JsonValue, String>)
        requires
            old(self).inv(),
        ensures
            final(self).inv(),
            final(self).s == old(self).s,
            match (r, number_at(old(self).s@, old(self).pos as int)) {
                (Ok(x), Ok((y, j))) => x@ == y && final(self).pos == j,
                (Err(e), Err(m)) => e@ == m,
                _ => false,
            },
    {
        let start = self.pos;
        let mut msg_start: Vec<char> = Vec::new();
        append_str(&mut msg_start, "expected a value");
        self.at_byte_text(&mut msg_start);
        match self.at(self.pos) {
            Some(c) => {
                if c == '-' || c == '+' {
                    self.advance();
                }
            },
            None => {},
        }
        let j0 = self.pos;
        let mut is_float = false;
        loop
            invariant
                self.inv(),
                self.s == old(self).s,
                j0 <= self.pos,
                number_end(self.s@, self.pos as int) == number_end(self.s@, j0 as int),
                is_float == exists|k: int| j0 <= k < self.pos && (self.s@[k] == '.' || self.s@[k] == 'e' || self.s@[k] == 'E'),
            ensures
                self.inv(),
                self.s == old(self).s,
                j0 <= self.pos,
                self.pos == number_end(self.s@, j0 as int),
                is_float == exists|k: int| j0 <= k < self.pos && (self.s@[k] == '.' || self.s@[k] == 'e' || self.s@[k] == 'E'),
            decreases self.s@.len() - self.pos,
        {
            match self.at(self.pos) {
                Some(c) => {
                    if ('0' <= c && c <= '9') || c == '.' || c == 'e' || c == 'E' || c == '+' || c == '-' {
                        if c == '.' || c == 'e' || c == 'E' {
                            is_float = true;
                        }
                        let ghost p = self.pos as int;
                        self.advance();
                        assert(is_float == exists|k: int| j0 <= k < self.pos && (self.s@[k] == '.' || self.s@[k] == 'e' || self.s@[k] == 'E')) by {
                            if is_float && !(c == '.' || c == 'e' || c == 'E') {
                                let k = choose|k: int| j0 <= k < p && (self.s@[k] == '.' || self.s@[k] == 'e' || self.s@[k] == 'E');
                                assert(j0 <= k < self.pos);
                            }
                        }
                    } else {
                        break;
                    }
                },
                None => { break; },
            }
        }
        let text = slice_of(&self.s, start, self.pos);
        if text.len() == 0 {
            return Err(string_from_chars(msg_start));
        }
        if !is_float {
            match parse_i64(text.as_slice()) {
                Some(v) => { return Ok(JsonValue::Int(v)); },
                None => {},
            }
        }
        if is_float_literal(text.as_slice()) {
            Ok(JsonValue::Float(string_from_chars(text)))
        } else {
            let mut msg: Vec<char> = Vec::new();
            append_str(&mut msg, "invalid number '");
            append_chars(&mut msg, &text);
            append_str(&mut msg, "'");
            Err(string_from_chars(msg))
        }
    }


    fn parse_value(&mut self) -> (r: Result<JsonValue, String>)
        requires
            old(self).inv(),
        ensures
            final(self).inv(),
            final(self).s == old(self).s,
            match (r, value_at(old(self).s@, old(self).pos as int)) {
                (Ok(x), Ok((y, j))) => x@ == y && final(self).pos == j,
                (Err(e), Err(m)) => e@ == m,
                _ => false,
            },
        decreases old(self).s@.len() - old(self).pos, 1int,
    {
        match self.at(self.pos) {
            None => Err(message("unexpected end of input")),
            Some(c) => {
                if c == '{' {
                    self.parse_object()
                } else if c == '[' {
                    self.parse_array()
                } else if c == '"' {
                    match self.parse_string() {
                        Err(e) => Err(e),
                        Ok(t) => Ok(JsonValue::Str(t)),
                    }
                } else if c == 't' {
                    self.parse_literal("true", JsonValue::Bool(true))
                } else if c == 'f' {
                    self.parse_literal("false", JsonValue::Bool(false))
                } else if c == 'n' {
                    self.parse_literal("null", JsonValue::Null)
                } else {
                    self.parse_number()
                }
            },
        }
    }

    fn parse_array(&mut self) -> (r: Result<JsonValue, String>)
        requires
            old(self).inv(),
        ensures
            final(self).inv(),
            final(self).s == old(self).s,
            match (r, array_at(old(self).s@, old(self).pos as int)) {
                (Ok(x), Ok((y, j))) => x@ == y && final(self).pos == j,
                (Err(e), Err(m)) => e@ == m,
                _ => false,
            },
        decreases old(self).s@.len() - old(self).pos, 0int,
    {
        if self.at(self.pos) != Some('[') {
            return Err(self.expected_error('['));
        }
        let ghost start = self.pos as int;
        self.advance();
        let ghost mut cur: int = self.pos as int;
        self.skip_whitespace();
        proof { lemma_skip_ws(self.s@, cur); }
        if self.at(self.pos) == Some(']') {
            self.advance();
            assert(jsons_of(Seq::<JsonValue>::empty()) =~= Seq::<Json>::empty());
            return Ok(JsonValue::List(Vec::new()));
        }
        let mut items: Vec<JsonValue> = Vec::new();
        assert(jsons_of(items@) =~= Seq::<Json>::empty());
        loop
            invariant
                self.inv(),
                self.s == old(self).s,
                start == old(self).pos,
                start < cur <= self.pos,
                skip_ws(self.s@, self.pos as int) == skip_ws(self.s@, cur),
                items_at(self.s@, cur, jsons_of(items@)) == array_at(self.s@, start),
            decreases self.s@.len() - self.pos,
        {
            proof {
                lemma_skip_ws(self.s@, self.pos as int);
                lemma_skip_ws(self.s@, cur);
            }
            self.skip_whitespace();
            let ghost p = self.pos as int;
            let v = match self.parse_value() {
                Err(e) => { return Err(e); },
                Ok(v) => v,
            };
            proof { lemma_value_advances(self.s@, p); }
            let ghost q = self.pos as int;
            self.skip_whitespace();
            proof { lemma_skip_ws(self.s@, q); }
            let ghost before = items@;
            match self.at(self.pos) {
                Some(',') => {
                    items.push(v);
                    assert(items@.drop_last() == before);
                    self.advance();
                    proof { cur = self.pos as int; }
                },
                Some(']') => {
                    items.push(v);
                    assert(items@.drop_last() == before);
                    self.advance();
                    return Ok(JsonValue::List(items));
                },
                _ => {
                    let mut msg: Vec<char> = Vec::new();
                    append_str(&mut msg, "expected ',' or ']'");
                    self.at_byte_text(&mut msg);
                    return Err(string_from_chars(msg));
                },
            }
        }
    }

    fn parse_object(&mut self) -> (r: Result<JsonValue, String>)
        requires
            old(self).inv(),
        ensures
            final(self).inv(),
            final(self).s == old(self).s,
            match (r, object_at(old(self).s@, old(self).pos as int)) {
                (Ok(x), Ok((y, j))) => x@ == y && final(self).pos == j,
                (Err(e), Err(m)) => e@ == m,
                _ => false,
            },
        decreases old(self).s@.len() - old(self).pos, 0int,
    {
        if self.at(self.pos) != Some('{') {
            return Err(self.expected_error('{'));
        }
        let ghost start = self.pos as int;
        self.advance();
        let ghost mut cur: int = self.pos as int;
        self.skip_whitespace();
        proof { lemma_skip_ws(self.s@, cur); }
        if self.at(self.pos) == Some('}') {
            self.advance();
            assert(entries_of(Seq::<(String, JsonValue)>::empty()) =~= Seq::<(Seq<char>, Json)>::empty());
            return Ok(JsonValue::Object(Vec::new()));
        }
        let mut entries: Vec<(String, JsonValue)> = Vec::new();
        assert(entries_of(entries@) =~= Seq::<(Seq<char>, Json)>::empty());
        loop
            invariant
                self.inv(),
                self.s == old(self).s,
                start == old(self).pos,
                start < cur <= self.pos,
                skip_ws(self.s@, self.pos as int) == skip_ws(self.s@, cur),
                members_at(self.s@, cur, entries_of(entries@)) == object_at(self.s@, start),
            decreases self.s@.len() - self.pos,
        {
            proof {
                lemma_skip_ws(self.s@, self.pos as int);
                lemma_skip_ws(self.s@, cur);
            }
            self.skip_whitespace();
            let ghost p = self.pos as int;
            let k = match self.parse_string() {
                Err(e) => { return Err(e); },
                Ok(k) => k,
            };
            proof { lemma_string_body_advances(self.s@, p + 1, Seq::empty()); }
            let ghost q = self.pos as int;
            self.skip_whitespace();
            proof { lemma_skip_ws(self.s@, q); }
            if self.at(self.pos) != Some(':') {
                return Err(self.expected_error(':'));
            }
            self.advance();
            let ghost q2p = self.pos as int;
            self.skip_whitespace();
            proof { lemma_skip_ws(self.s@, q2p); }
            let ghost q3 = self.pos as int;
            let v = match self.parse_value() {
                Err(e) => { return Err(e); },
                Ok(v) => v,
            };
            proof { lemma_value_advances(self.s@, q3); }
            let ghost q4 = self.pos as int;
            self.skip_whitespace();
            proof { lemma_skip_ws(self.s@, q4); }
            let ghost before = entries_of(entries@);
            let ghost kv = k@;
            let ghost vv = json_of(v);
            insert_member(&mut entries, k, v);
            assert(entries_of(entries@) == insert_entry(before, kv, vv));
            match self.at(self.pos) {
                Some(',') => {
                    self.advance();
                    proof { cur = self.pos as int; }
                },
                Some('}') => {
                    self.advance();
                    return Ok(JsonValue::Object(entries));
                },
                _ => {
                    let mut msg: Vec<char> = Vec::new();
                    append_str(&mut msg, "expected ',' or '}'");
                    self.at_byte_text(&mut msg);
                    return Err(string_from_chars(msg));
                },
            }
        }
    }

}

/// Reads a JSON document: one value, optionally surrounded by whitespace.
pub fn parse(source: &str) -> (r: Result<JsonValue, String>)
    requires
        4 * source@.len() + 16 < usize::MAX,
    ensures
        match (r, parse_spec(source@)) {
            (Ok(x), Ok(y)) => x@ == y,
            (Err(e), Err(m)) => e@ == m,
            _ => false,
        },
{
    let mut rd = Reader::new(chars_of(source));
    rd.skip_whitespace();
    let v = match rd.parse_value() {
        Err(e) => { return Err(e); },
        Ok(v) => v,
    };
    rd.skip_whitespace();
    if rd.pos < rd.s.len() {
        let mut msg: Vec<char> = Vec::new();
        append_str(&mut msg, "unexpected trailing content");
        rd.at_byte_text(&mut msg);
        return Err(string_from_chars(msg));
    }
    Ok(v)
}

// ---------------------------------------------------------------------------
// Writing

/// A hexadecimal digit in lower case.
pub open spec fn hex_char(d: int) -> char {
    if d == 0 { '0' } else if d == 1 { '1' } else if d == 2 { '2' } else if d == 3 { '3' }
    else if d == 4 { '4' } else if d == 5 { '5' } else if d == 6 { '6' } else if d == 7 { '7' }
    else if d == 8 { '8' } else if d == 9 { '9' } else if d == 10 { 'a' } else if d == 11 { 'b' }
    else if d == 12 { 'c' } else if d == 13 { 'd' } else if d == 14 { 'e' } else { 'f' }
}

/// How one character of a string is written: quote, backslash and the
/// control characters escaped, everything else as it is.
pub open spec fn escape_char(c: char) -> Seq<char> {
    if c == '"' {
        seq!['\\', '"']
    } else if c == '\\' {
        seq!['\\', '\\']
    } else if c == '\n' {
        seq!['\\', 'n']
    } else if c == '\r' {
        seq!['\\', 'r']
    } else if c == '\t' {
        seq!['\\', 't']
    } else if c == '\u{8}' {
        seq!['\\', 'b']
    } else if c == '\u{c}' {
        seq!['\\', 'f']
    } else if (c as u32) < 0x20 {
        seq!['\\', 'u', '0', '0', hex_char(((c as u32) / 16) as int), hex_char(((c as u32) % 16) as int)]
    } else {
        seq![c]
    }
}

pub open spec fn escape_all(t: Seq<char>) -> Seq<char>
    decreases t.len(),
{
    if t.len() == 0 { Seq::empty() } else { escape_all(t.drop_last()) + escape_char(t.last()) }
}

/// A string written with its quotes.
pub open spec fn quoted(t: Seq<char>) -> Seq<char> {
    seq!['"'] + escape_all(t) + seq!['"']
}

/// The line break before an item at `depth`: none without indentation,
/// otherwise a newline and `indent * depth` spaces.
pub open spec fn line_break(indent: nat, depth: nat) -> Seq<char> {
    if indent == 0 { Seq::empty() } else { seq!['\n'] + repeat(' ', (indent * depth) as int) }
}

/// How a value is written at nesting `depth`.
pub open spec fn write_json(v: Json, indent: nat, depth: nat) -> Seq<char>
    decreases v, 0nat,
{
    match v {
        Json::Null => "null"@,
        Json::Bool(b) => if b { "true"@ } else { "false"@ },
        Json::Int(n) => signed_decimal(n),
        Json::Float(t) => t,
        Json::Str(t) => quoted(t),
        Json::List(items) => if items.len() == 0 {
            "[]"@
        } else {
            seq!['['] + write_items(items, indent, depth) + line_break(indent, depth) + seq![']']
        },
        Json::Object(es) => if es.len() == 0 {
            "{}"@
        } else {
            seq!['{'] + write_members(es, sort_order(es), indent, depth) + line_break(indent, depth) + seq!['}']
        },
        Json::Invalid(_) => Seq::empty(),
    }
}

/// The items of a list, comma-separated, each on its own line when indented.
pub open spec fn write_items(items: Seq<Json>, indent: nat, depth: nat) -> Seq<char>
    decreases items, 0nat,
{
    if items.len() == 0 {
        Seq::empty()
    } else {
        write_items(items.drop_last(), indent, depth) + (if items.len() > 1 { seq![','] } else { Seq::empty() })
            + line_break(indent, depth + 1) + write_json(items.last(), indent, depth + 1)
    }
}

/// The members of an object taken in `order`: `"key":value`, with a space
/// after the colon when indented.
pub open spec fn write_members(es: Seq<(Seq<char>, Json)>, order: Seq<int>, indent: nat, depth: nat) -> Seq<char>
    decreases es, order.len(),
{
    if order.len() == 0 {
        Seq::empty()
    } else {
        let j = order.last();
        write_members(es, order.drop_last(), indent, depth) + (if order.len() > 1 { seq![','] } else { Seq::empty() })
            + line_break(indent, depth + 1) + quoted(es[j].0) + seq![':']
            + (if indent > 0 { seq![' '] } else { Seq::empty() })
            + (if 0 <= j < es.len() { write_json(es[j].1, indent, depth + 1) } else { Seq::empty() })
    }
}

/// The message of the first value without a JSON form, in writing order.
pub open spec fn first_invalid(v: Json) -> Option<Seq<char>>
    decreases v, 0nat,
{
    match v {
        Json::Invalid(m) => Some(m),
        Json::List(items) => first_invalid_items(items),
        Json::Object(es) => first_invalid_members(es, sort_order(es)),
        _ => None,
    }
}

pub open spec fn first_invalid_items(items: Seq<Json>) -> Option<Seq<char>>
    decreases items, 0nat,
{
    if items.len() == 0 {
        None
    } else {
        match first_invalid_items(items.drop_last()) {
            Some(m) => Some(m),
            None => first_invalid(items.last()),
        }
    }
}

pub open spec fn first_invalid_members(es: Seq<(Seq<char>, Json)>, order: Seq<int>) -> Option<Seq<char>>
    decreases es, order.len(),
{
    if order.len() == 0 {
        None
    } else {
        match first_invalid_members(es, order.drop_last()) {
            Some(m) => Some(m),
            None => if 0 <= order.last() < es.len() { first_invalid(es[order.last()].1) } else { None },
        }
    }
}

/// `stringify`: the written value, or the message of its first part without
/// a JSON form.
pub open spec fn stringify_spec(v: Json, indent: nat) -> Result<Seq<char>, Seq<char>> {
    match first_invalid(v) {
        Some(m) => Err(m),
        None => Ok(write_json(v, indent, 0)),
    }
}

fn hex_char_exec(d: u32) -> (c: char)
    requires
        d < 16,
    ensures
        c == hex_char(d as int),
{
    if d == 0 { '0' } else if d == 1 { '1' } else if d == 2 { '2' } else if d == 3 { '3' }
    else if d == 4 { '4' } else if d == 5 { '5' } else if d == 6 { '6' } else if d == 7 { '7' }
    else if d == 8 { '8' } else if d == 9 { '9' } else if d == 10 { 'a' } else if d == 11 { 'b' }
    else if d == 12 { 'c' } else if d == 13 { 'd' } else if d == 14 { 'e' } else { 'f' }
}

/// Writes `text` as a JSON string, quotes included.
pub fn write_string(text: &str, out: &mut Vec<char>)
    ensures
        final(out)@ == old(out)@ + quoted(text@),
{
    let t = chars_of(text);
    out.push('"');
    let ghost start = out@;
    let mut i: usize = 0;
    assert(t@.take(0) =~= Seq::<char>::empty());
    while i < t.len()
        invariant
            i <= t@.len(),
            t@ == text@,
            out@ == start + escape_all(t@.take(i as int)),
        decreases t@.len() - i,
    {
        let c = t[i];
        let ghost before = out@;
        if c == '"' {
            out.push('\\');
            out.push('"');
        } else if c == '\\' {
            out.push('\\');
            out.push('\\');
        } else if c == '\n' {
            out.push('\\');
            out.push('n');
        } else if c == '\r' {
            out.push('\\');
            out.push('r');
        } else if c == '\t' {
            out.push('\\');
            out.push('t');
        } else if c == '\u{8}' {
            out.push('\\');
            out.push('b');
        } else if c == '\u{c}' {
            out.push('\\');
            out.push('f');
        } else if (c as u32) < 0x20 {
            out.push('\\');
            out.push('u');
            out.push('0');
            out.push('0');
            out.push(hex_char_exec((c as u32) / 16));
            out.push(hex_char_exec((c as u32) % 16));
        } else {
            out.push(c);
        }
        assert(out@ =~= before + escape_char(c));
        i = i + 1;
        assert(t@.take(i as int).drop_last() =~= t@.take(i - 1));
    }
    assert(t@.take(t@.len() as int) =~= t@);
    out.push('"');
    assert(out@ =~= old(out)@ + quoted(text@));
}

/// Writes the line break before an item at `depth`.
pub fn write_break(indent: usize, depth: usize, out: &mut Vec<char>)
    ensures
        final(out)@ == old(out)@ + line_break(indent as nat, depth as nat),
{
    if indent == 0 {
        assert(old(out)@ + Seq::<char>::empty() =~= old(out)@);
        return;
    }
    out.push('\n');
    let ghost start = out@;
    let mut d: usize = 0;
    while d < depth
        invariant
            d <= depth,
            indent > 0,
            out@ == start + repeat(' ', (indent * d) as int),
        decreases depth - d,
    {
        let mut k: usize = 0;
        while k < indent
            invariant
                k <= indent,
                out@ == start + repeat(' ', (indent * d + k) as int),
            decreases indent - k,
        {
            out.push(' ');
            k = k + 1;
            assert(out@ =~= start + repeat(' ', (indent * d + k) as int));
        }
        d = d + 1;
        assert(indent * d == indent * (d - 1) + indent) by (nonlinear_arith)
            requires
                d >= 1;
    }
    assert(out@ =~= old(out)@ + line_break(indent as nat, depth as nat));
}

#[verifier::rlimit(40)]
fn write_value(v: &JsonValue, indent: usize, depth: usize, out: &mut Vec<char>) -> (r: Result<(), String>)
    requires
        depth + nesting(json_of(*v)) < usize::MAX,
    ensures
        match first_invalid(json_of(*v)) {
            None => r is Ok && final(out)@ == old(out)@ + write_json(json_of(*v), indent as nat, depth as nat),
            Some(m) => r matches Err(e) && e@ == m,
        },
    decreases v,
{
    match v {
        JsonValue::Null => {
            append_str(out, "null");
            Ok(())
        },
        JsonValue::Bool(b) => {
            if *b { append_str(out, "true"); } else { append_str(out, "false"); }
            Ok(())
        },
        JsonValue::Int(n) => {
            let d = i64_decimal(*n);
            append_chars(out, &d);
            Ok(())
        },
        JsonValue::Float(t) => {
            append_str(out, t.as_str());
            Ok(())
        },
        JsonValue::Str(t) => {
            write_string(t.as_str(), out);
            Ok(())
        },
        JsonValue::Invalid(m) => Err(crate::text::copy_string(m)),
        JsonValue::List(items) => {
            proof { lemma_jsons_of(items@); }
            if items.len() == 0 {
                append_str(out, "[]");
                return Ok(());
            }
            out.push('[');
            let ghost start = out@;
            let mut i: usize = 0;
            assert(items@.take(0) =~= Seq::<JsonValue>::empty());
            assert(jsons_of(items@.take(0)) =~= Seq::<Json>::empty());
            while i < items.len()
                invariant
                    i <= items@.len(),
                    *v == JsonValue::List(*items),
                    depth + nesting(json_of(*v)) < usize::MAX,
                    first_invalid_items(jsons_of(items@.take(i as int))) is None,
                    out@ == start + write_items(jsons_of(items@.take(i as int)), indent as nat, depth as nat),
                    forall|j: int| 0 <= j < items@.len() ==> #[trigger] jsons_of(items@)[j] == json_of(items@[j]),
                    jsons_of(items@).len() == items@.len(),
                decreases items@.len() - i,
            {
                proof { lemma_jsons_of(items@.take(i + 1)); lemma_jsons_of(items@.take(i as int)); }
                let ghost prev = jsons_of(items@.take(i as int));
                let ghost now = jsons_of(items@.take(i + 1));
                assert(now.drop_last() =~= prev);
                assert(now.last() == json_of(items@[i as int]));
                if i > 0 {
                    out.push(',');
                }
                write_break(indent, depth + 1, out);
                assert(decreases_to!(v => items@[i as int]));
                proof { lemma_nesting_items(jsons_of(items@), i as int); }
                match write_value(&items[i], indent, depth + 1, out) {
                    Err(e) => {
                        proof { lemma_first_invalid_items_prefix(jsons_of(items@), (i + 1) as int); }
                        assert(jsons_of(items@).take(i + 1) =~= now);
                        return Err(e);
                    },
                    Ok(()) => {},
                }
                i = i + 1;
                assert(out@ =~= start + write_items(now, indent as nat, depth as nat));
            }
            assert(items@.take(items@.len() as int) =~= items@);
            write_break(indent, depth, out);
            out.push(']');
            Ok(())
        },
        JsonValue::Object(entries) => {
            proof { lemma_entries_of(entries@); }
            if entries.len() == 0 {
                append_str(out, "{}");
                return Ok(());
            }
            let ghost es = entries_of(entries@);
            let order = entry_order(entries);
            let ghost ord = order_ints(order@);
            out.push('{');
            let ghost start = out@;
            let mut k: usize = 0;
            assert(ord.take(0) =~= Seq::<int>::empty());
            while k < order.len()
                invariant
                    k <= order@.len(),
                    *v == JsonValue::Object(*entries),
                    depth + nesting(json_of(*v)) < usize::MAX,
                    es == entries_of(entries@),
                    ord == order_ints(order@),
                    ord == sort_order(es),
                    ord.len() == order@.len(),
                    forall|m: int| 0 <= m < order@.len() ==> #[trigger] order@[m] < entries@.len(),
                    first_invalid_members(es, ord.take(k as int)) is None,
                    out@ == start + write_members(es, ord.take(k as int), indent as nat, depth as nat),
                    forall|j: int| 0 <= j < entries@.len() ==> #[trigger] es[j] == (entries@[j].0@, json_of(entries@[j].1)),
                    es.len() == entries@.len(),
                decreases order@.len() - k,
            {
                let idx = order[k];
                let ghost now = ord.take(k + 1);
                assert(now.drop_last() =~= ord.take(k as int));
                assert(now.last() == idx as int);
                if k > 0 {
                    out.push(',');
                }
                write_break(indent, depth + 1, out);
                write_string(entries[idx].0.as_str(), out);
                out.push(':');
                if indent > 0 {
                    out.push(' ');
                }
                assert(decreases_to!(v => entries@[idx as int].1));
                proof { lemma_nesting_members(es, idx as int); }
                match write_value(&entries[idx].1, indent, depth + 1, out) {
                    Err(e) => {
                        proof { lemma_first_invalid_members_prefix(es, ord, (k + 1) as int); }
                        return Err(e);
                    },
                    Ok(()) => {},
                }
                k = k + 1;
                assert(out@ =~= start + write_members(es, now, indent as nat, depth as nat));
            }
            assert(ord.take(order@.len() as int) =~= ord);
            write_break(indent, depth, out);
            out.push('}');
            Ok(())
        },
    }
}

proof fn lemma_first_invalid_items_prefix(items: Seq<Json>, k: int)
    requires
        0 <= k <= items.len(),
    ensures
        first_invalid_items(items.take(k)) is Some ==> first_invalid_items(items) == first_invalid_items(items.take(k)),
    decreases items.len(),
{
    if k < items.len() {
        assert(items.drop_last().take(k) =~= items.take(k));
        lemma_first_invalid_items_prefix(items.drop_last(), k);
    } else {
        assert(items.take(k) =~= items);
    }
}

proof fn lemma_first_invalid_members_prefix(es: Seq<(Seq<char>, Json)>, order: Seq<int>, k: int)
    requires
        0 <= k <= order.len(),
    ensures
        first_invalid_members(es, order.take(k)) is Some
            ==> first_invalid_members(es, order) == first_invalid_members(es, order.take(k)),
    decreases order.len(),
{
    if k < order.len() {
        assert(order.drop_last().take(k) =~= order.take(k));
        lemma_first_invalid_members_prefix(es, order.drop_last(), k);
    } else {
        assert(order.take(k) =~= order);
    }
}

pub open spec fn order_ints(v: Seq<usize>) -> Seq<int> {
    v.map_values(|x: usize| x as int)
}

proof fn lemma_insert_index(order: Seq<int>, es: Seq<(Seq<char>, Json)>, i: int, j: int)
    requires
        0 <= j <= order.len(),
        forall|m: int| 0 <= m < j ==> !key_lt(es[i].0, #[trigger] es[order[m]].0),
        j == order.len() || key_lt(es[i].0, es[order[j]].0),
    ensures
        insert_index(order, es, i) == order.take(j) + seq![i] + order.skip(j),
    decreases j,
{
    if j == 0 {
        if order.len() == 0 {
            assert(order.take(0) + seq![i] + order.skip(0) =~= seq![i]);
        } else {
            assert(order.take(0) + seq![i] + order.skip(0) =~= seq![i] + order);
        }
    } else {
        let rest = order.skip(1);
        assert(!key_lt(es[i].0, es[order[0]].0));
        assert forall|m: int| 0 <= m < j - 1 implies !key_lt(es[i].0, #[trigger] es[rest[m]].0) by {
            assert(rest[m] == order[m + 1]);
        }
        if j < order.len() {
            assert(rest[j - 1] == order[j]);
        }
        lemma_insert_index(rest, es, i, j - 1);
        assert(seq![order[0]] + (rest.take(j - 1) + seq![i] + rest.skip(j - 1))
            =~= order.take(j) + seq![i] + order.skip(j));
    }
}

proof fn lemma_insert_index_range(order: Seq<int>, es: Seq<(Seq<char>, Json)>, i: int, n: int)
    requires
        forall|m: int| 0 <= m < order.len() ==> 0 <= #[trigger] order[m] < n,
        0 <= i < n,
    ensures
        insert_index(order, es, i).len() == order.len() + 1,
        forall|m: int| 0 <= m < insert_index(order, es, i).len() ==> 0 <= #[trigger] insert_index(order, es, i)[m] < n,
    decreases order.len(),
{
    if order.len() > 0 {
        let rest = order.skip(1);
        assert forall|m: int| 0 <= m < rest.len() implies 0 <= #[trigger] rest[m] < n by {
            assert(rest[m] == order[m + 1]);
        }
        lemma_insert_index_range(rest, es, i, n);
    }
}

/// The indices of an object's entries in the order they are written.
fn entry_order(entries: &Vec<(String, JsonValue)>) -> (order: Vec<usize>)
    ensures
        order_ints(order@) == sort_order(entries_of(entries@)),
        forall|m: int| 0 <= m < order@.len() ==> #[trigger] order@[m] < entries@.len(),
{
    let ghost es = entries_of(entries@);
    proof { lemma_entries_of(entries@); }
    let mut order: Vec<usize> = Vec::new();
    let mut i: usize = 0;
    assert(order_ints(order@) =~= sort_order_upto(es, 0));
    while i < entries.len()
        invariant
            i <= entries@.len(),
            es == entries_of(entries@),
            es.len() == entries@.len(),
            forall|j: int| 0 <= j < entries@.len() ==> #[trigger] es[j] == (entries@[j].0@, json_of(entries@[j].1)),
            order_ints(order@) == sort_order_upto(es, i as int),
            forall|m: int| 0 <= m < order@.len() ==> #[trigger] order@[m] < i,
        decreases entries@.len() - i,
    {
        let ki = chars_of(entries[i].0.as_str());
        let ghost ord = order_ints(order@);
        let mut j: usize = 0;
        loop
            invariant
                j <= order@.len(),
                i < entries@.len(),
                ord == order_ints(order@),
                ki@ == es[i as int].0,
                forall|m: int| 0 <= m < order@.len() ==> #[trigger] order@[m] < i,
                forall|j: int| 0 <= j < entries@.len() ==> #[trigger] es[j] == (entries@[j].0@, json_of(entries@[j].1)),
                forall|m: int| 0 <= m < j ==> !key_lt(es[i as int].0, #[trigger] es[ord[m]].0),
            ensures
                j <= order@.len(),
                forall|m: int| 0 <= m < j ==> !key_lt(es[i as int].0, #[trigger] es[ord[m]].0),
                j == order@.len() || key_lt(es[i as int].0, es[ord[j as int]].0),
            decreases order@.len() - j,
        {
            if j == order.len() {
                break;
            }
            let kj = chars_of(entries[order[j]].0.as_str());
            assert(ord[j as int] == order@[j as int] as int);
            if key_less(ki.as_slice(), kj.as_slice()) {
                break;
            }
            j = j + 1;
        }
        proof {
            lemma_insert_index(ord, es, i as int, j as int);
            assert forall|m: int| 0 <= m < ord.len() implies 0 <= #[trigger] ord[m] < i + 1 by {
                assert(ord[m] == order@[m] as int);
            }
            lemma_insert_index_range(ord, es, i as int, i + 1);
        }
        order.insert(j, i);
        assert(order_ints(order@) =~= ord.take(j as int) + seq![i as int] + ord.skip(j as int));
        i = i + 1;
        assert forall|m: int| 0 <= m < order@.len() implies #[trigger] order@[m] < i by {
            assert(order_ints(order@)[m] == order@[m] as int);
        }
    }
    order
}

/// How deeply lists and objects nest in a value.
pub open spec fn nesting(v: Json) -> nat
    decreases v,
{
    match v {
        Json::List(items) => 1 + nesting_items(items),
        Json::Object(es) => 1 + nesting_members(es),
        _ => 0,
    }
}

pub open spec fn nesting_items(items: Seq<Json>) -> nat
    decreases items,
{
    if items.len() == 0 {
        0
    } else {
        let a = nesting_items(items.drop_last());
        let b = nesting(items.last());
        if a < b { b } else { a }
    }
}

pub open spec fn nesting_members(es: Seq<(Seq<char>, Json)>) -> nat
    decreases es,
{
    if es.len() == 0 {
        0
    } else {
        let a = nesting_members(es.drop_last());
        let b = nesting(es.last().1);
        if a < b { b } else { a }
    }
}

proof fn lemma_nesting_items(items: Seq<Json>, i: int)
    requires
        0 <= i < items.len(),
    ensures
        nesting(items[i]) <= nesting_items(items),
    decreases items.len(),
{
    if i < items.len() - 1 {
        assert(items.drop_last()[i] == items[i]);
        lemma_nesting_items(items.drop_last(), i);
    }
}

proof fn lemma_nesting_members(es: Seq<(Seq<char>, Json)>, i: int)
    requires
        0 <= i < es.len(),
    ensures
        nesting(es[i].1) <= nesting_members(es),
    decreases es.len(),
{
    if i < es.len() - 1 {
        assert(es.drop_last()[i] == es[i]);
        lemma_nesting_members(es.drop_last(), i);
    }
}

/// Writes a value as JSON text; `indent` spaces per level put every item on
/// its own line, and 0 keeps the whole value on one line.  (A value held in
/// memory always nests less deeply than the largest `usize`.)
pub fn stringify(value: &JsonValue, indent: usize) -> (r: Result<String, String>)
    requires
        nesting(value@) < usize::MAX,
    ensures
        match (r, stringify_spec(value@, indent as nat)) {
            (Ok(x), Ok(y)) => x@ == y,
            (Err(e), Err(m)) => e@ == m,
            _ => false,
        },
{
    let mut out: Vec<char> = Vec::new();
    match write_value(value, indent, 0, &mut out) {
        Err(e) => Err(e),
        Ok(()) => {
            assert(out@ =~= write_json(value@, indent as nat, 0));
            Ok(string_from_chars(out))
        },
    }
}

// ---------------------------------------------------------------------------
// Reading back what was written

proof fn lemma_escape_all_prepend(c: char, t: Seq<char>)
    ensures
        escape_all(seq![c] + t) == escape_char(c) + escape_all(t),
    decreases t.len(),
{
    if t.len() == 0 {
        assert(seq![c] + t =~= seq![c]);
        assert(seq![c].drop_last() =~= Seq::<char>::empty());
        assert(escape_all(Seq::<char>::empty()) + escape_char(c) =~= escape_char(c) + escape_all(t));
    } else {
        lemma_escape_all_prepend(c, t.drop_last());
        assert((seq![c] + t).drop_last() =~= seq![c] + t.drop_last());
        assert((seq![c] + t).last() == t.last());
        assert(escape_char(c) + escape_all(t.drop_last()) + escape_char(t.last())
            =~= escape_char(c) + (escape_all(t.drop_last()) + escape_char(t.last())));
    }
}

proof fn lemma_hex_char(d: int)
    requires
        0 <= d < 16,
    ensures
        hex_value(hex_char(d)) == Some(d),
{
}

proof fn lemma_control_escape(s: Seq<char>, i: int, c: char)
    requires
        0 <= i,
        (c as u32) < 0x20,
        i + 6 < s.len(),
        s[i + 2] == '0',
        s[i + 3] == '0',
        s[i + 4] == hex_char(((c as u32) / 16) as int),
        s[i + 5] == hex_char(((c as u32) % 16) as int),
    ensures
        unicode_escape(s, i + 2) == Ok::<(char, bool), Seq<char>>((c, false)),
{
    let hi = ((c as u32) / 16) as int;
    let lo = ((c as u32) % 16) as int;
    lemma_hex_char(hi);
    lemma_hex_char(lo);
    lemma_byte_offset(s, i + 2, s.len() as int);
    let d = s.subrange(i + 2, i + 6);
    assert(d.drop_last() =~= seq!['0', '0', s[i + 4]]);
    assert(d.drop_last().drop_last() =~= seq!['0', '0']);
    assert(d.drop_last().drop_last().drop_last() =~= seq!['0']);
    assert(d.drop_last().drop_last().drop_last().drop_last() =~= Seq::<char>::empty());
    assert(seq!['0'].drop_last() =~= Seq::<char>::empty());
    assert(hex_digits(Seq::<char>::empty()) == Some(0int));
    assert(hex_value('0') == Some(0int));
    assert(hex_digits(seq!['0']) == Some(0int));
    assert(seq!['0', '0'].drop_last() =~= seq!['0']);
    assert(hex_digits(seq!['0', '0']) == Some(0int));
    assert(hex_digits(d.drop_last()) == Some(hi));
    assert(hex_digits(d) == Some(hi * 16 + lo));
    assert(hi * 16 + lo == c as int);
    assert(code_of(c) == c as int);
    assert(code_char(c as int) == c);
}

/// What the reader makes of escaped text: `escape_all(t)` then a closing quote
/// reads back as `t`.
proof fn lemma_string_body_reads(s: Seq<char>, i: int, acc: Seq<char>, t: Seq<char>)
    requires
        0 <= i,
        i + escape_all(t).len() < s.len(),
        s.subrange(i, i + escape_all(t).len()) == escape_all(t),
        s[i + escape_all(t).len()] == '"',
    ensures
        string_body(s, i, acc) == Ok::<(Seq<char>, int), Seq<char>>((acc + t, i + escape_all(t).len() + 1)),
    decreases t.len(),
{
    if t.len() == 0 {
        assert(acc + t =~= acc);
    } else {
        let c = t[0];
        let rest = t.skip(1);
        assert(seq![c] + rest =~= t);
        lemma_escape_all_prepend(c, rest);
        let e = escape_char(c);
        let n = e.len() as int;
        assert forall|k: int| 0 <= k < n implies s[i + k] == e[k] by {
            assert(s.subrange(i, i + escape_all(t).len())[k] == escape_all(t)[k]);
        }
        assert(s.subrange(i + n, i + n + escape_all(rest).len()) =~= escape_all(rest)) by {
            assert forall|k: int| 0 <= k < escape_all(rest).len() implies
                s.subrange(i + n, i + n + escape_all(rest).len())[k] == escape_all(rest)[k] by {
                assert(s.subrange(i, i + escape_all(t).len())[n + k] == escape_all(t)[n + k]);
            }
        }
        lemma_string_body_reads(s, i + n, acc.push(c), rest);
        assert(acc.push(c) + rest =~= acc + t);
        if c == '"' || c == '\\' || c == '\n' || c == '\r' || c == '\t' || c == '\u{8}' || c == '\u{c}' {
            assert(s[i] == '\\');
            assert(simple_escape(s[i + 1]) == Some(c));
        } else if (c as u32) < 0x20 {
            assert(s[i] == '\\');
            assert(s[i + 1] == 'u');
            lemma_control_escape(s, i, c);
        } else {
            assert(s[i] == c);
        }
    }
}

/// A string written by [`write_string`] reads back as the same string: the
/// quoted text at position `i`, followed by anything, is read as `t` and the
/// reader stops right after the closing quote.
pub proof fn lemma_string_round_trip(s: Seq<char>, i: int, t: Seq<char>)
    requires
        0 <= i,
        i + quoted(t).len() <= s.len(),
        s.subrange(i, i + quoted(t).len()) == quoted(t),
    ensures
        string_at(s, i) == Ok::<(Seq<char>, int), Seq<char>>((t, i + quoted(t).len())),
{
    let q = quoted(t);
    assert(s[i] == q[0]);
    assert(s.subrange(i + 1, i + 1 + escape_all(t).len()) =~= escape_all(t)) by {
        assert forall|k: int| 0 <= k < escape_all(t).len() implies
            s.subrange(i + 1, i + 1 + escape_all(t).len())[k] == escape_all(t)[k] by {
            assert(s.subrange(i, i + q.len())[1 + k] == q[1 + k]);
        }
    }
    assert(s[i + 1 + escape_all(t).len()] == q[1 + escape_all(t).len() as int]);
    lemma_string_body_reads(s, i + 1, Seq::empty(), t);
    assert(Seq::<char>::empty() + t =~= t);
}

// ---------------------------------------------------------------------------
// What the reader builds

/// Some entry has the key `key`.
pub open spec fn has_key(es: Seq<(Seq<char>, Json)>, key: Seq<char>) -> bool {
    exists|j: int| 0 <= j < es.len() && #[trigger] es[j].0 == key
}

proof fn lemma_insert_entry_wf(es: Seq<(Seq<char>, Json)>, k: Seq<char>, v: Json)
    requires
        keys_distinct(es),
        forall|i: int| 0 <= i < es.len() ==> json_wf(#[trigger] es[i].1),
        json_wf(v),
    ensures
        keys_distinct(insert_entry(es, k, v)),
        forall|i: int| 0 <= i < insert_entry(es, k, v).len() ==> json_wf(#[trigger] insert_entry(es, k, v)[i].1),
        forall|i: int| 0 <= i < insert_entry(es, k, v).len() ==> (#[trigger] insert_entry(es, k, v)[i].0 == k
            || has_key(es, insert_entry(es, k, v)[i].0)),
    decreases es.len(),
{
    if es.len() == 0 {
    } else if es[0].0 == k {
        let r = seq![(k, v)] + es.skip(1);
        assert forall|i: int, j: int| 0 <= i < j < r.len() implies #[trigger] r[i].0 != #[trigger] r[j].0 by {
            if i == 0 {
                assert(r[j] == es[j]);
                assert(es[0].0 != es[j].0);
            } else {
                assert(r[i] == es[i]);
                assert(r[j] == es[j]);
            }
        }
        assert forall|i: int| 0 <= i < r.len() implies json_wf(#[trigger] r[i].1) by {
            if i > 0 {
                assert(r[i] == es[i]);
            }
        }
        assert forall|i: int| 0 <= i < r.len() implies (#[trigger] r[i].0 == k || has_key(es, r[i].0)) by {
            if i > 0 {
                assert(r[i] == es[i]);
            }
        }
    } else {
        let rest = es.skip(1);
        assert forall|i: int, j: int| 0 <= i < j < rest.len() implies #[trigger] rest[i].0 != #[trigger] rest[j].0 by {
            assert(rest[i] == es[i + 1]);
            assert(rest[j] == es[j + 1]);
        }
        assert forall|i: int| 0 <= i < rest.len() implies json_wf(#[trigger] rest[i].1) by {
            assert(rest[i] == es[i + 1]);
        }
        lemma_insert_entry_wf(rest, k, v);
        let t = insert_entry(rest, k, v);
        let r = seq![es[0]] + t;
        assert forall|i: int, j: int| 0 <= i < j < r.len() implies #[trigger] r[i].0 != #[trigger] r[j].0 by {
            if i == 0 {
                assert(r[j] == t[j - 1]);
                if t[j - 1].0 == es[0].0 {
                    assert(t[j - 1].0 == k || has_key(rest, t[j - 1].0));
                    if es[0].0 != k {
                        let m = choose|m: int| 0 <= m < rest.len() && #[trigger] rest[m].0 == es[0].0;
                        assert(rest[m] == es[m + 1]);
                    }
                }
            } else {
                assert(r[i] == t[i - 1]);
                assert(r[j] == t[j - 1]);
            }
        }
        assert forall|i: int| 0 <= i < r.len() implies json_wf(#[trigger] r[i].1) by {
            if i > 0 {
                assert(r[i] == t[i - 1]);
            }
        }
        assert forall|i: int| 0 <= i < r.len() implies (#[trigger] r[i].0 == k || has_key(es, r[i].0)) by {
            if i == 0 {
                assert(es[0].0 == r[0].0);
            } else {
                assert(r[i] == t[i - 1]);
                assert(t[i - 1].0 == k || has_key(rest, t[i - 1].0));
                if t[i - 1].0 != k {
                    let m = choose|m: int| 0 <= m < rest.len() && #[trigger] rest[m].0 == t[i - 1].0;
                    assert(rest[m] == es[m + 1]);
                }
            }
        }
    }
}

pub proof fn lemma_value_wf(s: Seq<char>, i: int)
    ensures
        value_at(s, i) matches Ok((v, _)) ==> json_wf(v),
    decreases s.len() - i, 1int,
{
    if i < 0 || i >= s.len() {
    } else if s[i] == '{' {
        lemma_object_wf(s, i);
    } else if s[i] == '[' {
        lemma_array_wf(s, i);
    } else if s[i] != '"' && s[i] != 't' && s[i] != 'f' && s[i] != 'n' {
        lemma_number_wf(s, i);
    }
}

pub proof fn lemma_number_wf(s: Seq<char>, i: int)
    requires
        0 <= i < s.len(),
    ensures
        number_at(s, i) matches Ok((v, _)) ==> json_wf(v),
{
    let j0 = if s[i] == '-' || s[i] == '+' { i + 1 } else { i };
    let j = number_end(s, j0);
    let text = s.subrange(i, j);
    lemma_number_end(s, j0);
    lemma_number_chars(s, j0);
    let is_float = exists|k: int| j0 <= k < j && (s[k] == '.' || s[k] == 'e' || s[k] == 'E');
    if number_at(s, i) is Ok && !(!is_float && parse_i64_spec(text) is Some) {
        let t0 = j0 - i;
        assert(t0 == if text.len() > 0 && (text[0] == '-' || text[0] == '+') { 1int } else { 0int });
        assert forall|k: int| t0 <= k < text.len() implies is_number_char(#[trigger] text[k]) by {
            assert(text[k] == s[i + k]);
        }
        if is_float {
            let m = choose|m: int| j0 <= m < j && (s[m] == '.' || s[m] == 'e' || s[m] == 'E');
            assert(text[m - i] == s[m]);
            assert(t0 <= m - i < text.len());
        }
    }
}

pub proof fn lemma_array_wf(s: Seq<char>, i: int)
    ensures
        array_at(s, i) matches Ok((v, _)) ==> json_wf(v),
    decreases s.len() - i, 0int,
{
    if i < 0 || i >= s.len() || s[i] != '[' {
    } else {
        lemma_skip_ws(s, i + 1);
        let p = skip_ws(s, i + 1);
        if 0 <= p < s.len() && s[p] == ']' {
            assert(json_wf(Json::List(Seq::empty())));
        } else {
            lemma_items_wf(s, i + 1, Seq::empty());
        }
    }
}

pub proof fn lemma_items_wf(s: Seq<char>, i: int, acc: Seq<Json>)
    requires
        forall|k: int| 0 <= k < acc.len() ==> json_wf(#[trigger] acc[k]),
    ensures
        items_at(s, i, acc) matches Ok((v, _)) ==> json_wf(v),
    decreases s.len() - i, 2int,
{
    let p = skip_ws(s, i);
    lemma_skip_ws(s, i);
    if i < 0 || i > s.len() {
    } else {
        lemma_value_wf(s, p);
        match value_at(s, p) {
            Err(e) => {},
            Ok((v, q)) => {
                let r = skip_ws(s, q);
                lemma_skip_ws(s, q);
                let acc2 = acc.push(v);
                assert forall|k: int| 0 <= k < acc2.len() implies json_wf(#[trigger] acc2[k]) by {
                    if k < acc.len() {
                        assert(acc2[k] == acc[k]);
                    }
                }
                if r <= i {
                } else if 0 <= r < s.len() && s[r] == ',' {
                    lemma_items_wf(s, r + 1, acc2);
                }
            },
        }
    }
}

pub proof fn lemma_object_wf(s: Seq<char>, i: int)
    ensures
        object_at(s, i) matches Ok((v, _)) ==> json_wf(v),
    decreases s.len() - i, 0int,
{
    if i < 0 || i >= s.len() || s[i] != '{' {
    } else {
        lemma_skip_ws(s, i + 1);
        let p = skip_ws(s, i + 1);
        if 0 <= p < s.len() && s[p] == '}' {
            assert(json_wf(Json::Object(Seq::empty())));
        } else {
            lemma_members_wf(s, i + 1, Seq::empty());
        }
    }
}

pub proof fn lemma_members_wf(s: Seq<char>, i: int, acc: Seq<(Seq<char>, Json)>)
    requires
        keys_distinct(acc),
        forall|k: int| 0 <= k < acc.len() ==> json_wf(#[trigger] acc[k].1),
    ensures
        members_at(s, i, acc) matches Ok((v, _)) ==> json_wf(v),
    decreases s.len() - i, 2int,
{
    let p = skip_ws(s, i);
    lemma_skip_ws(s, i);
    if i < 0 || i > s.len() {
    } else {
        match string_at(s, p) {
            Err(e) => {},
            Ok((k, q)) => {
                let q2 = skip_ws(s, q);
                if !(0 <= q2 < s.len() && s[q2] == ':') {
                } else {
                    let q3 = skip_ws(s, q2 + 1);
                    lemma_string_body_advances(s, p + 1, Seq::empty());
                    lemma_skip_ws(s, q);
                    lemma_skip_ws(s, q2 + 1);
                    lemma_value_wf(s, q3);
                    match value_at(s, q3) {
                        Err(e) => {},
                        Ok((v, q4)) => {
                            let r = skip_ws(s, q4);
                            lemma_skip_ws(s, q4);
                            lemma_insert_entry_wf(acc, k, v);
                            if r <= i {
                            } else if 0 <= r < s.len() && s[r] == ',' {
                                lemma_members_wf(s, r + 1, insert_entry(acc, k, v));
                            }
                        },
                    }
                }
            },
        }
    }
}

/// Every value the reader returns has no key twice in any of its objects.
pub proof fn lemma_parse_wf(s: Seq<char>)
    ensures
        parse_spec(s) matches Ok(v) ==> json_wf(v),
{
    lemma_value_wf(s, skip_ws(s, 0));
}

// ---------------------------------------------------------------------------
// Round trip: reading what was written

/// The value with the entries of every object put in the order they are
/// written: by increasing key.
pub open spec fn canon(v: Json) -> Json
    decreases v, 0nat,
{
    match v {
        Json::List(items) => Json::List(canon_items(items)),
        Json::Object(es) => Json::Object(canon_members(es, sort_order(es))),
        _ => v,
    }
}

pub open spec fn canon_items(items: Seq<Json>) -> Seq<Json>
    decreases items, 0nat,
{
    if items.len() == 0 {
        Seq::empty()
    } else {
        canon_items(items.drop_last()).push(canon(items.last()))
    }
}

pub open spec fn canon_members(es: Seq<(Seq<char>, Json)>, order: Seq<int>) -> Seq<(Seq<char>, Json)>
    decreases es, order.len(),
{
    if order.len() == 0 {
        Seq::empty()
    } else {
        let j = order.last();
        canon_members(es, order.drop_last()).push(
            (es[j].0, if 0 <= j < es.len() { canon(es[j].1) } else { Json::Null }))
    }
}

/// `x` stands in `s` at position `p`.
pub open spec fn at(s: Seq<char>, p: int, x: Seq<char>) -> bool {
    0 <= p && p + x.len() <= s.len() && s.subrange(p, p + x.len()) == x
}

proof fn lemma_at_split(s: Seq<char>, p: int, x: Seq<char>, y: Seq<char>)
    requires
        at(s, p, x + y),
    ensures
        at(s, p, x),
        at(s, p + x.len(), y),
{
    assert(s.subrange(p, p + x.len()) =~= (x + y).subrange(0, x.len() as int)) by {
        assert forall|k: int| 0 <= k < x.len() implies s.subrange(p, p + x.len())[k] == (x + y)[k] by {
            assert(s.subrange(p, p + (x + y).len())[k] == (x + y)[k]);
        }
    }
    assert((x + y).subrange(0, x.len() as int) =~= x);
    assert(s.subrange(p + x.len(), p + x.len() + y.len()) =~= y) by {
        assert forall|k: int| 0 <= k < y.len() implies s.subrange(p + x.len(), p + x.len() + y.len())[k] == y[k] by {
            assert(s.subrange(p, p + (x + y).len())[x.len() + k] == (x + y)[x.len() + k]);
        }
    }
}

proof fn lemma_at_char(s: Seq<char>, p: int, x: Seq<char>, k: int)
    requires
        at(s, p, x),
        0 <= k < x.len(),
    ensures
        s[p + k] == x[k],
{
    assert(s.subrange(p, p + x.len())[k] == x[k]);
}

/// The characters that may follow a written value.
pub open spec fn is_value_end(c: char) -> bool {
    is_json_ws(c) || c == ',' || c == ']' || c == '}'
}

/// The first character of a written value.
pub open spec fn is_value_start(c: char) -> bool {
    c == 'n' || c == 't' || c == 'f' || is_number_char(c) || c == '"' || c == '[' || c == '{'
}

/// `p` is the end of `s` or followed by a character that may end a value.
pub open spec fn ends_value(s: Seq<char>, p: int) -> bool {
    p == s.len() || (0 <= p < s.len() && is_value_end(s[p]))
}

proof fn lemma_skip_line_break(s: Seq<char>, p: int, ind: nat, k: nat)
    requires
        at(s, p, line_break(ind, k)),
        p + line_break(ind, k).len() == s.len() || (p + line_break(ind, k).len() < s.len()
            && !is_json_ws(s[p + line_break(ind, k).len()])),
    ensures
        skip_ws(s, p) == p + line_break(ind, k).len(),
{
    let w = line_break(ind, k);
    assert forall|m: int| 0 <= m < w.len() implies is_json_ws(#[trigger] w[m]) by {
        if ind > 0 {
            if m > 0 {
                assert(w[m] == repeat(' ', (ind * k) as int)[m - 1]);
            }
        }
    }
    assert forall|m: int| 0 <= m < w.len() implies is_json_ws(#[trigger] s[p + m]) by {
        lemma_at_char(s, p, w, m);
    }
    lemma_skip_run(s, p, w.len() as int);
}

proof fn lemma_skip_run(s: Seq<char>, p: int, n: int)
    requires
        0 <= p,
        0 <= n,
        p + n <= s.len(),
        forall|m: int| 0 <= m < n ==> is_json_ws(#[trigger] s[p + m]),
        p + n == s.len() || !is_json_ws(s[p + n]),
    ensures
        skip_ws(s, p) == p + n,
    decreases n,
{
    if n > 0 {
        assert(is_json_ws(s[p + 0]));
        assert forall|m: int| 0 <= m < n - 1 implies is_json_ws(#[trigger] s[(p + 1) + m]) by {
            assert(is_json_ws(s[p + (m + 1)]));
        }
        lemma_skip_run(s, p + 1, n - 1);
    }
}

proof fn lemma_decimal(n: nat)
    ensures
        all_digits(decimal(n)),
        digits_value(decimal(n)) == n,
    decreases n,
{
    if n >= 10 {
        lemma_decimal(n / 10);
        let d = decimal(n);
        assert(d.drop_last() == decimal(n / 10));
        assert(d.last() == digit_char(n % 10));
        assert(digit_value(digit_char(n % 10)) == n % 10);
        assert((n / 10) * 10 + n % 10 == n) by (nonlinear_arith);
        assert(digits_value(d) == digits_value(d.drop_last()) * 10 + digit_value(d.last()));
        assert forall|k: int| 0 <= k < d.len() implies crate::scanner::is_digit(#[trigger] d[k]) by {
            if k < d.len() - 1 {
                assert(d[k] == decimal(n / 10)[k]);
            }
        }
    } else {
        let d = decimal(n);
        assert(d.drop_last() =~= Seq::<char>::empty());
        assert(digit_value(digit_char(n)) == n);
        assert(digits_value(d) == digits_value(d.drop_last()) * 10 + digit_value(d.last()));
    }
}

proof fn lemma_signed_decimal(n: int)
    requires
        i64::MIN <= n <= i64::MAX,
    ensures
        parse_i64_spec(signed_decimal(n)) == Some(n),
        signed_decimal(n).len() >= 1,
        forall|k: int| 0 <= k < signed_decimal(n).len() ==> (#[trigger] signed_decimal(n)[k] == '-' && k == 0 && n < 0)
            || ('0' <= signed_decimal(n)[k] <= '9'),
{
    if n < 0 {
        lemma_decimal((-n) as nat);
        let t = signed_decimal(n);
        assert(t.drop_first() =~= decimal((-n) as nat));
        assert forall|k: int| 0 <= k < t.len() implies (#[trigger] t[k] == '-' && k == 0 && n < 0)
            || ('0' <= t[k] <= '9') by {
            if k > 0 {
                assert(t[k] == decimal((-n) as nat)[k - 1]);
            }
        }
    } else {
        lemma_decimal(n as nat);
    }
}

proof fn lemma_write_start(v: Json, ind: nat, d: nat)
    requires
        json_wf(v),
    ensures
        write_json(v, ind, d).len() >= 1,
        is_value_start(write_json(v, ind, d)[0]),
{
    reveal_strlit("null");
    reveal_strlit("true");
    reveal_strlit("false");
    reveal_strlit("[]");
    reveal_strlit("{}");
    match v {
        Json::Int(n) => {
            if n < 0 {
                lemma_decimal((-n) as nat);
            } else {
                lemma_decimal(n as nat);
                assert(crate::scanner::is_digit(decimal(n as nat)[0]));
            }
        },
        Json::Float(t) => {
            if !(t[0] == '-' || t[0] == '+') {
                assert(is_number_char(t[0]));
            }
        },
        _ => {},
    }
}

proof fn lemma_insert_fresh(es: Seq<(Seq<char>, Json)>, k: Seq<char>, v: Json)
    requires
        !has_key(es, k),
    ensures
        insert_entry(es, k, v) == es.push((k, v)),
    decreases es.len(),
{
    if es.len() > 0 {
        assert(es[0].0 != k);
        assert(!has_key(es.skip(1), k)) by {
            if has_key(es.skip(1), k) {
                let m = choose|m: int| 0 <= m < es.skip(1).len() && #[trigger] es.skip(1)[m].0 == k;
                assert(es[m + 1].0 == k);
            }
        }
        lemma_insert_fresh(es.skip(1), k, v);
        assert(seq![es[0]] + es.skip(1).push((k, v)) =~= es.push((k, v)));
    } else {
        assert(seq![(k, v)] =~= es.push((k, v)));
    }
}

/// The write order of an object lists each entry exactly once.
proof fn lemma_sort_order(es: Seq<(Seq<char>, Json)>, n: int)
    requires
        0 <= n,
    ensures
        sort_order_upto(es, n).len() == n,
        forall|m: int| 0 <= m < n ==> 0 <= #[trigger] sort_order_upto(es, n)[m] < n,
        sort_order_upto(es, n).no_duplicates(),
    decreases n,
{
    if n > 0 {
        lemma_sort_order(es, n - 1);
        let o = sort_order_upto(es, n - 1);
        lemma_insert_index_range(o, es, n - 1, n);
        lemma_insert_index_distinct(o, es, n - 1);
    }
}

proof fn lemma_insert_index_distinct(order: Seq<int>, es: Seq<(Seq<char>, Json)>, i: int)
    requires
        order.no_duplicates(),
        !order.contains(i),
    ensures
        insert_index(order, es, i).no_duplicates(),
        forall|x: int| #[trigger] insert_index(order, es, i).contains(x) ==> x == i || order.contains(x),
    decreases order.len(),
{
    if order.len() == 0 {
    } else if key_lt(es[i].0, es[order[0]].0) {
        let r = seq![i] + order;
        assert forall|a: int, b: int| 0 <= a < b < r.len() implies r[a] != r[b] by {
            if a == 0 {
                assert(r[b] == order[b - 1]);
            } else {
                assert(r[a] == order[a - 1]);
                assert(r[b] == order[b - 1]);
            }
        }
        assert forall|x: int| #[trigger] r.contains(x) implies x == i || order.contains(x) by {
            let m = choose|m: int| 0 <= m < r.len() && r[m] == x;
            if m > 0 {
                assert(order[m - 1] == x);
            }
        }
    } else {
        let rest = order.skip(1);
        assert(rest.no_duplicates()) by {
            assert forall|a: int, b: int| 0 <= a < b < rest.len() implies rest[a] != rest[b] by {
                assert(rest[a] == order[a + 1]);
                assert(rest[b] == order[b + 1]);
            }
        }
        assert(!rest.contains(i)) by {
            if rest.contains(i) {
                let m = choose|m: int| 0 <= m < rest.len() && rest[m] == i;
                assert(order[m + 1] == i);
            }
        }
        lemma_insert_index_distinct(rest, es, i);
        let t = insert_index(rest, es, i);
        let r = seq![order[0]] + t;
        assert forall|x: int| #[trigger] r.contains(x) implies x == i || order.contains(x) by {
            let m = choose|m: int| 0 <= m < r.len() && r[m] == x;
            if m == 0 {
                assert(order[0] == x);
            } else {
                assert(t[m - 1] == x);
                assert(t.contains(x));
                if x != i {
                    let q = choose|q: int| 0 <= q < rest.len() && rest[q] == x;
                    assert(order[q + 1] == x);
                }
            }
        }
        assert forall|a: int, b: int| 0 <= a < b < r.len() implies r[a] != r[b] by {
            if a == 0 {
                assert(r[b] == t[b - 1]);
                assert(t.contains(t[b - 1]));
                if t[b - 1] == order[0] {
                    if order[0] == i {
                        assert(order.contains(i));
                    } else {
                        let q = choose|q: int| 0 <= q < rest.len() && rest[q] == order[0];
                        assert(order[q + 1] == order[0]);
                    }
                }
            } else {
                assert(r[a] == t[a - 1]);
                assert(r[b] == t[b - 1]);
            }
        }
    }
}

proof fn lemma_items_prefix(s: Seq<char>, base: int, items: Seq<Json>, ind: nat, d: nat, j: int)
    requires
        at(s, base, write_items(items, ind, d)),
        0 <= j <= items.len(),
    ensures
        at(s, base, write_items(items.take(j), ind, d)),
    decreases items.len() - j,
{
    if j == items.len() {
        assert(items.take(j) =~= items);
    } else {
        lemma_items_prefix(s, base, items, ind, d, j + 1);
        let t = items.take(j + 1);
        assert(t.drop_last() =~= items.take(j));
        let sep = if t.len() > 1 { seq![','] } else { Seq::<char>::empty() };
        assert(write_items(t, ind, d) =~= write_items(items.take(j), ind, d)
            + (sep + line_break(ind, d + 1) + write_json(t.last(), ind, d + 1)));
        lemma_at_split(s, base, write_items(items.take(j), ind, d),
            sep + line_break(ind, d + 1) + write_json(t.last(), ind, d + 1));
    }
}

proof fn lemma_members_prefix(s: Seq<char>, base: int, es: Seq<(Seq<char>, Json)>, order: Seq<int>, ind: nat, d: nat, j: int)
    requires
        at(s, base, write_members(es, order, ind, d)),
        0 <= j <= order.len(),
    ensures
        at(s, base, write_members(es, order.take(j), ind, d)),
    decreases order.len() - j,
{
    if j == order.len() {
        assert(order.take(j) =~= order);
    } else {
        lemma_members_prefix(s, base, es, order, ind, d, j + 1);
        let t = order.take(j + 1);
        assert(t.drop_last() =~= order.take(j));
        let m = t.last();
        let sep = if t.len() > 1 { seq![','] } else { Seq::<char>::empty() };
        let rest = sep + line_break(ind, d + 1) + quoted(es[m].0) + seq![':']
            + (if ind > 0 { seq![' '] } else { Seq::<char>::empty() })
            + (if 0 <= m < es.len() { write_json(es[m].1, ind, d + 1) } else { Seq::<char>::empty() });
        assert(write_members(es, t, ind, d) =~= write_members(es, order.take(j), ind, d) + rest);
        lemma_at_split(s, base, write_members(es, order.take(j), ind, d), rest);
    }
}

proof fn lemma_canon_members_keys(es: Seq<(Seq<char>, Json)>, order: Seq<int>)
    ensures
        canon_members(es, order).len() == order.len(),
        forall|m: int| 0 <= m < order.len() ==> #[trigger] canon_members(es, order)[m].0 == es[order[m]].0,
    decreases order.len(),
{
    if order.len() > 0 {
        lemma_canon_members_keys(es, order.drop_last());
        assert forall|m: int| 0 <= m < order.len() implies #[trigger] canon_members(es, order)[m].0 == es[order[m]].0 by {
            if m < order.len() - 1 {
                assert(order.drop_last()[m] == order[m]);
            }
        }
    }
}

/// Where the parts of item `k` of a written list stand: the position after
/// the preceding comma (or the bracket), the item, and the end of the item.
#[verifier::spinoff_prover]
#[verifier::rlimit(100)]
proof fn lemma_item_text(s: Seq<char>, base: int, items: Seq<Json>, ind: nat, d: nat, k: int)
    -> (r: (int, int, int))
    requires
        forall|i: int| 0 <= i < items.len() ==> json_wf(#[trigger] items[i]),
        0 <= k < items.len(),
        at(s, base, write_items(items, ind, d) + line_break(ind, d) + seq![']']),
    ensures
        r.0 == base + write_items(items.take(k), ind, d).len() + (if k > 0 { 1int } else { 0int }),
        skip_ws(s, r.0) == r.1,
        r.0 <= r.1,
        r.1 < s.len() && is_value_start(s[r.1]),
        at(s, r.1, write_json(items[k], ind, d + 1)),
        r.1 + write_json(items[k], ind, d + 1).len() == r.2,
        r.1 < r.2,
        ends_value(s, r.2),
        r.2 == base + write_items(items.take(k + 1), ind, d).len(),
        k + 1 < items.len() ==> r.2 < s.len() && s[r.2] == ',' && skip_ws(s, r.2) == r.2,
        k + 1 == items.len() ==> skip_ws(s, r.2) == r.2 + line_break(ind, d).len()
            && r.2 + line_break(ind, d).len() < s.len()
            && s[r.2 + line_break(ind, d).len()] == ']'
            && r.2 == base + write_items(items, ind, d).len(),
        canon_items(items.take(k + 1)) == canon_items(items.take(k)).push(canon(items[k])),
{
    let n = items.len() as int;
    let w = write_items(items, ind, d);
    let lbd = line_break(ind, d);
    lemma_at_split(s, base, w + lbd, seq![']']);
    lemma_at_split(s, base, w, lbd);
    let wk = write_items(items.take(k), ind, d);
    let wk1 = write_items(items.take(k + 1), ind, d);
    lemma_items_prefix(s, base, items, ind, d, k + 1);
    let t = items.take(k + 1);
    assert(t.drop_last() =~= items.take(k));
    assert(t.last() == items[k]);
    let sep = if k > 0 { seq![','] } else { Seq::<char>::empty() };
    let lb1 = line_break(ind, d + 1);
    let x = write_json(items[k], ind, d + 1);
    assert(wk1 =~= wk + sep + lb1 + x);
    lemma_at_split(s, base, wk + sep + lb1, x);
    lemma_at_split(s, base, wk + sep, lb1);
    lemma_at_split(s, base, wk, sep);
    let c = base + wk.len() + sep.len();
    let p = c + lb1.len();
    lemma_write_start(items[k], ind, d + 1);
    lemma_at_char(s, p, x, 0);
    lemma_skip_line_break(s, c, ind, d + 1);
    let q = p + x.len();
    if k + 1 < n {
        lemma_items_prefix(s, base, items, ind, d, k + 2);
        let t2 = items.take(k + 2);
        assert(t2.drop_last() =~= items.take(k + 1));
        assert(write_items(t2, ind, d) =~= wk1 + (seq![','] + lb1 + write_json(t2.last(), ind, d + 1)));
        lemma_at_split(s, base, wk1, seq![','] + lb1 + write_json(t2.last(), ind, d + 1));
        lemma_at_char(s, q, seq![','] + lb1 + write_json(t2.last(), ind, d + 1), 0);
    } else {
        assert(items.take(k + 1) =~= items);
        lemma_at_char(s, q + lbd.len(), seq![']'], 0);
        if ind > 0 {
            lemma_at_char(s, q, lbd, 0);
        }
        lemma_skip_line_break(s, q, ind, d);
    }
    assert(canon_items(items.take(k + 1)) =~= canon_items(items.take(k)).push(canon(items[k])));
    (c, p, q)
}

/// Written text read back, for the items of a list from item `k` on.
#[verifier::spinoff_prover]
#[verifier::rlimit(80)]
proof fn lemma_items_rt(s: Seq<char>, base: int, items: Seq<Json>, ind: nat, d: nat, k: int)
    requires
        forall|i: int| 0 <= i < items.len() ==> json_wf(#[trigger] items[i]),
        0 <= k < items.len(),
        at(s, base, write_items(items, ind, d) + line_break(ind, d) + seq![']']),
    ensures
        items_at(s, base + write_items(items.take(k), ind, d).len() + (if k > 0 { 1int } else { 0int }),
            canon_items(items.take(k)))
            == Ok::<(Json, int), Seq<char>>((Json::List(canon_items(items)),
                base + write_items(items, ind, d).len() + line_break(ind, d).len() + 1)),
        k == 0 ==> (skip_ws(s, base) < s.len() && is_value_start(s[skip_ws(s, base)])),
    decreases items, items.len() - k,
{
    let (c, p, q) = lemma_item_text(s, base, items, ind, d, k);
    lemma_value_rt(s, p, items[k], ind, d + 1);
    if k + 1 < items.len() {
        lemma_items_rt(s, base, items, ind, d, k + 1);
    } else {
        assert(items.take(k + 1) =~= items);
    }
}

proof fn lemma_member_key_fresh(es: Seq<(Seq<char>, Json)>, k: int)
    requires
        keys_distinct(es),
        0 <= k < es.len(),
    ensures
        !has_key(canon_members(es, sort_order(es).take(k)), es[sort_order(es)[k]].0),
{
    let n = es.len() as int;
    let ord = sort_order(es);
    lemma_sort_order(es, n);
    let j = ord[k];
    lemma_canon_members_keys(es, ord.take(k));
    let acc = canon_members(es, ord.take(k));
    if has_key(acc, es[j].0) {
        let m = choose|m: int| 0 <= m < acc.len() && #[trigger] acc[m].0 == es[j].0;
        assert(acc[m].0 == es[ord.take(k)[m]].0);
        assert(ord.take(k)[m] == ord[m]);
        assert(ord[m] != ord[k]);
        assert(0 <= ord[m] < n);
        if ord[m] < j {
            assert(es[ord[m]].0 != es[j].0);
        } else {
            assert(es[j].0 != es[ord[m]].0);
        }
    }
}

/// Where the parts of member `k` of a written object stand: the position after
/// the preceding comma (or the brace), the key, the colon, the value and the
/// end of the value.
#[verifier::spinoff_prover]
#[verifier::rlimit(100)]
proof fn lemma_member_text(s: Seq<char>, base: int, es: Seq<(Seq<char>, Json)>, ind: nat, d: nat, k: int)
    -> (r: (int, int, int, int, int))
    requires
        keys_distinct(es),
        forall|i: int| 0 <= i < es.len() ==> json_wf(#[trigger] es[i].1),
        0 <= k < es.len(),
        at(s, base, write_members(es, sort_order(es), ind, d) + line_break(ind, d) + seq!['}']),
    ensures
        r.0 == base + write_members(es, sort_order(es).take(k), ind, d).len() + (if k > 0 { 1int } else { 0int }),
        0 <= sort_order(es)[k] < es.len(),
        skip_ws(s, r.0) == r.1,
        string_at(s, r.1) == Ok::<(Seq<char>, int), Seq<char>>((es[sort_order(es)[k]].0, r.2)),
        r.0 <= r.1 < r.2,
        r.2 < s.len() && s[r.2] == ':' && skip_ws(s, r.2) == r.2,
        skip_ws(s, r.2 + 1) == r.3,
        r.2 < r.3 < r.4,
        r.1 < s.len() && s[r.1] == '"',
        at(s, r.3, write_json(es[sort_order(es)[k]].1, ind, d + 1)),
        r.3 + write_json(es[sort_order(es)[k]].1, ind, d + 1).len() == r.4,
        r.4 == base + write_members(es, sort_order(es).take(k + 1), ind, d).len(),
        ends_value(s, r.4),
        k + 1 < es.len() ==> r.4 < s.len() && s[r.4] == ',' && skip_ws(s, r.4) == r.4,
        k + 1 == es.len() ==> skip_ws(s, r.4) == r.4 + line_break(ind, d).len()
            && r.4 + line_break(ind, d).len() < s.len()
            && s[r.4 + line_break(ind, d).len()] == '}'
            && r.4 == base + write_members(es, sort_order(es), ind, d).len(),
        canon_members(es, sort_order(es).take(k + 1)) == insert_entry(canon_members(es, sort_order(es).take(k)),
            es[sort_order(es)[k]].0, canon(es[sort_order(es)[k]].1)),
{
    let n = es.len() as int;
    let ord = sort_order(es);
    lemma_sort_order(es, n);
    let w = write_members(es, ord, ind, d);
    let lbd = line_break(ind, d);
    lemma_at_split(s, base, w + lbd, seq!['}']);
    lemma_at_split(s, base, w, lbd);
    let wk = write_members(es, ord.take(k), ind, d);
    let wk1 = write_members(es, ord.take(k + 1), ind, d);
    lemma_members_prefix(s, base, es, ord, ind, d, k + 1);
    let t = ord.take(k + 1);
    assert(t.drop_last() =~= ord.take(k));
    let j = ord[k];
    assert(t.last() == j);
    let sep = if k > 0 { seq![','] } else { Seq::<char>::empty() };
    let lb1 = line_break(ind, d + 1);
    let key = quoted(es[j].0);
    let sp = if ind > 0 { seq![' '] } else { Seq::<char>::empty() };
    let x = write_json(es[j].1, ind, d + 1);
    assert(wk1 =~= wk + sep + lb1 + key + seq![':'] + sp + x);
    lemma_at_split(s, base, wk + sep + lb1 + key + seq![':'] + sp, x);
    lemma_at_split(s, base, wk + sep + lb1 + key + seq![':'], sp);
    lemma_at_split(s, base, wk + sep + lb1 + key, seq![':']);
    lemma_at_split(s, base, wk + sep + lb1, key);
    lemma_at_split(s, base, wk + sep, lb1);
    lemma_at_split(s, base, wk, sep);
    let c = base + wk.len() + sep.len();
    let p = c + lb1.len();
    lemma_at_char(s, p, key, 0);
    lemma_skip_line_break(s, c, ind, d + 1);
    lemma_string_round_trip(s, p, es[j].0);
    let q = p + key.len();
    lemma_at_char(s, q, seq![':'], 0);
    let q3 = q + 1 + sp.len();
    lemma_write_start(es[j].1, ind, d + 1);
    lemma_at_char(s, q3, x, 0);
    if ind > 0 {
        lemma_at_char(s, q + 1, sp, 0);
    }
    lemma_skip_run(s, q + 1, sp.len() as int);
    let q4 = q3 + x.len();
    let acc = canon_members(es, ord.take(k));
    lemma_member_key_fresh(es, k);
    lemma_insert_fresh(acc, es[j].0, canon(es[j].1));
    assert(canon_members(es, ord.take(k + 1)) =~= acc.push((es[j].0, canon(es[j].1))));
    if k + 1 < n {
        lemma_members_prefix(s, base, es, ord, ind, d, k + 2);
        let t2 = ord.take(k + 2);
        assert(t2.drop_last() =~= ord.take(k + 1));
        let m2 = t2.last();
        let rest2 = seq![','] + lb1 + quoted(es[m2].0) + seq![':'] + sp
            + (if 0 <= m2 < es.len() { write_json(es[m2].1, ind, d + 1) } else { Seq::<char>::empty() });
        assert(write_members(es, t2, ind, d) =~= wk1 + rest2);
        lemma_at_split(s, base, wk1, rest2);
        lemma_at_char(s, q4, rest2, 0);
    } else {
        assert(ord.take(k + 1) =~= ord);
        lemma_at_char(s, q4 + lbd.len(), seq!['}'], 0);
        if ind > 0 {
            lemma_at_char(s, q4, lbd, 0);
        }
        lemma_skip_line_break(s, q4, ind, d);
    }
    (c, p, q, q3, q4)
}

/// Written text read back, for the members of an object from member `k` on.
#[verifier::spinoff_prover]
#[verifier::rlimit(80)]
proof fn lemma_members_rt(s: Seq<char>, base: int, es: Seq<(Seq<char>, Json)>, ind: nat, d: nat, k: int)
    requires
        keys_distinct(es),
        forall|i: int| 0 <= i < es.len() ==> json_wf(#[trigger] es[i].1),
        0 <= k < es.len(),
        at(s, base, write_members(es, sort_order(es), ind, d) + line_break(ind, d) + seq!['}']),
    ensures
        members_at(s, base + write_members(es, sort_order(es).take(k), ind, d).len() + (if k > 0 { 1int } else { 0int }),
            canon_members(es, sort_order(es).take(k)))
            == Ok::<(Json, int), Seq<char>>((Json::Object(canon_members(es, sort_order(es))),
                base + write_members(es, sort_order(es), ind, d).len() + line_break(ind, d).len() + 1)),
        k == 0 ==> (skip_ws(s, base) < s.len() && s[skip_ws(s, base)] == '"'),
    decreases es, es.len() - k,
{
    let (c, p, q, q3, q4) = lemma_member_text(s, base, es, ind, d, k);
    let j = sort_order(es)[k];
    lemma_value_rt(s, q3, es[j].1, ind, d + 1);
    if k + 1 < es.len() {
        lemma_members_rt(s, base, es, ind, d, k + 1);
    } else {
        lemma_sort_order(es, es.len() as int);
        assert(sort_order(es).take(k + 1) =~= sort_order(es));
    }
}

/// Written text read back, for one value at position `p`.
#[verifier::spinoff_prover]
#[verifier::rlimit(80)]
proof fn lemma_value_rt(s: Seq<char>, p: int, v: Json, ind: nat, d: nat)
    requires
        json_wf(v),
        at(s, p, write_json(v, ind, d)),
        ends_value(s, p + write_json(v, ind, d).len()),
    ensures
        value_at(s, p) == Ok::<(Json, int), Seq<char>>((canon(v), p + write_json(v, ind, d).len())),
    decreases v, 1int,
{
    reveal_strlit("null");
    reveal_strlit("true");
    reveal_strlit("false");
    let w = write_json(v, ind, d);
    lemma_write_start(v, ind, d);
    lemma_at_char(s, p, w, 0);
    match v {
        Json::Int(n) => {
            lemma_int_rt(s, p, n);
        },
        Json::Float(t) => {
            lemma_float_rt(s, p, t);
        },
        Json::Str(t) => {
            lemma_string_round_trip(s, p, t);
        },
        Json::List(items) => {
            lemma_list_rt(s, p, v, ind, d);
        },
        Json::Object(es) => {
            lemma_object_rt(s, p, v, ind, d);
        },
        _ => {},
    }
}

proof fn lemma_int_rt(s: Seq<char>, p: int, n: int)
    requires
        i64::MIN <= n <= i64::MAX,
        at(s, p, signed_decimal(n)),
        ends_value(s, p + signed_decimal(n).len()),
    ensures
        number_at(s, p) == Ok::<(Json, int), Seq<char>>((Json::Int(n), p + signed_decimal(n).len())),
{
    lemma_signed_decimal(n);
    let w = signed_decimal(n);
    let e = p + w.len();
    lemma_at_char(s, p, w, 0);
    let j0 = if s[p] == '-' { p + 1 } else { p };
    assert forall|m: int| j0 <= m < e implies is_number_char(#[trigger] s[m]) && '0' <= s[m] <= '9' by {
        lemma_at_char(s, p, w, m - p);
    }
    lemma_number_run(s, j0, e);
    assert(!(exists|m: int| j0 <= m < e && (s[m] == '.' || s[m] == 'e' || s[m] == 'E')));
}

proof fn lemma_float_rt(s: Seq<char>, p: int, t: Seq<char>)
    requires
        float_text(t),
        at(s, p, t),
        ends_value(s, p + t.len()),
    ensures
        number_at(s, p) == Ok::<(Json, int), Seq<char>>((Json::Float(t), p + t.len())),
{
    let e = p + t.len();
    lemma_at_char(s, p, t, 0);
    let j0 = if s[p] == '-' || s[p] == '+' { p + 1 } else { p };
    let t0 = j0 - p;
    assert forall|m: int| j0 <= m < e implies is_number_char(#[trigger] s[m]) by {
        lemma_at_char(s, p, t, m - p);
    }
    lemma_number_run(s, j0, e);
    assert(s.subrange(p, e) =~= t);
    let is_float_s = exists|m: int| j0 <= m < e && (s[m] == '.' || s[m] == 'e' || s[m] == 'E');
    let is_float_t = exists|k: int| t0 <= k < t.len() && (t[k] == '.' || t[k] == 'e' || t[k] == 'E');
    if is_float_t {
        let k = choose|k: int| t0 <= k < t.len() && (t[k] == '.' || t[k] == 'e' || t[k] == 'E');
        lemma_at_char(s, p, t, k);
        assert(j0 <= p + k < e && (s[p + k] == '.' || s[p + k] == 'e' || s[p + k] == 'E'));
    }
    if is_float_s {
        let m = choose|m: int| j0 <= m < e && (s[m] == '.' || s[m] == 'e' || s[m] == 'E');
        lemma_at_char(s, p, t, m - p);
    }
    assert(is_float_s == is_float_t);
}

#[verifier::spinoff_prover]
#[verifier::rlimit(80)]
proof fn lemma_list_rt(s: Seq<char>, p: int, v: Json, ind: nat, d: nat)
    requires
        v is List,
        json_wf(v),
        at(s, p, write_json(v, ind, d)),
        ends_value(s, p + write_json(v, ind, d).len()),
    ensures
        array_at(s, p) == Ok::<(Json, int), Seq<char>>((canon(v), p + write_json(v, ind, d).len())),
    decreases v, 0int,
{
    reveal_strlit("[]");
    let w = write_json(v, ind, d);
    let items = v->List_0;
    lemma_at_char(s, p, w, 0);
    if items.len() == 0 {
        lemma_at_char(s, p, w, 1);
        assert(skip_ws(s, p + 1) == p + 1);
        assert(canon_items(items) =~= Seq::<Json>::empty());
    } else {
        let inner = write_items(items, ind, d) + line_break(ind, d) + seq![']'];
        assert(w =~= seq!['['] + inner);
        lemma_at_split(s, p, seq!['['], inner);
        lemma_items_rt(s, p + 1, items, ind, d, 0);
        assert(items.take(0) =~= Seq::<Json>::empty());
        assert(write_items(Seq::<Json>::empty(), ind, d) =~= Seq::<char>::empty());
        assert(canon_items(Seq::<Json>::empty()) =~= Seq::<Json>::empty());
    }
}

#[verifier::spinoff_prover]
#[verifier::rlimit(80)]
proof fn lemma_object_rt(s: Seq<char>, p: int, v: Json, ind: nat, d: nat)
    requires
        v is Object,
        json_wf(v),
        at(s, p, write_json(v, ind, d)),
        ends_value(s, p + write_json(v, ind, d).len()),
    ensures
        object_at(s, p) == Ok::<(Json, int), Seq<char>>((canon(v), p + write_json(v, ind, d).len())),
    decreases v, 0int,
{
    reveal_strlit("{}");
    let w = write_json(v, ind, d);
    let es = v->Object_0;
    lemma_at_char(s, p, w, 0);
    if es.len() == 0 {
        lemma_at_char(s, p, w, 1);
        assert(skip_ws(s, p + 1) == p + 1);
        lemma_sort_order(es, 0);
        assert(canon_members(es, sort_order(es)) =~= Seq::<(Seq<char>, Json)>::empty());
    } else {
        let inner = write_members(es, sort_order(es), ind, d) + line_break(ind, d) + seq!['}'];
        assert(w =~= seq!['{'] + inner);
        lemma_at_split(s, p, seq!['{'], inner);
        lemma_members_rt(s, p + 1, es, ind, d, 0);
        assert(sort_order(es).take(0) =~= Seq::<int>::empty());
        assert(write_members(es, Seq::<int>::empty(), ind, d) =~= Seq::<char>::empty());
        assert(canon_members(es, Seq::<int>::empty()) =~= Seq::<(Seq<char>, Json)>::empty());
    }
}

proof fn lemma_number_run(s: Seq<char>, j: int, e: int)
    requires
        0 <= j <= e <= s.len(),
        forall|m: int| j <= m < e ==> is_number_char(#[trigger] s[m]),
        e == s.len() || !is_number_char(s[e]),
    ensures
        number_end(s, j) == e,
    decreases e - j,
{
    if j < e {
        lemma_number_run(s, j + 1, e);
    }
}

proof fn lemma_plain_writable(v: Json)
    requires
        json_wf(v),
    ensures
        first_invalid(v) is None,
    decreases v, 1int,
{
    match v {
        Json::List(items) => lemma_plain_items(items, items.len() as int),
        Json::Object(es) => {
            lemma_sort_order(es, es.len() as int);
            lemma_plain_members(es, sort_order(es), sort_order(es).len() as int);
        },
        _ => {},
    }
}

proof fn lemma_plain_items(items: Seq<Json>, n: int)
    requires
        0 <= n <= items.len(),
        forall|i: int| 0 <= i < items.len() ==> json_wf(#[trigger] items[i]),
    ensures
        first_invalid_items(items.take(n)) is None,
        n == items.len() ==> first_invalid_items(items) is None,
    decreases items, n,
{
    if n > 0 {
        lemma_plain_items(items, n - 1);
        assert(items.take(n).drop_last() =~= items.take(n - 1));
        lemma_plain_writable(items[n - 1]);
    }
    if n == items.len() {
        assert(items.take(n) =~= items);
    }
}

proof fn lemma_plain_members(es: Seq<(Seq<char>, Json)>, order: Seq<int>, n: int)
    requires
        0 <= n <= order.len(),
        forall|i: int| 0 <= i < es.len() ==> json_wf(#[trigger] es[i].1),
    ensures
        first_invalid_members(es, order.take(n)) is None,
        n == order.len() ==> first_invalid_members(es, order) is None,
    decreases es, n,
{
    if n > 0 {
        lemma_plain_members(es, order, n - 1);
        assert(order.take(n).drop_last() =~= order.take(n - 1));
        let j = order[n - 1];
        if 0 <= j < es.len() {
            lemma_plain_writable(es[j].1);
        }
    }
    if n == order.len() {
        assert(order.take(n) =~= order);
    }
}

/// Writing a value and reading the text back gives the value again, with the
/// entries of its objects in key order; at any indentation.  This holds for
/// every value of the form reading gives ([`json_wf`], see
/// [`lemma_parse_wf`]), numbers kept as text included.
pub proof fn lemma_round_trip(v: Json, indent: nat)
    requires
        json_wf(v),
    ensures
        stringify_spec(v, indent) == Ok::<Seq<char>, Seq<char>>(write_json(v, indent, 0)),
        parse_spec(write_json(v, indent, 0)) == Ok::<Json, Seq<char>>(canon(v)),
{
    lemma_plain_writable(v);
    let s = write_json(v, indent, 0);
    lemma_write_start(v, indent, 0);
    assert(s.subrange(0, s.len() as int) =~= s);
    assert(skip_ws(s, 0) == 0);
    lemma_value_rt(s, 0, v, indent, 0);
}

// ---------------------------------------------------------------------------
// Round trip from the reading side

/// Two values are the same JSON: equal once every object's entries are put
/// in key order, that is, equal up to the order of object entries.
pub open spec fn same_json(a: Json, b: Json) -> bool {
    canon(a) == canon(b)
}

/// Every value that reading gives is written, and reading the written text
/// gives it back: the same JSON (its object entries now in key order); at
/// any indentation.
pub proof fn lemma_parse_round_trip(s: Seq<char>, indent: nat)
    ensures
        parse_spec(s) matches Ok(v) ==> stringify_spec(v, indent) == Ok::<Seq<char>, Seq<char>>(write_json(v, indent, 0))
            && parse_spec(write_json(v, indent, 0)) == Ok::<Json, Seq<char>>(canon(v))
            && same_json(canon(v), v),
{
    lemma_parse_wf(s);
    if let Ok(v) = parse_spec(s) {
        lemma_round_trip(v, indent);
        lemma_canon_idempotent(v);
    }
}

/// Putting entries in key order twice is putting them in order once.
pub proof fn lemma_canon_idempotent(v: Json)
    requires
        json_wf(v),
    ensures
        json_wf(canon(v)),
        canon(canon(v)) == canon(v),
{
    let t = write_json(v, 0, 0);
    lemma_round_trip(v, 0);
    lemma_parse_wf(t);
    lemma_round_trip(canon(v), 0);
    lemma_write_canon(v, 0, 0);
}

proof fn lemma_insert_index_last(order: Seq<int>, es: Seq<(Seq<char>, Json)>, i: int)
    requires
        forall|k: int| 0 <= k < order.len() ==> key_lt(#[trigger] es[order[k]].0, es[i].0),
    ensures
        insert_index(order, es, i) == order.push(i),
    decreases order.len(),
{
    if order.len() > 0 {
        lemma_key_lt_asymmetric(es[order[0]].0, es[i].0);
        let rest = order.skip(1);
        assert forall|k: int| 0 <= k < rest.len() implies key_lt(#[trigger] es[rest[k]].0, es[i].0) by {
            assert(rest[k] == order[k + 1]);
        }
        lemma_insert_index_last(rest, es, i);
        assert(seq![order[0]] + rest.push(i) =~= order.push(i));
    }
}

/// Entries already in strictly increasing key order are written in their
/// own order.
proof fn lemma_sort_order_identity(es: Seq<(Seq<char>, Json)>, n: int)
    requires
        0 <= n <= es.len(),
        forall|a: int, b: int| 0 <= a < b < es.len() ==> key_lt(#[trigger] es[a].0, #[trigger] es[b].0),
    ensures
        sort_order_upto(es, n) == Seq::new(n as nat, |k: int| k),
    decreases n,
{
    if n > 0 {
        lemma_sort_order_identity(es, n - 1);
        let o = Seq::new((n - 1) as nat, |k: int| k);
        assert forall|k: int| 0 <= k < o.len() implies key_lt(#[trigger] es[o[k]].0, es[n - 1].0) by {
            assert(o[k] == k);
        }
        lemma_insert_index_last(o, es, n - 1);
        assert(o.push(n - 1) =~= Seq::new(n as nat, |k: int| k));
    } else {
        assert(Seq::<int>::empty() =~= Seq::new(0nat, |k: int| k));
    }
}

proof fn lemma_canon_members_at(es: Seq<(Seq<char>, Json)>, order: Seq<int>)
    requires
        forall|k: int| 0 <= k < order.len() ==> 0 <= #[trigger] order[k] < es.len(),
    ensures
        canon_members(es, order).len() == order.len(),
        forall|k: int| 0 <= k < order.len() ==> #[trigger] canon_members(es, order)[k]
            == (es[order[k]].0, canon(es[order[k]].1)),
    decreases order.len(),
{
    if order.len() > 0 {
        let o1 = order.drop_last();
        assert forall|k: int| 0 <= k < o1.len() implies 0 <= #[trigger] o1[k] < es.len() by {
            assert(o1[k] == order[k]);
        }
        lemma_canon_members_at(es, o1);
        assert forall|k: int| 0 <= k < order.len() implies #[trigger] canon_members(es, order)[k]
            == (es[order[k]].0, canon(es[order[k]].1)) by {
            if k < order.len() - 1 {
                assert(o1[k] == order[k]);
            }
        }
    }
}

proof fn lemma_items_canon(items: Seq<Json>, ind: nat, d: nat)
    requires
        forall|i: int| 0 <= i < items.len() ==> json_wf(#[trigger] items[i]),
    ensures
        canon_items(items).len() == items.len(),
        write_items(canon_items(items), ind, d) == write_items(items, ind, d),
    decreases items, 0int,
{
    if items.len() > 0 {
        let init = items.drop_last();
        assert forall|i: int| 0 <= i < init.len() implies json_wf(#[trigger] init[i]) by {
            assert(init[i] == items[i]);
        }
        lemma_items_canon(init, ind, d);
        lemma_write_canon(items.last(), ind, d + 1);
        let c = canon_items(items);
        assert(c.drop_last() =~= canon_items(init));
    }
}

proof fn lemma_members_canon(es: Seq<(Seq<char>, Json)>, order: Seq<int>, ind: nat, d: nat, m: int)
    requires
        forall|i: int| 0 <= i < es.len() ==> json_wf(#[trigger] es[i].1),
        0 <= m <= order.len(),
        forall|k: int| 0 <= k < order.len() ==> 0 <= #[trigger] order[k] < es.len(),
    ensures
        write_members(canon_members(es, order), Seq::new(m as nat, |k: int| k), ind, d)
            == write_members(es, order.take(m), ind, d),
    decreases es, m,
{
    lemma_canon_members_at(es, order);
    let cm = canon_members(es, order);
    if m > 0 {
        lemma_members_canon(es, order, ind, d, m - 1);
        let id = Seq::new(m as nat, |k: int| k);
        assert(id.drop_last() =~= Seq::new((m - 1) as nat, |k: int| k));
        assert(order.take(m).drop_last() =~= order.take(m - 1));
        let j = order[m - 1];
        assert(id.last() == m - 1);
        assert(order.take(m).last() == j);
        assert(cm[m - 1] == (es[j].0, canon(es[j].1)));
        lemma_write_canon(es[j].1, ind, d + 1);
    } else {
        assert(order.take(0) =~= Seq::<int>::empty());
        assert(Seq::new(0nat, |k: int| k) =~= Seq::<int>::empty());
    }
}

/// Putting the entries of objects in key order does not change how a value
/// is written.
pub proof fn lemma_write_canon(v: Json, ind: nat, d: nat)
    requires
        json_wf(v),
    ensures
        write_json(canon(v), ind, d) == write_json(v, ind, d),
    decreases v, 1int,
{
    match v {
        Json::List(items) => {
            lemma_items_canon(items, ind, d);
        },
        Json::Object(es) => {
            let n = es.len() as int;
            let o = sort_order(es);
            lemma_sort_order(es, n);
            lemma_canon_members_at(es, o);
            let cm = canon_members(es, o);
            if n > 0 {
                lemma_written_in_key_order(es);
                assert forall|a: int, b: int| 0 <= a < b < cm.len() implies key_lt(#[trigger] cm[a].0, #[trigger] cm[b].0) by {
                    assert(written_entries(es)[a] == es[o[a]]);
                    assert(written_entries(es)[b] == es[o[b]]);
                }
                lemma_sort_order_identity(cm, n);
                lemma_members_canon(es, o, ind, d, n);
                assert(o.take(n) =~= o);
            }
        },
        _ => {},
    }
}

/// A canonical text `s`, one that writing some value gives: reading `s` and
/// writing what was read gives `s` again.
pub proof fn lemma_canonical_text(s: Seq<char>, v: Json, indent: nat)
    requires
        json_wf(v),
        s == write_json(v, indent, 0),
    ensures
        parse_spec(s) == Ok::<Json, Seq<char>>(canon(v)),
        parse_spec(s) matches Ok(w) && stringify_spec(w, indent) == Ok::<Seq<char>, Seq<char>>(s),
{
    lemma_round_trip(v, indent);
    lemma_write_canon(v, indent, 0);
    lemma_parse_wf(s);
    lemma_plain_writable(canon(v));
}

/// For every value read from any text: writing it, reading that back and
/// writing again gives the same text.
pub proof fn lemma_written_text_is_stable(s: Seq<char>, indent: nat)
    ensures
        parse_spec(s) matches Ok(v) ==> (parse_spec(write_json(v, indent, 0)) matches Ok(w)
            && stringify_spec(w, indent) == stringify_spec(v, indent)),
{
    lemma_parse_wf(s);
    if let Ok(v) = parse_spec(s) {
        lemma_round_trip(v, indent);
        lemma_canonical_text(write_json(v, indent, 0), v, indent);
    }
}

// ---------------------------------------------------------------------------
// Key order

pub proof fn lemma_key_lt_irreflexive(a: Seq<char>)
    ensures
        !key_lt(a, a),
    decreases a.len(),
{
    if a.len() > 0 {
        lemma_key_lt_irreflexive(a.skip(1));
    }
}

pub proof fn lemma_key_lt_asymmetric(a: Seq<char>, b: Seq<char>)
    ensures
        key_lt(a, b) ==> !key_lt(b, a),
    decreases a.len(),
{
    if a.len() > 0 && b.len() > 0 && a[0] == b[0] {
        lemma_key_lt_asymmetric(a.skip(1), b.skip(1));
    }
}

pub proof fn lemma_key_lt_transitive(a: Seq<char>, b: Seq<char>, c: Seq<char>)
    ensures
        key_lt(a, b) && key_lt(b, c) ==> key_lt(a, c),
    decreases a.len(),
{
    if a.len() > 0 && b.len() > 0 && c.len() > 0 {
        lemma_key_lt_transitive(a.skip(1), b.skip(1), c.skip(1));
    }
}

pub proof fn lemma_key_lt_total(a: Seq<char>, b: Seq<char>)
    ensures
        a != b ==> key_lt(a, b) || key_lt(b, a),
    decreases a.len(),
{
    if a.len() == 0 {
        if b.len() == 0 {
            assert(a =~= b);
        }
    } else if b.len() > 0 && a[0] == b[0] {
        lemma_key_lt_total(a.skip(1), b.skip(1));
        if a.skip(1) == b.skip(1) {
            assert(a =~= seq![a[0]] + a.skip(1));
            assert(b =~= seq![b[0]] + b.skip(1));
        }
    }
}

/// No index in `order` is taken before one with a smaller key.
pub open spec fn order_sorted(es: Seq<(Seq<char>, Json)>, order: Seq<int>) -> bool {
    forall|a: int, b: int| 0 <= a < b < order.len() ==> !key_lt(#[trigger] es[order[b]].0, #[trigger] es[order[a]].0)
}

proof fn lemma_insert_index_contains(order: Seq<int>, es: Seq<(Seq<char>, Json)>, i: int)
    ensures
        insert_index(order, es, i).contains(i),
        forall|x: int| order.contains(x) ==> #[trigger] insert_index(order, es, i).contains(x),
        forall|x: int| #[trigger] insert_index(order, es, i).contains(x) ==> x == i || order.contains(x),
    decreases order.len(),
{
    let r = insert_index(order, es, i);
    if order.len() == 0 {
        assert(r[0] == i);
    } else if key_lt(es[i].0, es[order[0]].0) {
        assert(r[0] == i);
        assert forall|x: int| order.contains(x) implies #[trigger] r.contains(x) by {
            let m = choose|m: int| 0 <= m < order.len() && order[m] == x;
            assert(r[m + 1] == x);
        }
        assert forall|x: int| #[trigger] r.contains(x) implies x == i || order.contains(x) by {
            let m = choose|m: int| 0 <= m < r.len() && r[m] == x;
            if m > 0 {
                assert(order[m - 1] == x);
            }
        }
    } else {
        let rest = order.skip(1);
        lemma_insert_index_contains(rest, es, i);
        let t = insert_index(rest, es, i);
        assert(r =~= seq![order[0]] + t);
        assert(t.contains(i));
        let k = choose|k: int| 0 <= k < t.len() && t[k] == i;
        assert(r[k + 1] == i);
        assert forall|x: int| order.contains(x) implies #[trigger] r.contains(x) by {
            let m = choose|m: int| 0 <= m < order.len() && order[m] == x;
            if m == 0 {
                assert(r[0] == x);
            } else {
                assert(rest[m - 1] == x);
                assert(rest.contains(x));
                assert(t.contains(x));
                let q = choose|q: int| 0 <= q < t.len() && t[q] == x;
                assert(r[q + 1] == x);
            }
        }
        assert forall|x: int| #[trigger] r.contains(x) implies x == i || order.contains(x) by {
            let m = choose|m: int| 0 <= m < r.len() && r[m] == x;
            if m == 0 {
                assert(order[0] == x);
            } else {
                assert(t[m - 1] == x);
                assert(t.contains(x));
                if x != i {
                    let q = choose|q: int| 0 <= q < rest.len() && rest[q] == x;
                    assert(order[q + 1] == x);
                }
            }
        }
    }
}

proof fn lemma_insert_index_sorted(order: Seq<int>, es: Seq<(Seq<char>, Json)>, i: int)
    requires
        order_sorted(es, order),
    ensures
        order_sorted(es, insert_index(order, es, i)),
    decreases order.len(),
{
    let r = insert_index(order, es, i);
    if order.len() == 0 {
    } else if key_lt(es[i].0, es[order[0]].0) {
        assert forall|a: int, b: int| 0 <= a < b < r.len() implies !key_lt(#[trigger] es[r[b]].0, #[trigger] es[r[a]].0) by {
            if a == 0 {
                let kb = es[order[b - 1]].0;
                if b - 1 > 0 {
                    assert(!key_lt(es[order[b - 1]].0, es[order[0]].0));
                }
                lemma_key_lt_total(kb, es[order[0]].0);
                lemma_key_lt_transitive(es[i].0, es[order[0]].0, kb);
                lemma_key_lt_asymmetric(es[i].0, kb);
            } else {
                assert(r[a] == order[a - 1]);
                assert(r[b] == order[b - 1]);
            }
        }
    } else {
        let rest = order.skip(1);
        assert(order_sorted(es, rest)) by {
            assert forall|a: int, b: int| 0 <= a < b < rest.len() implies !key_lt(#[trigger] es[rest[b]].0, #[trigger] es[rest[a]].0) by {
                assert(rest[a] == order[a + 1]);
                assert(rest[b] == order[b + 1]);
            }
        }
        lemma_insert_index_sorted(rest, es, i);
        lemma_insert_index_contains(rest, es, i);
        let t = insert_index(rest, es, i);
        assert(r =~= seq![order[0]] + t);
        assert forall|a: int, b: int| 0 <= a < b < r.len() implies !key_lt(#[trigger] es[r[b]].0, #[trigger] es[r[a]].0) by {
            if a == 0 {
                let x = t[b - 1];
                assert(t.contains(x));
                if x != i {
                    let q = choose|q: int| 0 <= q < rest.len() && rest[q] == x;
                    assert(order[q + 1] == x);
                }
            } else {
                assert(r[a] == t[a - 1]);
                assert(r[b] == t[b - 1]);
            }
        }
    }
}

proof fn lemma_sort_order_sorted(es: Seq<(Seq<char>, Json)>, n: int)
    ensures
        order_sorted(es, sort_order_upto(es, n)),
        forall|k: int| 0 <= k < n ==> #[trigger] sort_order_upto(es, n).contains(k),
    decreases n,
{
    if n > 0 {
        lemma_sort_order_sorted(es, n - 1);
        let o = sort_order_upto(es, n - 1);
        lemma_insert_index_sorted(o, es, n - 1);
        lemma_insert_index_contains(o, es, n - 1);
        assert forall|k: int| 0 <= k < n implies #[trigger] sort_order_upto(es, n).contains(k) by {
            if k < n - 1 {
                assert(o.contains(k));
            }
        }
    }
}

/// The entries of an object in the order they are written.
pub open spec fn written_entries(es: Seq<(Seq<char>, Json)>) -> Seq<(Seq<char>, Json)> {
    sort_order(es).map_values(|j: int| es[j])
}

/// An object is written with each of its entries exactly once, in strictly
/// increasing key order, when no two entries share a key.
pub proof fn lemma_written_in_key_order(es: Seq<(Seq<char>, Json)>)
    requires
        keys_distinct(es),
    ensures
        written_entries(es).to_multiset() == es.to_multiset(),
        forall|a: int, b: int| 0 <= a < b < es.len()
            ==> key_lt(#[trigger] written_entries(es)[a].0, #[trigger] written_entries(es)[b].0),
{
    let n = es.len() as int;
    let o = sort_order(es);
    let w = written_entries(es);
    lemma_sort_order(es, n);
    lemma_sort_order_sorted(es, n);
    assert forall|a: int, b: int| 0 <= a < b < n implies key_lt(#[trigger] w[a].0, #[trigger] w[b].0) by {
        assert(w[a] == es[o[a]]);
        assert(w[b] == es[o[b]]);
        assert(o[a] != o[b]);
        if o[a] < o[b] {
            assert(es[o[a]].0 != es[o[b]].0);
        } else {
            assert(es[o[b]].0 != es[o[a]].0);
        }
        assert(!key_lt(es[o[b]].0, es[o[a]].0));
        lemma_key_lt_total(es[o[a]].0, es[o[b]].0);
    }
    lemma_permutation_multiset(es, o);
}

/// Taking the entries at a list of indices that holds each index once gives
/// the same entries, counted with their repeats.
proof fn lemma_permutation_multiset(es: Seq<(Seq<char>, Json)>, o: Seq<int>)
    requires
        o.len() == es.len(),
        o.no_duplicates(),
        forall|m: int| 0 <= m < o.len() ==> 0 <= #[trigger] o[m] < es.len(),
    ensures
        o.map_values(|j: int| es[j]).to_multiset() == es.to_multiset(),
    decreases es.len(),
{
    let w = o.map_values(|j: int| es[j]);
    if es.len() == 0 {
        assert(w =~= es);
    } else {
        let last = es.len() - 1;
        // the position in `o` of the last index
        assert(o.to_set().len() == o.len()) by {
            o.unique_seq_to_set();
        }
        let full = Set::new(|k: int| 0 <= k < es.len());
        assert(o.to_set().subset_of(full));
        assert(full =~= vstd::set_lib::set_int_range(0, es.len() as int));
        vstd::set_lib::lemma_int_range(0, es.len() as int);
        vstd::set_lib::lemma_subset_equality(o.to_set(), full) ;
        assert(full.contains(last));
        assert(o.to_set().contains(last));
        let p = choose|p: int| 0 <= p < o.len() && o[p] == last;
        let o2 = o.remove(p);
        let es2 = es.drop_last();
        assert forall|m: int| 0 <= m < o2.len() implies 0 <= #[trigger] o2[m] < es2.len() by {
            if m < p {
                assert(o2[m] == o[m]);
            } else {
                assert(o2[m] == o[m + 1]);
            }
        }
        assert(o2.no_duplicates()) by {
            assert forall|a: int, b: int| 0 <= a < b < o2.len() implies o2[a] != o2[b] by {
                let a1 = if a < p { a } else { a + 1 };
                let b1 = if b < p { b } else { b + 1 };
                assert(o2[a] == o[a1]);
                assert(o2[b] == o[b1]);
            }
        }
        lemma_permutation_multiset(es2, o2);
        let w2 = o2.map_values(|j: int| es2[j]);
        assert(w2 =~= w.remove(p)) by {
            assert forall|m: int| 0 <= m < w2.len() implies w2[m] == w.remove(p)[m] by {
                if m < p {
                    assert(o2[m] == o[m]);
                } else {
                    assert(o2[m] == o[m + 1]);
                }
            }
        }
        vstd::seq_lib::to_multiset_remove(w, p);
        assert(es =~= es2.push(es[last]));
        vstd::seq_lib::to_multiset_build(es2, es[last]);
        assert(w[p] == es[last]);
        vstd::seq_lib::to_multiset_len(w);
        vstd::seq_lib::to_multiset_contains(w, es[last]);
        assert(w.contains(w[p]));
        assert(w.to_multiset() =~= w.remove(p).to_multiset().insert(w[p])) by {
            broadcast use vstd::multiset::group_multiset_axioms;
        }
    }
}

/// Two lists of entries, each in strictly increasing key order, that hold
/// the same entries are the same list.
proof fn lemma_sorted_unique(s1: Seq<(Seq<char>, Json)>, s2: Seq<(Seq<char>, Json)>, m: int)
    requires
        s1.len() == s2.len(),
        0 <= m <= s1.len(),
        forall|a: int, b: int| 0 <= a < b < s1.len() ==> key_lt(#[trigger] s1[a].0, #[trigger] s1[b].0),
        forall|a: int, b: int| 0 <= a < b < s2.len() ==> key_lt(#[trigger] s2[a].0, #[trigger] s2[b].0),
        forall|x: (Seq<char>, Json)| s1.contains(x) <==> s2.contains(x),
    ensures
        forall|k: int| 0 <= k < m ==> s1[k] == s2[k],
    decreases m,
{
    if m > 0 {
        lemma_sorted_unique(s1, s2, m - 1);
        let k = m - 1;
        assert(s1.contains(s1[k]));
        assert(s2.contains(s2[k]));
        let p = choose|p: int| 0 <= p < s2.len() && s2[p] == s1[k];
        let q = choose|q: int| 0 <= q < s1.len() && s1[q] == s2[k];
        if p < k {
            assert(s1[p] == s2[p]);
            lemma_key_lt_irreflexive(s1[k].0);
            assert(key_lt(s1[p].0, s1[k].0));
        }
        if q < k {
            assert(s1[q] == s2[q]);
            lemma_key_lt_irreflexive(s2[k].0);
            assert(key_lt(s2[q].0, s2[k].0));
        }
        if p > k && q > k {
            assert(key_lt(s2[k].0, s2[p].0));
            assert(key_lt(s1[k].0, s1[q].0));
            lemma_key_lt_asymmetric(s1[k].0, s2[k].0);
        }
    }
}

/// Objects with the same entries, none sharing a key, are written in the
/// same entry order whatever order they hold them in.
proof fn lemma_written_same(es1: Seq<(Seq<char>, Json)>, es2: Seq<(Seq<char>, Json)>)
    requires
        keys_distinct(es1),
        keys_distinct(es2),
        es1.to_multiset() == es2.to_multiset(),
    ensures
        written_entries(es1) == written_entries(es2),
{
    let w1 = written_entries(es1);
    let w2 = written_entries(es2);
    lemma_written_in_key_order(es1);
    lemma_written_in_key_order(es2);
    vstd::seq_lib::to_multiset_len(es1);
    vstd::seq_lib::to_multiset_len(es2);
    vstd::seq_lib::to_multiset_len(w1);
    vstd::seq_lib::to_multiset_len(w2);
    assert forall|x: (Seq<char>, Json)| w1.contains(x) <==> w2.contains(x) by {
        vstd::seq_lib::to_multiset_contains(w1, x);
        vstd::seq_lib::to_multiset_contains(w2, x);
    }
    lemma_sorted_unique(w1, w2, w1.len() as int);
    assert(w1 =~= w2);
}

/// Writing the entries at two lists of indices that pick the same entries
/// gives the same text.
proof fn lemma_members_same(
    es1: Seq<(Seq<char>, Json)>,
    o1: Seq<int>,
    es2: Seq<(Seq<char>, Json)>,
    o2: Seq<int>,
    indent: nat,
    depth: nat,
)
    requires
        o1.len() == o2.len(),
        forall|m: int| 0 <= m < o1.len() ==> 0 <= #[trigger] o1[m] < es1.len(),
        forall|m: int| 0 <= m < o2.len() ==> 0 <= #[trigger] o2[m] < es2.len(),
        forall|m: int| 0 <= m < o1.len() ==> es1[#[trigger] o1[m]] == es2[o2[m]],
    ensures
        write_members(es1, o1, indent, depth) == write_members(es2, o2, indent, depth),
        first_invalid_members(es1, o1) == first_invalid_members(es2, o2),
    decreases o1.len(),
{
    if o1.len() > 0 {
        let n = o1.len() - 1;
        assert(es1[o1[n]] == es2[o2[n]]);
        lemma_members_same(es1, o1.drop_last(), es2, o2.drop_last(), indent, depth);
    }
}

/// Objects are written with their keys sorted, so that equal objects print
/// alike: an object whose entries are those of another in any order, with
/// no key twice, is written to the same text, or refused with the same
/// message, at any indentation and depth.
pub proof fn lemma_stable_output(es1: Seq<(Seq<char>, Json)>, es2: Seq<(Seq<char>, Json)>, indent: nat, depth: nat)
    requires
        keys_distinct(es1),
        keys_distinct(es2),
        es1.to_multiset() == es2.to_multiset(),
    ensures
        write_json(Json::Object(es1), indent, depth) == write_json(Json::Object(es2), indent, depth),
        first_invalid(Json::Object(es1)) == first_invalid(Json::Object(es2)),
        stringify_spec(Json::Object(es1), indent) == stringify_spec(Json::Object(es2), indent),
{
    let o1 = sort_order(es1);
    let o2 = sort_order(es2);
    lemma_written_same(es1, es2);
    lemma_sort_order(es1, es1.len() as int);
    lemma_sort_order(es2, es2.len() as int);
    vstd::seq_lib::to_multiset_len(es1);
    vstd::seq_lib::to_multiset_len(es2);
    assert forall|m: int| 0 <= m < o1.len() implies es1[#[trigger] o1[m]] == es2[o2[m]] by {
        assert(written_entries(es1)[m] == es1[o1[m]]);
        assert(written_entries(es2)[m] == es2[o2[m]]);
    }
    lemma_members_same(es1, o1, es2, o2, indent, depth);
    lemma_members_same(es1, o1, es2, o2, indent, 0);
}

} // verus!
