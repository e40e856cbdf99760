//! The type checker: walks the statements with a stack of scopes, infers a
//! type for every expression, and collects a message for every mismatch.
//! Functions are declared before the statements of their block are checked,
//! so a call may precede the definition.

use vstd::prelude::*;
use crate::ast::{BinOp, UnaryOp, CallArg, FStringPart, Literal, TypeAnn, Expr, FunctionDecl, ForIter, Stmt, Param, MethodDecl, ImportName};
use crate::types::{
    HyperType, Ty, ty_of, tys_of, is_any, is_numeric, is_boolish, widen_numeric, is_compatible,
    is_any_exec, is_numeric_exec, is_boolish_exec, widen_numeric_exec, is_compatible_exec,
};
use crate::literals::{
    parse_i64, parse_i32, parse_u64, remove_underscores, is_float_literal, parse_i64_spec,
    parse_i32_spec, parse_u64_spec, is_float_text,
};
use crate::scanner::drop_underscores;
use crate::text::{chars_of, chars_is, chars_eq, append_chars, append_str, string_chars, string_from_chars, u64_decimal, copy_string, decimal};
use crate::error::{format_typecheck, format_typecheck_spec};

verus! {

// ---------------------------------------------------------------------------
// Type names

/// Unicode `White_Space` characters, as `char::is_whitespace` tests them.
pub open spec fn is_whitespace(c: char) -> bool {
    ('\u{9}' <= c <= '\u{d}') || c == ' ' || c == '\u{85}' || c == '\u{a0}' || c == '\u{1680}'
        || ('\u{2000}' <= c <= '\u{200a}') || c == '\u{2028}' || c == '\u{2029}' || c == '\u{202f}'
        || c == '\u{205f}' || c == '\u{3000}'
}

pub fn is_whitespace_exec(c: char) -> (r: bool)
    ensures
        r == is_whitespace(c),
{
    ('\u{9}' <= c && c <= '\u{d}') || c == ' ' || c == '\u{85}' || c == '\u{a0}' || c == '\u{1680}'
        || ('\u{2000}' <= c && c <= '\u{200a}') || c == '\u{2028}' || c == '\u{2029}' || c == '\u{202f}'
        || c == '\u{205f}' || c == '\u{3000}'
}

/// Index of the first character that is not whitespace (or the length).
pub open spec fn trim_start_index(s: Seq<char>, i: int) -> int
    decreases s.len() - i,
{
    if 0 <= i < s.len() && is_whitespace(s[i]) { trim_start_index(s, i + 1) } else { i }
}

/// One past the last character at or after `lo` that is not whitespace.
pub open spec fn trim_end_index(s: Seq<char>, lo: int, j: int) -> int
    decreases j - lo,
{
    if lo < j && j <= s.len() && is_whitespace(s[j - 1]) { trim_end_index(s, lo, j - 1) } else { j }
}

/// `s` without leading and trailing whitespace.
pub open spec fn trim(s: Seq<char>) -> Seq<char> {
    let a = trim_start_index(s, 0);
    s.subrange(a, trim_end_index(s, a, s.len() as int))
}

pub proof fn lemma_trim_bounds(s: Seq<char>)
    ensures
        0 <= trim_start_index(s, 0) <= trim_end_index(s, trim_start_index(s, 0), s.len() as int) <= s.len(),
{
    lemma_trim_start(s, 0);
    lemma_trim_end(s, trim_start_index(s, 0), s.len() as int);
}

pub proof fn lemma_trim_start(s: Seq<char>, i: int)
    requires
        0 <= i <= s.len(),
    ensures
        i <= trim_start_index(s, i) <= s.len(),
    decreases s.len() - i,
{
    if i < s.len() && is_whitespace(s[i]) {
        lemma_trim_start(s, i + 1);
    }
}

pub proof fn lemma_trim_end(s: Seq<char>, lo: int, j: int)
    requires
        0 <= lo <= j <= s.len(),
    ensures
        lo <= trim_end_index(s, lo, j) <= j,
    decreases j - lo,
{
    if lo < j && is_whitespace(s[j - 1]) {
        lemma_trim_end(s, lo, j - 1);
    }
}

pub fn trim_chars(s: &[char]) -> (r: Vec<char>)
    ensures
        r@ == trim(s@),
{
    proof { lemma_trim_bounds(s@); }
    let mut a: usize = 0;
    while a < s.len() && is_whitespace_exec(s[a])
        invariant
            a <= s@.len(),
            trim_start_index(s@, a as int) == trim_start_index(s@, 0),
        decreases s@.len() - a,
    {
        a = a + 1;
    }
    let mut b: usize = s.len();
    proof { lemma_trim_end(s@, a as int, s@.len() as int); }
    while b > a && is_whitespace_exec(s[b - 1])
        invariant
            a <= b <= s@.len(),
            trim_end_index(s@, a as int, b as int) == trim_end_index(s@, a as int, s@.len() as int),
        decreases b,
    {
        b = b - 1;
    }
    let mut out: Vec<char> = Vec::new();
    let mut k = a;
    while k < b
        invariant
            a <= k <= b <= s@.len(),
            out@ == s@.subrange(a as int, k as int),
        decreases b - k,
    {
        out.push(s[k]);
        k = k + 1;
        assert(s@.subrange(a as int, k as int) == s@.subrange(a as int, k - 1).push(s@[k - 1]));
    }
    out
}

/// The type a builtin type name stands for (aliases included).
pub open spec fn builtin_type(n: Seq<char>) -> Option<Ty> {
    if n == "None"@ || n == "none"@ {
        Some(Ty::NoneType)
    } else if n == "bool"@ || n == "boolean"@ {
        Some(Ty::Bool)
    } else if n == "string"@ || n == "str"@ {
        Some(Ty::Str)
    } else if n == "i8"@ || n == "int8"@ {
        Some(Ty::I8)
    } else if n == "i16"@ || n == "int16"@ {
        Some(Ty::I16)
    } else if n == "i32"@ || n == "int32"@ {
        Some(Ty::I32)
    } else if n == "i64"@ || n == "int64"@ {
        Some(Ty::I64)
    } else if n == "u8"@ || n == "uint8"@ {
        Some(Ty::U8)
    } else if n == "u16"@ || n == "uint16"@ {
        Some(Ty::U16)
    } else if n == "u32"@ || n == "uint32"@ {
        Some(Ty::U32)
    } else if n == "u64"@ || n == "uint64"@ {
        Some(Ty::U64)
    } else if n == "f32"@ || n == "float32"@ {
        Some(Ty::F32)
    } else if n == "f64"@ || n == "float64"@ {
        Some(Ty::F64)
    } else if n == "any"@ || n == "Any"@ {
        Some(Ty::Any)
    } else if n == "list"@ || n == "List"@ {
        Some(Ty::List(Box::new(Ty::Any)))
    } else if n == "dict"@ || n == "Dict"@ {
        Some(Ty::Dict)
    } else if n == "mmap"@ || n == "Mmap"@ {
        Some(Ty::Mmap)
    } else if n == "file"@ || n == "File"@ {
        Some(Ty::File)
    } else {
        None
    }
}

fn builtin_type_exec(n: &[char]) -> (r: Option<HyperType>)
    ensures
        r matches Some(t) ==> builtin_type(n@) == Some(t@),
        r is None ==> builtin_type(n@) is None,
{
    if chars_is(n, "None") || chars_is(n, "none") {
        Some(HyperType::NoneType)
    } else if chars_is(n, "bool") || chars_is(n, "boolean") {
        Some(HyperType::Bool)
    } else if chars_is(n, "string") || chars_is(n, "str") {
        Some(HyperType::String)
    } else if chars_is(n, "i8") || chars_is(n, "int8") {
        Some(HyperType::I8)
    } else if chars_is(n, "i16") || chars_is(n, "int16") {
        Some(HyperType::I16)
    } else if chars_is(n, "i32") || chars_is(n, "int32") {
        Some(HyperType::I32)
    } else if chars_is(n, "i64") || chars_is(n, "int64") {
        Some(HyperType::I64)
    } else if chars_is(n, "u8") || chars_is(n, "uint8") {
        Some(HyperType::U8)
    } else if chars_is(n, "u16") || chars_is(n, "uint16") {
        Some(HyperType::U16)
    } else if chars_is(n, "u32") || chars_is(n, "uint32") {
        Some(HyperType::U32)
    } else if chars_is(n, "u64") || chars_is(n, "uint64") {
        Some(HyperType::U64)
    } else if chars_is(n, "f32") || chars_is(n, "float32") {
        Some(HyperType::F32)
    } else if chars_is(n, "f64") || chars_is(n, "float64") {
        Some(HyperType::F64)
    } else if chars_is(n, "any") || chars_is(n, "Any") {
        Some(HyperType::Any)
    } else if chars_is(n, "list") || chars_is(n, "List") {
        let t = HyperType::List(Box::new(HyperType::Any));
        assert(ty_of(HyperType::Any) == Ty::Any);
        assert(t@ == Ty::List(Box::new(Ty::Any)));
        Some(t)
    } else if chars_is(n, "dict") || chars_is(n, "Dict") {
        Some(HyperType::Dict)
    } else if chars_is(n, "mmap") || chars_is(n, "Mmap") {
        Some(HyperType::Mmap)
    } else if chars_is(n, "file") || chars_is(n, "File") {
        Some(HyperType::File)
    } else {
        Option::None
    }
}

pub open spec fn names_of(v: Seq<String>) -> Seq<Seq<char>> {
    v.map_values(|s: String| s@)
}

/// Whether `name` is `prefix` followed by something and a closing `]`.
pub open spec fn bracketed(name: Seq<char>, prefix: Seq<char>) -> bool {
    name.len() >= prefix.len() + 1 && name.subrange(0, prefix.len() as int) == prefix && name.last() == ']'
}

/// The type a written type name stands for: `Array[T]` and `Dict[K, V]`
/// forms, builtin names and their aliases, declared structs, then declared
/// traits; any other name is taken as `Any`.
pub open spec fn resolve_name(name: Seq<char>, structs: Seq<Seq<char>>, traits: Seq<Seq<char>>) -> Ty
    decreases name.len(),
{
    if bracketed(name, "Array["@) && "Array["@.len() == 6 {
        let inner = trim(name.subrange(6, name.len() - 1));
        if inner.len() < name.len() {
            Ty::Array(Box::new(resolve_name(inner, structs, traits)))
        } else {
            Ty::Any
        }
    } else if bracketed(name, "Dict["@) {
        Ty::Dict
    } else if builtin_type(name) is Some {
        builtin_type(name)->0
    } else if structs.contains(name) {
        Ty::Struct(name)
    } else if traits.contains(name) {
        Ty::Trait(name)
    } else {
        Ty::Any
    }
}

fn starts_with_lit(s: &[char], lit: &str) -> (r: bool)
    ensures
        r == (s@.len() >= lit@.len() && s@.subrange(0, lit@.len() as int) == lit@),
{
    let p = chars_of(lit);
    if s.len() < p.len() {
        return false;
    }
    let mut i: usize = 0;
    while i < p.len()
        invariant
            p@ == lit@,
            p@.len() <= s@.len(),
            i <= p@.len(),
            forall|k: int| 0 <= k < i ==> s@[k] == p@[k],
        decreases p@.len() - i,
    {
        if s[i] != p[i] {
            assert(s@.subrange(0, p@.len() as int)[i as int] != p@[i as int]);
            return false;
        }
        i = i + 1;
    }
    assert(s@.subrange(0, p@.len() as int) =~= p@);
    true
}

fn contains_name(v: &Vec<String>, name: &[char]) -> (r: bool)
    ensures
        r == names_of(v@).contains(name@),
{
    let mut i: usize = 0;
    while i < v.len()
        invariant
            i <= v@.len(),
            forall|k: int| 0 <= k < i ==> v@[k]@ != name@,
        decreases v@.len() - i,
    {
        let c = string_chars(&v[i]);
        if chars_eq(c.as_slice(), name) {
            assert(names_of(v@)[i as int] == name@);
            return true;
        }
        i = i + 1;
    }
    proof {
        if names_of(v@).contains(name@) {
            let k = choose|k: int| 0 <= k < names_of(v@).len() && names_of(v@)[k] == name@;
            assert(v@[k]@ == name@);
        }
    }
    false
}

fn copy_chars(s: &[char]) -> (r: Vec<char>)
    ensures
        r@ == s@,
{
    let mut out: Vec<char> = Vec::new();
    let mut i: usize = 0;
    while i < s.len()
        invariant
            i <= s@.len(),
            out@ == s@.take(i as int),
        decreases s@.len() - i,
    {
        out.push(s[i]);
        i = i + 1;
        assert(s@.take(i as int) == s@.take(i - 1).push(s@[i - 1]));
    }
    assert(s@.take(s@.len() as int) == s@);
    out
}

/// Resolves a written type name against the declared structs and traits.
pub fn resolve_type_name(name: &[char], structs: &Vec<String>, traits: &Vec<String>) -> (r: HyperType)
    ensures
        r@ == resolve_name(name@, names_of(structs@), names_of(traits@)),
    decreases name@.len(),
{
    proof { reveal_strlit("Array["); reveal_strlit("Dict["); }
    let n = name.len();
    if n >= 7 && starts_with_lit(name, "Array[") && name[n - 1] == ']' {
        let mut mid: Vec<char> = Vec::new();
        let mut k: usize = 6;
        while k < n - 1
            invariant
                n == name@.len(),
                6 <= k <= n - 1,
                mid@ == name@.subrange(6, k as int),
            decreases n - 1 - k,
        {
            mid.push(name[k]);
            k = k + 1;
            assert(name@.subrange(6, k as int) == name@.subrange(6, k - 1).push(name@[k - 1]));
        }
        let inner = trim_chars(mid.as_slice());
        proof { lemma_trim_bounds(mid@); }
        let t = resolve_type_name(inner.as_slice(), structs, traits);
        return HyperType::Array(Box::new(t));
    }
    if n >= 6 && starts_with_lit(name, "Dict[") && name[n - 1] == ']' {
        return HyperType::Dict;
    }
    match builtin_type_exec(name) {
        Some(t) => t,
        Option::None => {
            if contains_name(structs, name) {
                HyperType::Struct(string_from_chars(copy_chars(name)))
            } else if contains_name(traits, name) {
                HyperType::Trait(string_from_chars(copy_chars(name)))
            } else {
                HyperType::Any
            }
        },
    }
}

// ---------------------------------------------------------------------------
// Literals

pub open spec fn lit_text_is_float(n: Seq<char>) -> bool {
    n.contains('.') || n.contains('e') || n.contains('E')
}

/// The type a literal is given.  Number literals with a point or an exponent
/// are `f64`; others are `i32` when they fit, else `i64` when they fit, else
/// `f64`.
pub open spec fn infer_literal_spec(lit: Literal) -> Ty {
    match lit {
        Literal::NoneValue => Ty::NoneType,
        Literal::Bool(_) => Ty::Bool,
        Literal::String(_) => Ty::Str,
        Literal::Number(n) => if lit_text_is_float(n@) {
            Ty::F64
        } else if parse_i32_spec(n@) is Some {
            Ty::I32
        } else if parse_i64_spec(n@) is Some {
            Ty::I64
        } else {
            Ty::F64
        },
    }
}

fn contains_char(s: &[char], c: char) -> (r: bool)
    ensures
        r == s@.contains(c),
{
    let mut i: usize = 0;
    while i < s.len()
        invariant
            i <= s@.len(),
            forall|k: int| 0 <= k < i ==> s@[k] != c,
        decreases s@.len() - i,
    {
        if s[i] == c {
            return true;
        }
        i = i + 1;
    }
    false
}

pub fn infer_literal(lit: &Literal) -> (r: HyperType)
    ensures
        r@ == infer_literal_spec(*lit),
{
    match lit {
        Literal::NoneValue => HyperType::NoneType,
        Literal::Bool(_) => HyperType::Bool,
        Literal::String(_) => HyperType::String,
        Literal::Number(n) => {
            let cs = string_chars(n);
            if contains_char(cs.as_slice(), '.') || contains_char(cs.as_slice(), 'e')
                || contains_char(cs.as_slice(), 'E') {
                HyperType::F64
            } else if parse_i32(cs.as_slice()).is_some() {
                HyperType::I32
            } else if parse_i64(cs.as_slice()).is_some() {
                HyperType::I64
            } else {
                HyperType::F64
            }
        },
    }
}

/// Whether `value` lies in the range of the integer type `t`.
pub open spec fn int_fits_spec(value: int, t: Ty) -> bool {
    match t {
        Ty::I8 => i8::MIN <= value <= i8::MAX,
        Ty::I16 => i16::MIN <= value <= i16::MAX,
        Ty::I32 => i32::MIN <= value <= i32::MAX,
        Ty::I64 => true,
        Ty::U8 => 0 <= value <= u8::MAX,
        Ty::U16 => 0 <= value <= u16::MAX,
        Ty::U32 => 0 <= value <= u32::MAX,
        Ty::U64 => value >= 0,
        _ => false,
    }
}

pub open spec fn uint_fits_spec(value: int, t: Ty) -> bool {
    match t {
        Ty::U8 => value <= u8::MAX,
        Ty::U16 => value <= u16::MAX,
        Ty::U32 => value <= u32::MAX,
        Ty::U64 => true,
        _ => false,
    }
}

pub fn int_fits(value: i64, t: &HyperType) -> (r: bool)
    ensures
        r == int_fits_spec(value as int, t@),
{
    match t {
        HyperType::I8 => -128 <= value && value <= 127,
        HyperType::I16 => -32768 <= value && value <= 32767,
        HyperType::I32 => -2147483648 <= value && value <= 2147483647,
        HyperType::I64 => true,
        HyperType::U8 => 0 <= value && value <= 255,
        HyperType::U16 => 0 <= value && value <= 65535,
        HyperType::U32 => 0 <= value && value <= 4294967295,
        HyperType::U64 => value >= 0,
        _ => false,
    }
}

pub fn uint_fits(value: u64, t: &HyperType) -> (r: bool)
    ensures
        r == uint_fits_spec(value as int, t@),
{
    match t {
        HyperType::U8 => value <= 255,
        HyperType::U16 => value <= 65535,
        HyperType::U32 => value <= 4294967295,
        HyperType::U64 => true,
        _ => false,
    }
}

/// An integer literal's value: underscores are ignored.
pub fn parse_int_literal(text: &[char]) -> (r: Option<i64>)
    ensures
        r matches Some(v) ==> parse_i64_spec(drop_underscores(text@)) == Some(v as int),
        r is None ==> parse_i64_spec(drop_underscores(text@)) is None,
{
    let t = remove_underscores(text);
    parse_i64(t.as_slice())
}

pub fn parse_uint_literal(text: &[char]) -> (r: Option<u64>)
    ensures
        r matches Some(v) ==> parse_u64_spec(drop_underscores(text@)) == Some(v as int),
        r is None ==> parse_u64_spec(drop_underscores(text@)) is None,
{
    let t = remove_underscores(text);
    parse_u64(t.as_slice())
}

pub open spec fn is_unsigned(t: Ty) -> bool {
    (t matches Ty::U8) || (t matches Ty::U16) || (t matches Ty::U32) || (t matches Ty::U64)
}

/// Whether a literal initializer fits an annotated type it is not already
/// compatible with: `None` fits `None`; a number fits a float type when it
/// reads as a float, and a numeric type when its value is in range; a
/// negated integer literal fits when its negation is in range.
pub open spec fn expr_fits_type_spec(e: Expr, dest: Ty) -> bool {
    match e {
        Expr::Literal(Literal::NoneValue) => dest matches Ty::NoneType,
        Expr::Literal(Literal::Number(n)) => {
            if (dest matches Ty::F32) {
                is_float_text(n@)
            } else if (dest matches Ty::F64) {
                is_float_text(n@)
            } else if is_numeric(dest) {
                if is_unsigned(dest) {
                    match parse_u64_spec(drop_underscores(n@)) {
                        Some(v) => uint_fits_spec(v, dest),
                        None => false,
                    }
                } else {
                    match parse_i64_spec(drop_underscores(n@)) {
                        Some(v) => int_fits_spec(v, dest),
                        None => false,
                    }
                }
            } else {
                false
            }
        },
        Expr::Unary { op: UnaryOp::Neg, right } => {
            is_numeric(dest) && match *right {
                Expr::Literal(Literal::Number(n)) => match parse_i64_spec(drop_underscores(n@)) {
                    Some(v) => v != i64::MIN && int_fits_spec(-v, dest),
                    None => false,
                },
                _ => false,
            }
        },
        _ => false,
    }
}

pub fn expr_fits_type(e: &Expr, dest: &HyperType) -> (r: bool)
    ensures
        r == expr_fits_type_spec(*e, dest@),
{
    match e {
        Expr::Literal(Literal::NoneValue) => match dest {
            HyperType::NoneType => true,
            _ => false,
        },
        Expr::Literal(Literal::Number(n)) => {
            let cs = string_chars(n);
            match dest {
                HyperType::F32 | HyperType::F64 => is_float_literal(cs.as_slice()),
                _ => {
                    if !is_numeric_exec(dest) {
                        return false;
                    }
                    match dest {
                        HyperType::U8 | HyperType::U16 | HyperType::U32 | HyperType::U64 => {
                            match parse_uint_literal(cs.as_slice()) {
                                Some(v) => uint_fits(v, dest),
                                Option::None => false,
                            }
                        },
                        _ => match parse_int_literal(cs.as_slice()) {
                            Some(v) => int_fits(v, dest),
                            Option::None => false,
                        },
                    }
                },
            }
        },
        Expr::Unary { op: UnaryOp::Neg, right } => {
            if !is_numeric_exec(dest) {
                return false;
            }
            match &**right {
                Expr::Literal(Literal::Number(n)) => {
                    let cs = string_chars(n);
                    match parse_int_literal(cs.as_slice()) {
                        Some(v) => {
                            if v == i64::MIN {
                                false
                            } else {
                                int_fits(-v, dest)
                            }
                        },
                        Option::None => false,
                    }
                },
                _ => false,
            }
        },
        _ => false,
    }
}


// ---------------------------------------------------------------------------
// Rendering types in messages

pub open spec fn escape_debug_char(c: char) -> Seq<char> {
    if c == '"' {
        seq!['\\', '"']
    } else if c == '\\' {
        seq!['\\', '\\']
    } else if c == '\n' {
        seq!['\\', 'n']
    } else if c == '\r' {
        seq!['\\', 'r']
    } else if c == '\t' {
        seq!['\\', 't']
    } else if c == '\0' {
        seq!['\\', '0']
    } else {
        seq![c]
    }
}

pub open spec fn escape_debug(s: Seq<char>) -> Seq<char>
    decreases s.len(),
{
    if s.len() == 0 {
        seq![]
    } else {
        escape_debug(s.drop_last()) + escape_debug_char(s.last())
    }
}

/// How a type is shown in a message: its variant name, with its contents in
/// parentheses (names quoted) or, for functions, as a record.
pub open spec fn ty_debug(t: Ty) -> Seq<char>
    decreases t,
{
    match t {
        Ty::NoneType => "None"@,
        Ty::Bool => "Bool"@,
        Ty::Str => "String"@,
        Ty::I8 => "I8"@,
        Ty::I16 => "I16"@,
        Ty::I32 => "I32"@,
        Ty::I64 => "I64"@,
        Ty::U8 => "U8"@,
        Ty::U16 => "U16"@,
        Ty::U32 => "U32"@,
        Ty::U64 => "U64"@,
        Ty::F32 => "F32"@,
        Ty::F64 => "F64"@,
        Ty::List(i) => "List("@ + ty_debug(*i) + ")"@,
        Ty::Dict => "Dict"@,
        Ty::Array(i) => "Array("@ + ty_debug(*i) + ")"@,
        Ty::Function(ps, r) => "Function { params: ["@ + tys_debug(ps) + "], ret: "@ + ty_debug(*r) + " }"@,
        Ty::Struct(n) => "Struct(\""@ + escape_debug(n) + "\")"@,
        Ty::Trait(n) => "Trait(\""@ + escape_debug(n) + "\")"@,
        Ty::Mmap => "Mmap"@,
        Ty::File => "File"@,
        Ty::Any => "Any"@,
    }
}

pub open spec fn tys_debug(ps: Seq<Ty>) -> Seq<char>
    decreases ps,
{
    if ps.len() == 0 {
        seq![]
    } else if ps.len() == 1 {
        ty_debug(ps[0])
    } else {
        tys_debug(ps.drop_last()) + ", "@ + ty_debug(ps.last())
    }
}

fn push_escaped(out: &mut Vec<char>, s: &String)
    ensures
        final(out)@ == old(out)@ + escape_debug(s@),
{
    let cs = string_chars(s);
    let mut i: usize = 0;
    let ghost before = out@;
    while i < cs.len()
        invariant
            i <= cs@.len(),
            cs@ == s@,
            out@ == before + escape_debug(cs@.take(i as int)),
        decreases cs@.len() - i,
    {
        let c = cs[i];
        let ghost mid = out@;
        if c == '"' {
            out.push('\\');
            out.push('"');
        } else if c == '\\' {
            out.push('\\');
            out.push('\\');
        } else if c == '\n' {
            out.push('\\');
            out.push('n');
        } else if c == '\r' {
            out.push('\\');
            out.push('r');
        } else if c == '\t' {
            out.push('\\');
            out.push('t');
        } else if c == '\0' {
            out.push('\\');
            out.push('0');
        } else {
            out.push(c);
        }
        assert(out@ == mid + escape_debug_char(c));
        assert(cs@.take(i + 1).drop_last() == cs@.take(i as int));
        i = i + 1;
    }
    assert(cs@.take(cs@.len() as int) == cs@);
}

/// Appends how `t` is shown in a message.
#[verifier::loop_isolation(false)]
pub fn push_ty_debug(out: &mut Vec<char>, t: &HyperType)
    ensures
        final(out)@ == old(out)@ + ty_debug(t@),
    decreases t,
{
    match t {
        HyperType::NoneType => append_str(out, "None"),
        HyperType::Bool => append_str(out, "Bool"),
        HyperType::String => append_str(out, "String"),
        HyperType::I8 => append_str(out, "I8"),
        HyperType::I16 => append_str(out, "I16"),
        HyperType::I32 => append_str(out, "I32"),
        HyperType::I64 => append_str(out, "I64"),
        HyperType::U8 => append_str(out, "U8"),
        HyperType::U16 => append_str(out, "U16"),
        HyperType::U32 => append_str(out, "U32"),
        HyperType::U64 => append_str(out, "U64"),
        HyperType::F32 => append_str(out, "F32"),
        HyperType::F64 => append_str(out, "F64"),
        HyperType::List(i) => {
            append_str(out, "List(");
            push_ty_debug(out, i);
            append_str(out, ")");
        },
        HyperType::Dict => append_str(out, "Dict"),
        HyperType::Array(i) => {
            append_str(out, "Array(");
            push_ty_debug(out, i);
            append_str(out, ")");
        },
        HyperType::Function { params, ret } => {
            append_str(out, "Function { params: [");
            let ghost start = out@;
            let mut k: usize = 0;
            while k < params.len()
                invariant
                    k <= params@.len(),
                    out@ == start + tys_debug(tys_of(params@.take(k as int))),
                decreases params@.len() - k,
            {
                assert(decreases_to!(t => params@[k as int]));
                let ghost mid = out@;
                if k > 0 {
                    append_str(out, ", ");
                }
                push_ty_debug(out, &params[k]);
                proof {
                    let pre = params@.take(k as int);
                    let post = params@.take(k + 1);
                    assert(post.drop_last() == pre);
                    assert(post.last() == params@[k as int]);
                    assert(tys_of(post) == tys_of(pre).push(ty_of(params@[k as int])));
                    lemma_tys_of_len_here(pre);
                    if k == 0 {
                        assert(tys_of(pre) =~= Seq::<Ty>::empty());
                        assert(tys_of(post).len() == 1);
                        assert(tys_of(post)[0] == ty_of(params@[0]));
                    } else {
                        assert(tys_of(post).drop_last() == tys_of(pre));
                    }
                }
                k = k + 1;
            }
            assert(params@.take(params@.len() as int) == params@);
            append_str(out, "], ret: ");
            push_ty_debug(out, ret);
            append_str(out, " }");
        },
        HyperType::Struct(n) => {
            append_str(out, "Struct(\"");
            push_escaped(out, n);
            append_str(out, "\")");
        },
        HyperType::Trait(n) => {
            append_str(out, "Trait(\"");
            push_escaped(out, n);
            append_str(out, "\")");
        },
        HyperType::Mmap => append_str(out, "Mmap"),
        HyperType::File => append_str(out, "File"),
        HyperType::Any => append_str(out, "Any"),
    }
}

proof fn lemma_tys_of_len_here(ts: Seq<HyperType>)
    ensures
        tys_of(ts).len() == ts.len(),
    decreases ts.len(),
{
    if ts.len() > 0 {
        lemma_tys_of_len_here(ts.drop_last());
    }
}


// ---------------------------------------------------------------------------
// Scopes

struct Binding {
    ty: HyperType,
    mutable: bool,
}

struct Scope {
    bindings: Vec<(String, Binding)>,
    /// Names declared without a type annotation, whose numeric type may widen.
    inferred: Vec<String>,
}

spec fn bindings_lookup(bs: Seq<(String, Binding)>, name: Seq<char>) -> Option<(Ty, bool)>
    decreases bs.len(),
{
    if bs.len() == 0 {
        None
    } else if bs.last().0@ == name {
        Some((bs.last().1.ty@, bs.last().1.mutable))
    } else {
        bindings_lookup(bs.drop_last(), name)
    }
}

spec fn scopes_lookup(ss: Seq<Scope>, name: Seq<char>) -> Option<(Ty, bool)>
    decreases ss.len(),
{
    if ss.len() == 0 {
        None
    } else {
        match bindings_lookup(ss.last().bindings@, name) {
            Some(b) => Some(b),
            None => scopes_lookup(ss.drop_last(), name),
        }
    }
}

/// The findings of a check, in order.
pub struct TypeChecker {
    scopes: Vec<Scope>,
    errors: Vec<String>,
    expected_return: Option<HyperType>,
    structs: Vec<String>,
    traits: Vec<String>,
}

fn new_scope() -> (s: Scope)
    ensures
        s.bindings@.len() == 0,
        s.inferred@.len() == 0,
{
    Scope { bindings: Vec::new(), inferred: Vec::new() }
}

fn name_eq(a: &String, b: &String) -> (r: bool)
    ensures
        r == (a@ == b@),
{
    a.eq(b)
}

spec fn binding_view(b: (String, Binding)) -> (Seq<char>, Ty, bool) {
    (b.0@, b.1.ty@, b.1.mutable)
}

spec fn scope_view(s: Scope) -> ScopeView {
    ScopeView { bindings: s.bindings@.map_values(|b: (String, Binding)| binding_view(b)), inferred: names_of(s.inferred@) }
}

spec fn scope_views(ss: Seq<Scope>) -> Seq<ScopeView> {
    ss.map_values(|s: Scope| scope_view(s))
}

proof fn lemma_bindings_lookup(bs: Seq<(String, Binding)>, name: Seq<char>)
    ensures
        bindings_lookup(bs, name) == lookup_in(bs.map_values(|b: (String, Binding)| binding_view(b)), name),
    decreases bs.len(),
{
    let v = bs.map_values(|b: (String, Binding)| binding_view(b));
    if bs.len() > 0 {
        assert(v.drop_last() =~= bs.drop_last().map_values(|b: (String, Binding)| binding_view(b)));
        lemma_bindings_lookup(bs.drop_last(), name);
    }
}

proof fn lemma_scopes_lookup(ss: Seq<Scope>, name: Seq<char>)
    ensures
        scopes_lookup(ss, name) == lookup_scopes(scope_views(ss), name),
    decreases ss.len(),
{
    if ss.len() > 0 {
        assert(scope_views(ss).drop_last() =~= scope_views(ss.drop_last()));
        lemma_bindings_lookup(ss.last().bindings@, name);
        lemma_scopes_lookup(ss.drop_last(), name);
    }
}

proof fn lemma_last_binding_name(bs: Seq<(Seq<char>, Ty, bool)>, name: Seq<char>)
    ensures
        last_binding(bs, name) matches Some(h) ==> 0 <= h < bs.len() && bs[h].0 == name,
    decreases bs.len(),
{
    if bs.len() > 0 && bs.last().0 != name {
        lemma_last_binding_name(bs.drop_last(), name);
    }
}

/// The type of a builtin function: one parameter of any type, or none.
fn builtin_fn(one_param: bool, ret: HyperType) -> (t: HyperType)
    ensures
        t@ == Ty::Function(if one_param { seq![Ty::Any] } else { seq![] }, Box::new(ret@)),
{
    let mut ps: Vec<HyperType> = Vec::new();
    if one_param {
        ps.push(HyperType::Any);
    }
    proof {
        if one_param {
            let e = ps@.drop_last();
            assert(e.len() == 0);
            assert(tys_of(e) =~= Seq::<Ty>::empty());
            assert(ps@.last() == HyperType::Any);
            assert(ty_of(ps@.last()) == Ty::Any);
            assert(tys_of(ps@) == tys_of(e).push(ty_of(ps@.last())));
            assert(tys_of(ps@) =~= seq![Ty::Any]);
        } else {
            assert(tys_of(ps@) =~= Seq::<Ty>::empty());
        }
    }
    HyperType::Function { params: ps, ret: Box::new(ret) }
}

impl TypeChecker {
    spec fn wf(&self) -> bool {
        self.scopes@.len() >= 1
    }

    spec fn model(&self) -> CheckView {
        CheckView {
            scopes: scope_views(self.scopes@),
            errors: names_of(self.errors@),
            expected_return: match self.expected_return {
                Some(t) => Some(t@),
                Option::None => Option::None,
            },
            structs: names_of(self.structs@),
            traits: names_of(self.traits@),
        }
    }

    spec fn lookup_spec(&self, name: Seq<char>) -> Option<(Ty, bool)> {
        scopes_lookup(self.scopes@, name)
    }

    /// Scope depth kept, findings only added.
    spec fn grew(&self, before: &TypeChecker) -> bool {
        &&& self.scopes@.len() == before.scopes@.len()
        &&& self.scopes@.len() >= 1
        &&& before.errors@.len() <= self.errors@.len()
    }

    /// The checker a program starts with: one scope holding the builtins
    /// `print`, `input`, `clock` and `open`.
    fn new() -> (tc: TypeChecker)
        ensures
            tc.wf(),
            tc.errors@.len() == 0,
            tc.lookup_spec("print"@) is Some,
            tc.lookup_spec("open"@) is Some,
            tc.model() == check_start(),
    {
        let mut tc = TypeChecker {
            scopes: Vec::new(),
            errors: Vec::new(),
            expected_return: Option::None,
            structs: Vec::new(),
            traits: Vec::new(),
        };
        proof {
            assert(tc.model().scopes =~= Seq::<ScopeView>::empty());
        }
        tc.push_scope();
        let f1 = builtin_fn(true, HyperType::NoneType);
        tc.define(&crate::text::to_string("print"), Binding { ty: f1, mutable: false });
        let f2 = builtin_fn(true, HyperType::String);
        tc.define(&crate::text::to_string("input"), Binding { ty: f2, mutable: false });
        let f3 = builtin_fn(false, HyperType::F64);
        tc.define(&crate::text::to_string("clock"), Binding { ty: f3, mutable: false });
        let f4 = builtin_fn(true, HyperType::File);
        let ghost before_open = tc.scopes@;
        tc.define(&crate::text::to_string("open"), Binding { ty: f4, mutable: false });
        proof {
            reveal_strlit("print");
            reveal_strlit("open");
            reveal_strlit("input");
            reveal_strlit("clock");
            assert(tc.model().scopes[0].bindings =~= builtin_scope().bindings);
            assert(tc.model().scopes[0].inferred =~= builtin_scope().inferred);
            assert(tc.model().scopes =~= check_start().scopes);
            assert(tc.model().errors =~= check_start().errors);
            assert(tc.model().structs =~= check_start().structs);
            assert(tc.model().traits =~= check_start().traits);
        }
        tc
    }

    fn push_scope(&mut self)
        ensures
            final(self).scopes@.len() == old(self).scopes@.len() + 1,
            final(self).errors@ == old(self).errors@,
            final(self).structs@ == old(self).structs@,
            final(self).traits@ == old(self).traits@,
            forall|n: Seq<char>| #[trigger] final(self).lookup_spec(n) == old(self).lookup_spec(n),
            final(self).model() == c_push_scope(old(self).model()),
            final(self).expected_return == old(self).expected_return,
    {
        let ghost before = self.scopes@;
        let sc = new_scope();
        proof {
            assert(scope_view(sc).bindings =~= Seq::<(Seq<char>, Ty, bool)>::empty());
            assert(scope_view(sc).inferred =~= Seq::<Seq<char>>::empty());
        }
        self.scopes.push(sc);
        proof {
            assert(scope_views(self.scopes@) =~= scope_views(before).push(ScopeView { bindings: seq![], inferred: seq![] }));
        }
        proof {
            assert forall|n: Seq<char>| #[trigger] scopes_lookup(self.scopes@, n) == scopes_lookup(before, n) by {
                assert(self.scopes@.drop_last() == before);
            }
        }
    }

    fn pop_scope(&mut self)
        requires
            old(self).scopes@.len() >= 2,
        ensures
            final(self).scopes@.len() == old(self).scopes@.len() - 1,
            final(self).errors@ == old(self).errors@,
            final(self).structs@ == old(self).structs@,
            final(self).traits@ == old(self).traits@,
            final(self).model() == c_pop_scope(old(self).model()),
            final(self).expected_return == old(self).expected_return,
    {
        let ghost before = self.scopes@;
        self.scopes.pop();
        proof {
            assert(scope_views(self.scopes@) =~= scope_views(before).drop_last());
        }
    }

    /// Binds `name` in the innermost scope.
    fn define(&mut self, name: &String, binding: Binding)
        requires
            old(self).scopes@.len() >= 1,
        ensures
            final(self).scopes@.len() == old(self).scopes@.len(),
            final(self).lookup_spec(name@) == Some((binding.ty@, binding.mutable)),
            forall|n: Seq<char>| n != name@ ==> #[trigger] final(self).lookup_spec(n) == old(self).lookup_spec(n),
            final(self).errors@ == old(self).errors@,
            final(self).structs@ == old(self).structs@,
            final(self).traits@ == old(self).traits@,
            final(self).model() == c_define(old(self).model(), name@, binding.ty@, binding.mutable),
            final(self).expected_return == old(self).expected_return,
    {
        let ghost before = self.scopes@;
        let ghost bv = (binding.ty@, binding.mutable);
        let mut sc = self.scopes.pop().unwrap();
        let ghost old_b = sc.bindings@;
        sc.bindings.push((copy_string(name), binding));
        let ghost new_b = sc.bindings@;
        self.scopes.push(sc);
        proof {
            let n = before.len() - 1;
            let m0 = scope_views(before);
            assert(scope_view(sc).bindings =~= m0[n].bindings.push((name@, bv.0, bv.1)));
            assert(scope_views(self.scopes@) =~= m0.update(n, ScopeView { bindings: m0[n].bindings.push((name@, bv.0, bv.1)), ..m0[n] }));
            assert(self.scopes@.drop_last() == before.drop_last());
            assert(new_b.drop_last() == old_b);
            assert(bindings_lookup(new_b, name@) == Some(bv));
            assert forall|n: Seq<char>| n != name@ implies #[trigger] scopes_lookup(self.scopes@, n) == scopes_lookup(before, n) by {
                assert(bindings_lookup(new_b, n) == bindings_lookup(old_b, n));
            }
        }
    }

    /// Looks `name` up from the innermost scope outwards.
    #[verifier::loop_isolation(false)]
    fn lookup(&self, name: &String) -> (r: Option<(HyperType, bool)>)
        ensures
            r matches Some((t, m)) ==> self.lookup_spec(name@) == Some((t@, m)),
            r is None ==> self.lookup_spec(name@) is None,
            r matches Some((t, m)) ==> c_lookup(self.model(), name@) == Some((t@, m)),
            r is None ==> c_lookup(self.model(), name@) is None,
    {
        proof { lemma_scopes_lookup(self.scopes@, name@); }
        let mut si = self.scopes.len();
        assert(self.scopes@.take(si as int) == self.scopes@);
        while si > 0
            invariant
                si <= self.scopes@.len(),
                scopes_lookup(self.scopes@, name@) == scopes_lookup(self.scopes@.take(si as int), name@),
            decreases si,
        {
            let scope = &self.scopes[si - 1];
            let mut bi = scope.bindings.len();
            assert(scope.bindings@.take(bi as int) == scope.bindings@);
            while bi > 0
                invariant
                    bi <= scope.bindings@.len(),
                    bindings_lookup(scope.bindings@, name@) == bindings_lookup(scope.bindings@.take(bi as int), name@),
                decreases bi,
            {
                let entry = &scope.bindings[bi - 1];
                if name_eq(&entry.0, name) {
                    proof {
                        let t = scope.bindings@.take(bi as int);
                        assert(t.last() == scope.bindings@[bi - 1]);
                        let ss = self.scopes@.take(si as int);
                        assert(ss.len() == si);
                        assert(ss.last() == self.scopes@[si - 1]);
                    }
                    return Some((entry.1.ty.copy(), entry.1.mutable));
                }
                proof {
                    assert(scope.bindings@.take(bi as int).drop_last() == scope.bindings@.take(bi - 1));
                }
                bi = bi - 1;
            }
            proof {
                let ss = self.scopes@.take(si as int);
                assert(ss.last() == self.scopes@[si - 1]);
                assert(ss.drop_last() == self.scopes@.take(si - 1));
                assert(scope.bindings@.take(0) =~= Seq::<(String, Binding)>::empty());
            }
            si = si - 1;
        }
        assert(self.scopes@.take(0) =~= Seq::<Scope>::empty());
        Option::None
    }

    fn is_bound(&self, name: &String) -> (r: bool)
        ensures
            r == (self.lookup_spec(name@) is Some),
            r == (c_lookup(self.model(), name@) is Some),
    {
        self.lookup(name).is_some()
    }

    /// Records whether `name`, just declared in the innermost scope, may
    /// still widen (it had no annotation).
    fn mark_inferred(&mut self, name: &String, inferred: bool)
        requires
            old(self).scopes@.len() >= 1,
        ensures
            final(self).scopes@.len() == old(self).scopes@.len(),
            forall|n: Seq<char>| #[trigger] final(self).lookup_spec(n) == old(self).lookup_spec(n),
            final(self).errors@ == old(self).errors@,
            final(self).structs@ == old(self).structs@,
            final(self).traits@ == old(self).traits@,
            final(self).model() == c_mark_inferred(old(self).model(), name@, inferred),
            final(self).expected_return == old(self).expected_return,
    {
        let ghost before = self.scopes@;
        let mut sc = self.scopes.pop().unwrap();
        let ghost b = sc.bindings@;
        let ghost inf0 = names_of(sc.inferred@);
        if inferred {
            if !contains_name(&sc.inferred, string_chars(name).as_slice()) {
                sc.inferred.push(copy_string(name));
            }
        } else {
            let mut kept: Vec<String> = Vec::new();
            let mut i: usize = 0;
            while i < sc.inferred.len()
                invariant
                    i <= sc.inferred@.len(),
                    inf0 == names_of(sc.inferred@),
                    names_of(kept@) == without_name(inf0.take(i as int), name@),
                decreases sc.inferred@.len() - i,
            {
                let ghost k0 = kept@;
                if !name_eq(&sc.inferred[i], name) {
                    kept.push(copy_string(&sc.inferred[i]));
                }
                proof {
                    assert(inf0.take(i + 1).drop_last() =~= inf0.take(i as int));
                    assert(inf0.take(i + 1).last() == sc.inferred@[i as int]@);
                    assert(names_of(kept@) =~= without_name(inf0.take(i + 1), name@));
                }
                i = i + 1;
            }
            proof {
                assert(inf0.take(inf0.len() as int) =~= inf0);
            }
            sc.inferred = kept;
        }
        assert(sc.bindings@ == b);
        let ghost scv = scope_view(sc);
        self.scopes.push(sc);
        proof {
            let n = before.len() - 1;
            let m0 = scope_views(before);
            assert(m0[n] == scope_view(before[n]));
            if inferred {
                assert(scv.inferred =~= (if inf0.contains(name@) { inf0 } else { inf0.push(name@) }));
            }
            assert(scv.bindings =~= m0[n].bindings);
            assert(scope_views(self.scopes@) =~= m0.update(n, ScopeView { inferred: scv.inferred, ..m0[n] }));
        }
        proof {
            assert(self.scopes@.drop_last() == before.drop_last());
            assert forall|n: Seq<char>| #[trigger] scopes_lookup(self.scopes@, n) == scopes_lookup(before, n) by {
            }
        }
    }

    /// Lets an inferred numeric variable adopt a wider type instead of
    /// failing: the innermost binding of `name` takes `ty` when that name was
    /// declared without an annotation.
    fn widen_inferred(&mut self, name: &String, ty: &HyperType) -> (r: bool)
        requires
            old(self).scopes@.len() >= 1,
        ensures
            final(self).scopes@.len() == old(self).scopes@.len(),
            final(self).errors@ == old(self).errors@,
            final(self).structs@ == old(self).structs@,
            final(self).traits@ == old(self).traits@,
            final(self).expected_return == old(self).expected_return,
            (final(self).model(), r) == c_widen(old(self).model(), name@, ty@),
    {
        let ghost views = scope_views(self.scopes@);
        let mut si = self.scopes.len();
        proof {
            assert(views.take(si as int) =~= views);
        }
        while si > 0
            invariant
                si <= self.scopes@.len(),
                *self == *old(self),
                views == scope_views(self.scopes@),
                binding_scope(views, name@) == binding_scope(views.take(si as int), name@),
            decreases si,
        {
            let ghost bviews = views[si - 1].bindings;
            let mut bi = self.scopes[si - 1].bindings.len();
            let mut hit: Option<usize> = Option::None;
            proof {
                assert(bviews.len() == self.scopes@[si - 1].bindings@.len());
                assert(bviews.take(bi as int) =~= bviews);
            }
            while bi > 0
                invariant_except_break
                    hit is None,
                    last_binding(bviews, name@) == last_binding(bviews.take(bi as int), name@),
                invariant
                    bi <= self.scopes@[si - 1].bindings@.len(),
                    si <= self.scopes@.len(),
                    si > 0,
                    *self == *old(self),
                    views == scope_views(self.scopes@),
                    bviews == views[si - 1].bindings,
                    bviews.len() == self.scopes@[si - 1].bindings@.len(),
                ensures
                    hit is None ==> last_binding(bviews, name@) is None,
                    hit matches Some(h) ==> h < bviews.len() && last_binding(bviews, name@) == Some(h as int),
                decreases bi,
            {
                let ghost t = bviews.take(bi as int);
                proof {
                    assert(t.last() == bviews[bi - 1]);
                    assert(bviews[bi - 1].0 == self.scopes@[si - 1].bindings@[bi - 1].0@);
                    assert(t.drop_last() =~= bviews.take(bi - 1));
                }
                if name_eq(&self.scopes[si - 1].bindings[bi - 1].0, name) {
                    proof {
                        assert(t.last().0 == name@);
                        assert(last_binding(t, name@) == Some(bi - 1));
                    }
                    hit = Some(bi - 1);
                    break;
                }
                bi = bi - 1;
            }
            proof {
                let vt = views.take(si as int);
                assert(vt.last() == views[si - 1]);
                assert(vt.drop_last() =~= views.take(si - 1));
            }
            if let Some(h) = hit {
                let nm = string_chars(name);
                proof {
                    assert(binding_scope(views, name@) == Some(si - 1));
                }
                if !contains_name(&self.scopes[si - 1].inferred, nm.as_slice()) {
                    return false;
                }
                let ghost sv = views[si - 1];
                let ghost old_scopes = self.scopes@;
                let mut sc = self.scopes.remove(si - 1);
                let ghost old_b = sc.bindings@;
                let (bname, b) = sc.bindings.remove(h);
                proof {
                    assert(bname@ == old_b[h as int].0@);
                    assert(sv.bindings[h as int].0 == name@) by {
                        lemma_last_binding_name(sv.bindings, name@);
                    }
                }
                let ghost newb = (bname@, ty@, b.mutable);
                sc.bindings.insert(h, (bname, Binding { ty: ty.copy(), mutable: b.mutable }));
                proof {
                    assert(scope_view(sc).bindings =~= sv.bindings.update(h as int, newb));
                    assert(scope_view(sc).inferred == sv.inferred);
                }
                let ghost new_sv = scope_view(sc);
                self.scopes.insert(si - 1, sc);
                proof {
                    assert(scope_views(self.scopes@) =~= views.update(si - 1, new_sv));
                }
                return true;
            }
            si = si - 1;
        }
        proof {
            assert(views.take(0) =~= Seq::<ScopeView>::empty());
        }
        false
    }

    fn error(&mut self, m: Vec<char>)
        ensures
            final(self).errors@.len() == old(self).errors@.len() + 1,
            final(self).errors@.last()@ == format_typecheck_spec(m@),
            final(self).scopes@ == old(self).scopes@,
            final(self).structs@ == old(self).structs@,
            final(self).traits@ == old(self).traits@,
            final(self).expected_return == old(self).expected_return,
            final(self).model() == c_error(old(self).model(), m@),
    {
        let ghost before = self.errors@;
        let e = format_typecheck(m.as_slice());
        self.errors.push(e);
        proof {
            assert(names_of(self.errors@) =~= names_of(before).push(format_typecheck_spec(m@)));
        }
    }

    fn resolve(&self, name: &String) -> (r: HyperType)
        ensures
            r@ == resolve_name(name@, names_of(self.structs@), names_of(self.traits@)),
    {
        let cs = string_chars(name);
        resolve_type_name(cs.as_slice(), &self.structs, &self.traits)
    }

    fn type_ann_to_hyper(&self, ann: &TypeAnn) -> (r: HyperType)
        ensures
            ann matches TypeAnn::Unannotated ==> r@ == Ty::Any,
            ann matches TypeAnn::Named(n) ==> r@ == resolve_name(n@, names_of(self.structs@), names_of(self.traits@)),
            ann matches TypeAnn::Array { inner } ==> r@ == Ty::Array(Box::new(resolve_name(inner@, names_of(self.structs@), names_of(self.traits@)))),
            ann matches TypeAnn::Dict { .. } ==> r@ == Ty::Dict,
            r@ == ann_ty(self.model(), *ann),
    {
        match ann {
            TypeAnn::Unannotated => HyperType::Any,
            TypeAnn::Named(n) => self.resolve(n),
            TypeAnn::Array { inner } => HyperType::Array(Box::new(self.resolve(inner))),
            TypeAnn::Dict { .. } => HyperType::Dict,
        }
    }

    fn optional_type(&self, t: &Option<String>) -> (r: HyperType)
        ensures
            t matches Some(n) ==> r@ == resolve_name(n@, names_of(self.structs@), names_of(self.traits@)),
            t is None ==> r@ == Ty::Any,
            r@ == opt_ty(self.model(), *t),
    {
        match t {
            Some(n) => self.resolve(n),
            Option::None => HyperType::Any,
        }
    }

    fn param_types(&self, decl: &FunctionDecl) -> (r: Vec<HyperType>)
        ensures
            r@.len() == decl.params@.len(),
            tys_of(r@) == param_tys(self.model(), decl.params@),
    {
        let mut out: Vec<HyperType> = Vec::new();
        let mut i: usize = 0;
        while i < decl.params.len()
            invariant
                i <= decl.params@.len(),
                out@.len() == i,
                forall|k: int| 0 <= k < i ==> ty_of(#[trigger] out@[k]) == opt_ty(self.model(), decl.params@[k].type_ann),
            decreases decl.params@.len() - i,
        {
            let t = self.optional_type(&decl.params[i].type_ann);
            out.push(t);
            i = i + 1;
        }
        proof {
            lemma_tys_len(out@);
            let pt = param_tys(self.model(), decl.params@);
            assert(pt.len() == decl.params@.len());
            assert forall|k: int| 0 <= k < pt.len() implies tys_of(out@)[k] == pt[k] by {
                assert(ty_of(out@[k]) == opt_ty(self.model(), decl.params@[k].type_ann));
            }
            assert(tys_of(out@) =~= pt);
        }
        out
    }

    /// Registers a function's signature so calls can appear before its definition.
    fn declare_function(&mut self, decl: &FunctionDecl)
        requires
            old(self).scopes@.len() >= 1,
        ensures
            final(self).scopes@.len() == old(self).scopes@.len(),
            final(self).errors@ == old(self).errors@,
            final(self).lookup_spec(decl.name@) is Some,
            forall|n: Seq<char>| old(self).lookup_spec(n) is Some ==> (#[trigger] final(self).lookup_spec(n)) is Some,
            final(self).model() == c_define(old(self).model(), decl.name@, fn_ty(old(self).model(), *decl), false),
            final(self).expected_return == old(self).expected_return,
    {
        let params = self.param_types(decl);
        let ret = self.optional_type(&decl.return_type);
        self.define(&decl.name, Binding {
            ty: HyperType::Function { params, ret: Box::new(ret) },
            mutable: false,
        });
    }

    fn hoist_functions(&mut self, stmts: &Vec<Stmt>)
        requires
            old(self).scopes@.len() >= 1,
        ensures
            final(self).scopes@.len() == old(self).scopes@.len(),
            final(self).errors@ == old(self).errors@,
            forall|k: int| 0 <= k < stmts@.len() ==> ((#[trigger] stmts@[k]) matches Stmt::Function(d)
                ==> final(self).lookup_spec(d.name@) is Some),
            final(self).model() == hoist_spec(old(self).model(), stmts@),
            final(self).expected_return == old(self).expected_return,
    {
        let mut i: usize = 0;
        proof {
            assert(stmts@.take(0) =~= Seq::<Stmt>::empty());
        }
        while i < stmts.len()
            invariant
                i <= stmts@.len(),
                self.scopes@.len() == old(self).scopes@.len(),
                self.scopes@.len() >= 1,
                self.errors@ == old(self).errors@,
                self.model() == hoist_spec(old(self).model(), stmts@.take(i as int)),
                self.expected_return == old(self).expected_return,
                forall|k: int| 0 <= k < i ==> ((#[trigger] stmts@[k]) matches Stmt::Function(d)
                    ==> self.lookup_spec(d.name@) is Some),
            decreases stmts@.len() - i,
        {
            proof {
                assert(stmts@.take(i + 1).drop_last() =~= stmts@.take(i as int));
                assert(stmts@.take(i + 1).last() == stmts@[i as int]);
            }
            match &stmts[i] {
                Stmt::Function(decl) => {
                    self.declare_function(decl);
                },
                _ => {},
            }
            i = i + 1;
        }
        proof {
            assert(stmts@.take(stmts@.len() as int) =~= stmts@);
        }
    }
}


// ---------------------------------------------------------------------------
// Operators and calls

/// The type of `left op right` and whether the operands are rejected.
pub open spec fn binary_rule(op: BinOp, l: Ty, r: Ty) -> (Ty, bool) {
    match op {
        BinOp::Add => {
            if (l matches Ty::Str) && (r matches Ty::Str) {
                (Ty::Str, false)
            } else if ((l matches Ty::Str) || (r matches Ty::Str)) && (is_any(l) || is_any(r)) {
                (Ty::Str, false)
            } else if is_numeric(l) && is_numeric(r) {
                (widen_numeric(l, r), false)
            } else if is_any(l) || is_any(r) {
                (Ty::Any, false)
            } else {
                (Ty::Any, true)
            }
        },
        BinOp::Sub | BinOp::Mul | BinOp::Div | BinOp::Rem | BinOp::Pow => {
            if is_numeric(l) && is_numeric(r) { (widen_numeric(l, r), false) } else { (Ty::Any, true) }
        },
        BinOp::Eq | BinOp::Ne => (Ty::Bool, false),
        BinOp::Lt | BinOp::Le | BinOp::Gt | BinOp::Ge => {
            let ok = (is_numeric(l) && is_numeric(r)) || ((l matches Ty::Bool) && (r matches Ty::Bool))
                || ((l matches Ty::Str) && (r matches Ty::Str)) || is_any(l) || is_any(r);
            (Ty::Bool, !ok)
        },
        BinOp::And | BinOp::Or => (Ty::Bool, !is_boolish(l) || !is_boolish(r)),
    }
}

/// How an operator is written.
pub open spec fn binop_text(op: BinOp) -> Seq<char> {
    match op {
        BinOp::Add => "+"@,
        BinOp::Sub => "-"@,
        BinOp::Mul => "*"@,
        BinOp::Div => "/"@,
        BinOp::Rem => "%"@,
        BinOp::Pow => "**"@,
        BinOp::Eq => "=="@,
        BinOp::Ne => "!="@,
        BinOp::Lt => "<"@,
        BinOp::Le => "<="@,
        BinOp::Gt => ">"@,
        BinOp::Ge => ">="@,
        BinOp::And => "and"@,
        BinOp::Or => "or"@,
    }
}

pub fn binop_str(op: BinOp) -> (s: &'static str)
    ensures
        s@ == binop_text(op),
{
    match op {
        BinOp::Add => "+",
        BinOp::Sub => "-",
        BinOp::Mul => "*",
        BinOp::Div => "/",
        BinOp::Rem => "%",
        BinOp::Pow => "**",
        BinOp::Eq => "==",
        BinOp::Ne => "!=",
        BinOp::Lt => "<",
        BinOp::Le => "<=",
        BinOp::Gt => ">",
        BinOp::Ge => ">=",
        BinOp::And => "and",
        BinOp::Or => "or",
    }
}

pub open spec fn all_any(ps: Seq<Ty>) -> bool {
    forall|i: int| 0 <= i < ps.len() ==> is_any(#[trigger] ps[i])
}

/// Number of arguments whose type the matching parameter does not accept.
pub open spec fn mismatches(ps: Seq<Ty>, args: Seq<Ty>) -> nat
    decreases ps.len(),
{
    if ps.len() == 0 || args.len() == 0 {
        0
    } else {
        mismatches(ps.drop_last(), args.take(ps.len() - 1)) + if ps.len() <= args.len()
            && !is_compatible(ps.last(), args[ps.len() - 1]) { 1nat } else { 0nat }
    }
}

/// The type of a call whose callee has type `callee`, and how many findings
/// it adds: a struct name constructs that struct; a function yields its
/// return type after an arity check (one finding) or a check of each
/// argument (one finding per mismatch), both skipped for a function of at
/// most one `Any` parameter; anything else yields `Any`.
pub open spec fn call_rule(callee: Ty, args: Seq<Ty>) -> (Ty, nat) {
    match callee {
        Ty::Struct(_) => (callee, 0),
        Ty::Function(ps, ret) => {
            let skip = all_any(ps) && ps.len() <= 1;
            if !skip && ps.len() != args.len() {
                (*ret, 1)
            } else if !skip {
                (*ret, mismatches(ps, args))
            } else {
                (*ret, 0)
            }
        },
        _ => (Ty::Any, 0),
    }
}

impl TypeChecker {
    fn check_binary(&mut self, op: BinOp, left: &HyperType, right: &HyperType) -> (r: HyperType)
        ensures
            r@ == binary_rule(op, left@, right@).0,
            final(self).errors@.len() == old(self).errors@.len() + if binary_rule(op, left@, right@).1 { 1int } else { 0int },
            final(self).scopes@ == old(self).scopes@,
            final(self).structs@ == old(self).structs@,
            final(self).traits@ == old(self).traits@,
            final(self).expected_return == old(self).expected_return,
            (final(self).model(), r@) == c_binary(old(self).model(), op, left@, right@),
    {
        let l_str = match left { HyperType::String => true, _ => false };
        let r_str = match right { HyperType::String => true, _ => false };
        match op {
            BinOp::Add => {
                if l_str && r_str {
                    return HyperType::String;
                }
                if (l_str || r_str) && (is_any_exec(left) || is_any_exec(right)) {
                    return HyperType::String;
                }
                if is_numeric_exec(left) && is_numeric_exec(right) {
                    return widen_numeric_exec(left, right);
                }
                if is_any_exec(left) || is_any_exec(right) {
                    return HyperType::Any;
                }
                let mut m = chars_of("Type error: '+' requires numeric or string operands, got ");
                push_ty_debug(&mut m, left);
                append_str(&mut m, " and ");
                push_ty_debug(&mut m, right);
                append_str(&mut m, ".");
                assert(m@ =~= binary_message(op, left@, right@));
                self.error(m);
                HyperType::Any
            },
            BinOp::Sub | BinOp::Mul | BinOp::Div | BinOp::Rem | BinOp::Pow => {
                if is_numeric_exec(left) && is_numeric_exec(right) {
                    return widen_numeric_exec(left, right);
                }
                let mut m = chars_of("Type error: arithmetic '");
                append_str(&mut m, binop_str(op));
                append_str(&mut m, "' requires numeric operands, got ");
                push_ty_debug(&mut m, left);
                append_str(&mut m, " and ");
                push_ty_debug(&mut m, right);
                append_str(&mut m, ".");
                assert(m@ =~= binary_message(op, left@, right@));
                self.error(m);
                HyperType::Any
            },
            BinOp::Eq | BinOp::Ne => HyperType::Bool,
            BinOp::Lt | BinOp::Le | BinOp::Gt | BinOp::Ge => {
                let l_bool = match left { HyperType::Bool => true, _ => false };
                let r_bool = match right { HyperType::Bool => true, _ => false };
                let ok = (is_numeric_exec(left) && is_numeric_exec(right)) || (l_bool && r_bool)
                    || (l_str && r_str) || is_any_exec(left) || is_any_exec(right);
                if !ok {
                    let mut m = chars_of("Type error: comparison requires numeric, bool, or string operands, got ");
                    push_ty_debug(&mut m, left);
                    append_str(&mut m, " and ");
                    push_ty_debug(&mut m, right);
                    append_str(&mut m, ".");
                    assert(m@ =~= binary_message(op, left@, right@));
                self.error(m);
                }
                HyperType::Bool
            },
            BinOp::And | BinOp::Or => {
                if !is_boolish_exec(left) || !is_boolish_exec(right) {
                    let mut m = chars_of("Type error: '");
                    append_str(&mut m, binop_str(op));
                    append_str(&mut m, "' requires bool-ish operands, got ");
                    push_ty_debug(&mut m, left);
                    append_str(&mut m, " and ");
                    push_ty_debug(&mut m, right);
                    append_str(&mut m, ".");
                    assert(m@ =~= binary_message(op, left@, right@));
                self.error(m);
                }
                HyperType::Bool
            },
        }
    }

    /// Applies a callee type to argument types (see `call_rule`).
    fn call_result(&mut self, callee: &HyperType, args: &Vec<HyperType>) -> (r: HyperType)
        ensures
            r@ == call_rule(callee@, crate::types::tys_of(args@)).0,
            final(self).errors@.len() == old(self).errors@.len() + call_rule(callee@, crate::types::tys_of(args@)).1,
            final(self).scopes@ == old(self).scopes@,
            final(self).structs@ == old(self).structs@,
            final(self).traits@ == old(self).traits@,
            final(self).expected_return == old(self).expected_return,
            (final(self).model(), r@) == c_call_result(old(self).model(), callee@, tys_of(args@)),
    {
        proof {
            lemma_tys_len(args@);
        }
        match callee {
            HyperType::Struct(_) => callee.copy(),
            HyperType::Function { params, ret } => {
                proof { lemma_tys_len(params@); }
                let mut skip = params.len() <= 1;
                let mut i: usize = 0;
                while i < params.len()
                    invariant
                        i <= params@.len(),
                        skip == (params@.len() <= 1 && forall|k: int| 0 <= k < i ==> is_any(ty_of(#[trigger] params@[k]))),
                    decreases params@.len() - i,
                {
                    if !is_any_exec(&params[i]) {
                        skip = false;
                    }
                    i = i + 1;
                }
                proof {
                    lemma_tys_len(params@);
                    if skip {
                        assert forall|k: int| 0 <= k < tys_of(params@).len() implies is_any(#[trigger] tys_of(params@)[k]) by {
                            assert(tys_of(params@)[k] == ty_of(params@[k]));
                        }
                    }
                    if all_any(tys_of(params@)) && params@.len() <= 1 {
                        assert forall|k: int| 0 <= k < params@.len() implies is_any(ty_of(#[trigger] params@[k])) by {
                            assert(tys_of(params@)[k] == ty_of(params@[k]));
                        }
                    }
                    assert(skip == (all_any(tys_of(params@)) && params@.len() <= 1));
                }
                if !skip && params.len() != args.len() {
                    let mut m = chars_of("Type error: expected ");
                    let d1 = u64_decimal(params.len() as u64);
                    append_chars(&mut m, &d1);
                    append_str(&mut m, " argument(s) but got ");
                    let d2 = u64_decimal(args.len() as u64);
                    append_chars(&mut m, &d2);
                    append_str(&mut m, ".");
                    self.error(m);
                } else if !skip {
                    self.check_arguments(params, args);
                }
                ret.copy()
            },
            _ => HyperType::Any,
        }
    }

    fn check_arguments(&mut self, params: &Vec<HyperType>, args: &Vec<HyperType>)
        requires
            params@.len() == args@.len(),
        ensures
            final(self).errors@.len() == old(self).errors@.len()
                + mismatches(tys_of(params@), tys_of(args@)),
            final(self).scopes@ == old(self).scopes@,
            final(self).structs@ == old(self).structs@,
            final(self).traits@ == old(self).traits@,
            final(self).expected_return == old(self).expected_return,
            final(self).model() == c_arguments(old(self).model(), tys_of(params@), tys_of(args@), params@.len() as int),
    {
        proof {
            lemma_tys_len(params@);
            lemma_tys_len(args@);
        }
        let mut i: usize = 0;
        while i < params.len()
            invariant
                i <= params@.len(),
                params@.len() == args@.len(),
                self.errors@.len() == old(self).errors@.len()
                    + mismatches(tys_of(params@.take(i as int)), tys_of(args@.take(i as int))),
                self.model() == c_arguments(old(self).model(), tys_of(params@), tys_of(args@), i as int),
                self.scopes@ == old(self).scopes@,
                self.structs@ == old(self).structs@,
                self.traits@ == old(self).traits@,
                self.expected_return == old(self).expected_return,
            decreases params@.len() - i,
        {
            let ok = is_compatible_exec(&params[i], &args[i]);
            proof {
                let pt = params@.take(i + 1);
                let at = args@.take(i + 1);
                lemma_tys_len(pt);
                lemma_tys_len(at);
                lemma_tys_len(params@.take(i as int));
                lemma_tys_len(args@.take(i as int));
                assert(pt.drop_last() == params@.take(i as int));
                assert(at.drop_last() == args@.take(i as int));
                assert(tys_of(pt).drop_last() =~= tys_of(params@.take(i as int)));
                assert(tys_of(at).take(i as int) =~= tys_of(args@.take(i as int)));
                assert(tys_of(pt).last() == ty_of(params@[i as int]));
                assert(tys_of(at)[i as int] == ty_of(args@[i as int]));
            }
            proof {
                lemma_tys_len(params@);
                lemma_tys_len(args@);
            }
            if !ok {
                let mut m = chars_of("Type error: argument ");
                let d = u64_decimal((i as u64) + 1);
                append_chars(&mut m, &d);
                append_str(&mut m, " expected ");
                push_ty_debug(&mut m, &params[i]);
                append_str(&mut m, ", got ");
                push_ty_debug(&mut m, &args[i]);
                append_str(&mut m, ".");
                assert(m@ =~= argument_message(i as nat, tys_of(params@)[i as int], tys_of(args@)[i as int]));
                self.error(m);
            }
            i = i + 1;
        }
        assert(params@.take(params@.len() as int) == params@);
        assert(args@.take(args@.len() as int) == args@);
    }
}

proof fn lemma_tys_len(ts: Seq<HyperType>)
    ensures
        tys_of(ts).len() == ts.len(),
        forall|i: int| 0 <= i < ts.len() ==> tys_of(ts)[i] == ty_of(#[trigger] ts[i]),
    decreases ts.len(),
{
    if ts.len() > 0 {
        lemma_tys_len(ts.drop_last());
        assert forall|i: int| 0 <= i < ts.len() implies tys_of(ts)[i] == ty_of(#[trigger] ts[i]) by {
            if i < ts.len() - 1 {
                assert(ts.drop_last()[i] == ts[i]);
            }
        }
    }
}


// ---------------------------------------------------------------------------
// Expressions and statements

pub open spec fn is_bool_result(e: Expr) -> bool {
    match e {
        Expr::Binary { op, .. } => match op {
            BinOp::Eq | BinOp::Ne | BinOp::Lt | BinOp::Le | BinOp::Gt | BinOp::Ge | BinOp::And | BinOp::Or => true,
            _ => false,
        },
        Expr::Unary { op: UnaryOp::Not, .. } => true,
        _ => false,
    }
}

fn undefined_message(name: &String) -> (r: Vec<char>)
    ensures
        r@ == undefined_text(name@),
{
    let mut m = chars_of("Error: Undefined variable '");
    let n = string_chars(name);
    append_chars(&mut m, &n);
    append_str(&mut m, "'.");
    m
}

impl TypeChecker {
    /// Infers the type of an expression, recording a finding for each
    /// mismatch met on the way.
    fn check_expr(&mut self, expr: &Expr) -> (r: HyperType)
        requires
            old(self).wf(),
        ensures
            final(self).grew(old(self)),
            final(self).structs@ == old(self).structs@,
            final(self).traits@ == old(self).traits@,
            final(self).expected_return == old(self).expected_return,
            (final(self).model(), r@) == check_expr_spec(old(self).model(), *expr),
            *expr matches Expr::Literal(lit) ==> r@ == infer_literal_spec(lit)
                && final(self).errors@.len() == old(self).errors@.len(),
            *expr matches Expr::FString { .. } ==> r@ == Ty::Str,
            *expr matches Expr::Dict(_) ==> r@ == Ty::Dict,
            is_bool_result(*expr) ==> r@ == Ty::Bool,
        decreases expr, 1int,
    {
        match expr {
            Expr::Literal(lit) => infer_literal(lit),
            Expr::Variable { .. } => self.check_variable(expr),
            Expr::Group(inner) => self.check_expr(inner),
            Expr::Unary { .. } => self.check_unary(expr),
            Expr::Binary { .. } => self.check_binary_expr(expr),
            Expr::Assign { .. } => self.check_assign(expr),
            Expr::GetField { .. } => self.check_get_field(expr),
            Expr::SetField { .. } => self.check_set_field(expr),
            Expr::Call { .. } => self.check_call(expr),
            Expr::CallMethod { .. } => self.check_call_method(expr),
            Expr::List(..) => self.check_list(expr),
            Expr::Dict(..) => self.check_dict(expr),
            Expr::Index { .. } => self.check_index(expr),
            Expr::IndexSet { .. } => self.check_index_set(expr),
            Expr::FString { .. } => self.check_fstring(expr),
            Expr::Ternary { .. } => self.check_ternary(expr),
        }
    }

    fn check_variable(&mut self, expr: &Expr) -> (r: HyperType)
        requires
            old(self).wf(),
            *expr is Variable,
        ensures
            final(self).grew(old(self)),
            final(self).structs@ == old(self).structs@,
            final(self).traits@ == old(self).traits@,
            final(self).expected_return == old(self).expected_return,
            (final(self).model(), r@) == check_expr_spec(old(self).model(), *expr),
        decreases expr, 0int,
    {
        let ghost c0 = self.model();
        match expr {
            Expr::Variable { name, line } => {
                match self.lookup(name) {
                    Some((t, _)) => t,
                    Option::None => {
                        let nm = string_chars(name);
                        if contains_name(&self.structs, nm.as_slice()) {
                            HyperType::Struct(copy_string(name))
                        } else {
                            let mut m = chars_of("[line ");
                            let d = u64_decimal(*line as u64);
                            append_chars(&mut m, &d);
                            append_str(&mut m, "] Error: Undefined variable '");
                            append_chars(&mut m, &nm);
                            append_str(&mut m, "'.");
                            assert(m@ =~= "[line "@ + decimal(*line as nat) + "] Error: Undefined variable '"@ + name@ + "'."@);
                            self.error(m);
                            HyperType::Any
                        }
                    },
                }
            },
            _ => HyperType::Any,
        }
    }

    fn check_unary(&mut self, expr: &Expr) -> (r: HyperType)
        requires
            old(self).wf(),
            *expr is Unary,
        ensures
            final(self).grew(old(self)),
            final(self).structs@ == old(self).structs@,
            final(self).traits@ == old(self).traits@,
            final(self).expected_return == old(self).expected_return,
            (final(self).model(), r@) == check_expr_spec(old(self).model(), *expr),
        decreases expr, 0int,
    {
        match expr {
            Expr::Unary { op, right } => {
                let rt = self.check_expr(right);
                match op {
                    UnaryOp::Neg => {
                        if !is_numeric_exec(&rt) {
                            let mut m = chars_of("Type error: unary '-' requires a numeric operand, got ");
                            push_ty_debug(&mut m, &rt);
                            append_str(&mut m, ".");
                            assert(m@ =~= "Type error: unary '-' requires a numeric operand, got "@ + ty_debug(rt@) + "."@);
                            self.error(m);
                        }
                        rt
                    },
                    UnaryOp::Not => HyperType::Bool,
                }
            },
            _ => HyperType::Any,
        }
    }

    fn check_binary_expr(&mut self, expr: &Expr) -> (r: HyperType)
        requires
            old(self).wf(),
            *expr is Binary,
        ensures
            final(self).grew(old(self)),
            final(self).structs@ == old(self).structs@,
            final(self).traits@ == old(self).traits@,
            final(self).expected_return == old(self).expected_return,
            (final(self).model(), r@) == check_expr_spec(old(self).model(), *expr),
        decreases expr, 0int,
    {
        match expr {
            Expr::Binary { op, left, right } => {
                let lt = self.check_expr(left);
                let rt = self.check_expr(right);
                self.check_binary(*op, &lt, &rt)
            },
            _ => HyperType::Any,
        }
    }

    fn check_assign(&mut self, expr: &Expr) -> (r: HyperType)
        requires
            old(self).wf(),
            *expr is Assign,
        ensures
            final(self).grew(old(self)),
            final(self).structs@ == old(self).structs@,
            final(self).traits@ == old(self).traits@,
            final(self).expected_return == old(self).expected_return,
            (final(self).model(), r@) == check_expr_spec(old(self).model(), *expr),
        decreases expr, 0int,
    {
        match expr {
            Expr::Assign { name, value } => {
                let vt = self.check_expr(value);
                let ghost c1 = self.model();
                match self.lookup(name) {
                    Some((bt, bmut)) => {
                        if !bmut {
                            let mut m = chars_of("Error: Cannot reassign immutable variable '");
                            let nm = string_chars(name);
                            append_chars(&mut m, &nm);
                            append_str(&mut m, "'. Use 'let mut' to make it mutable.");
                            assert(m@ =~= "Error: Cannot reassign immutable variable '"@ + name@
                                + "'. Use 'let mut' to make it mutable."@);
                            self.error(m);
                        } else if !is_compatible_exec(&bt, &vt) && !is_any_exec(&bt) {
                            let widened = is_numeric_exec(&bt) && is_numeric_exec(&vt)
                                && self.widen_inferred(name, &vt);
                            if !widened && !is_any_exec(&vt) {
                                let mut m = chars_of("Type error: cannot assign ");
                                push_ty_debug(&mut m, &vt);
                                append_str(&mut m, " to '");
                                let nm = string_chars(name);
                                append_chars(&mut m, &nm);
                                append_str(&mut m, "' of type ");
                                push_ty_debug(&mut m, &bt);
                                append_str(&mut m, ".");
                                assert(m@ =~= "Type error: cannot assign "@ + ty_debug(vt@) + " to '"@ + name@
                                    + "' of type "@ + ty_debug(bt@) + "."@);
                                self.error(m);
                            }
                            if widened {
                                return vt;
                            }
                        }
                        bt
                    },
                    Option::None => {
                        let m = undefined_message(name);
                        self.error(m);
                        HyperType::Any
                    },
                }
            },
            _ => HyperType::Any,
        }
    }

    fn check_get_field(&mut self, expr: &Expr) -> (r: HyperType)
        requires
            old(self).wf(),
            *expr is GetField,
        ensures
            final(self).grew(old(self)),
            final(self).structs@ == old(self).structs@,
            final(self).traits@ == old(self).traits@,
            final(self).expected_return == old(self).expected_return,
            (final(self).model(), r@) == check_expr_spec(old(self).model(), *expr),
        decreases expr, 0int,
    {
        match expr {
            Expr::GetField { object, .. } => {
                let nm = string_chars(object);
                if !self.is_bound(object) && !contains_name(&self.structs, nm.as_slice()) {
                    let m = undefined_message(object);
                    self.error(m);
                }
                HyperType::Any
            },
            _ => HyperType::Any,
        }
    }

    fn check_set_field(&mut self, expr: &Expr) -> (r: HyperType)
        requires
            old(self).wf(),
            *expr is SetField,
        ensures
            final(self).grew(old(self)),
            final(self).structs@ == old(self).structs@,
            final(self).traits@ == old(self).traits@,
            final(self).expected_return == old(self).expected_return,
            (final(self).model(), r@) == check_expr_spec(old(self).model(), *expr),
        decreases expr, 0int,
    {
        match expr {
            Expr::SetField { object, value, .. } => {
                if !self.is_bound(object) {
                    let m = undefined_message(object);
                    self.error(m);
                }
                let _ = self.check_expr(value);
                HyperType::Any
            },
            _ => HyperType::Any,
        }
    }

    #[verifier::loop_isolation(false)]
    fn check_call_method(&mut self, expr: &Expr) -> (r: HyperType)
        requires
            old(self).wf(),
            *expr is CallMethod,
        ensures
            final(self).grew(old(self)),
            final(self).structs@ == old(self).structs@,
            final(self).traits@ == old(self).traits@,
            final(self).expected_return == old(self).expected_return,
            (final(self).model(), r@) == check_expr_spec(old(self).model(), *expr),
        decreases expr, 0int,
    {
        match expr {
            Expr::CallMethod { object, args, .. } => {
                if !self.is_bound(object) {
                    let m = undefined_message(object);
                    self.error(m);
                }
                let ghost c1 = self.model();
                let mut i: usize = 0;
                proof { assert(args@.take(0) =~= Seq::<Expr>::empty()); }
                while i < args.len()
                    invariant
                        i <= args@.len(),
                        old(self).wf(),
                        self.grew(old(self)),
                        self.structs@ == old(self).structs@,
                        self.traits@ == old(self).traits@,
                        self.expected_return == old(self).expected_return,
                        self.model() == check_exprs_spec(c1, args@.take(i as int)),
                    decreases args@.len() - i,
                {
                    assert(decreases_to!(expr => args@[i as int]));
                    proof {
                        assert(args@.take(i + 1).drop_last() =~= args@.take(i as int));
                        assert(args@.take(i + 1).last() == args@[i as int]);
                    }
                    let _ = self.check_expr(&args[i]);
                    i = i + 1;
                }
                proof { assert(args@.take(args@.len() as int) =~= args@); }
                HyperType::Any
            },
            _ => HyperType::Any,
        }
    }

    #[verifier::loop_isolation(false)]
    fn check_list(&mut self, expr: &Expr) -> (r: HyperType)
        requires
            old(self).wf(),
            *expr is List,
        ensures
            final(self).grew(old(self)),
            final(self).structs@ == old(self).structs@,
            final(self).traits@ == old(self).traits@,
            final(self).expected_return == old(self).expected_return,
            (final(self).model(), r@) == check_expr_spec(old(self).model(), *expr),
        decreases expr, 0int,
    {
        match expr {
            Expr::List(items) => {
                let ghost c0 = self.model();
                let mut elem = HyperType::Any;
                let mut i: usize = 0;
                proof { assert(items@.take(0) =~= Seq::<Expr>::empty()); }
                while i < items.len()
                    invariant
                        i <= items@.len(),
                        old(self).wf(),
                        self.grew(old(self)),
                        self.structs@ == old(self).structs@,
                        self.traits@ == old(self).traits@,
                        self.expected_return == old(self).expected_return,
                        (self.model(), elem@) == check_items_spec(c0, items@.take(i as int)),
                    decreases items@.len() - i,
                {
                    assert(decreases_to!(expr => items@[i as int]));
                    proof {
                        assert(items@.take(i + 1).drop_last() =~= items@.take(i as int));
                        assert(items@.take(i + 1).last() == items@[i as int]);
                    }
                    let t = self.check_expr(&items[i]);
                    if i == 0 {
                        elem = t;
                    } else if !is_compatible_exec(&elem, &t) && !is_compatible_exec(&t, &elem) {
                        elem = HyperType::Any;
                    } else {
                        elem = widen_numeric_exec(&elem, &t);
                    }
                    i = i + 1;
                }
                proof { assert(items@.take(items@.len() as int) =~= items@); }
                HyperType::List(Box::new(elem))
            },
            _ => HyperType::Any,
        }
    }

    #[verifier::loop_isolation(false)]
    fn check_dict(&mut self, expr: &Expr) -> (r: HyperType)
        requires
            old(self).wf(),
            *expr is Dict,
        ensures
            final(self).grew(old(self)),
            final(self).structs@ == old(self).structs@,
            final(self).traits@ == old(self).traits@,
            final(self).expected_return == old(self).expected_return,
            (final(self).model(), r@) == check_expr_spec(old(self).model(), *expr),
        decreases expr, 0int,
    {
        match expr {
            Expr::Dict(entries) => {
                let ghost c0 = self.model();
                let mut i: usize = 0;
                proof { assert(entries@.take(0) =~= Seq::<(Expr, Expr)>::empty()); }
                while i < entries.len()
                    invariant
                        i <= entries@.len(),
                        old(self).wf(),
                        self.grew(old(self)),
                        self.structs@ == old(self).structs@,
                        self.traits@ == old(self).traits@,
                        self.expected_return == old(self).expected_return,
                        self.model() == check_entries_spec(c0, entries@.take(i as int)),
                    decreases entries@.len() - i,
                {
                    assert(decreases_to!(expr => entries@[i as int]));
                    assert(decreases_to!(entries@[i as int] => entries@[i as int].0));
                    assert(decreases_to!(entries@[i as int] => entries@[i as int].1));
                    proof {
                        assert(entries@.take(i + 1).drop_last() =~= entries@.take(i as int));
                        assert(entries@.take(i + 1).last() == entries@[i as int]);
                    }
                    let _ = self.check_expr(&entries[i].0);
                    let _ = self.check_expr(&entries[i].1);
                    i = i + 1;
                }
                proof { assert(entries@.take(entries@.len() as int) =~= entries@); }
                HyperType::Dict
            },
            _ => HyperType::Any,
        }
    }

    fn check_index(&mut self, expr: &Expr) -> (r: HyperType)
        requires
            old(self).wf(),
            *expr is Index,
        ensures
            final(self).grew(old(self)),
            final(self).structs@ == old(self).structs@,
            final(self).traits@ == old(self).traits@,
            final(self).expected_return == old(self).expected_return,
            (final(self).model(), r@) == check_expr_spec(old(self).model(), *expr),
        decreases expr, 0int,
    {
        match expr {
            Expr::Index { object, index } => {
                let ot = self.check_expr(object);
                let _ = self.check_expr(index);
                match ot {
                    HyperType::List(inner) => *inner,
                    HyperType::Array(inner) => *inner,
                    HyperType::Dict => HyperType::Any,
                    HyperType::String => HyperType::String,
                    HyperType::Any => HyperType::Any,
                    other => {
                        let mut m = chars_of("Type error: cannot index value of type ");
                        push_ty_debug(&mut m, &other);
                        append_str(&mut m, ".");
                        assert(m@ =~= "Type error: cannot index value of type "@ + ty_debug(other@) + "."@);
                        self.error(m);
                        HyperType::Any
                    },
                }
            },
            _ => HyperType::Any,
        }
    }

    fn check_index_set(&mut self, expr: &Expr) -> (r: HyperType)
        requires
            old(self).wf(),
            *expr is IndexSet,
        ensures
            final(self).grew(old(self)),
            final(self).structs@ == old(self).structs@,
            final(self).traits@ == old(self).traits@,
            final(self).expected_return == old(self).expected_return,
            (final(self).model(), r@) == check_expr_spec(old(self).model(), *expr),
        decreases expr, 0int,
    {
        match expr {
            Expr::IndexSet { object, index, value } => {
                let _ = self.check_expr(object);
                let _ = self.check_expr(index);
                self.check_expr(value)
            },
            _ => HyperType::Any,
        }
    }

    #[verifier::loop_isolation(false)]
    fn check_fstring(&mut self, expr: &Expr) -> (r: HyperType)
        requires
            old(self).wf(),
            *expr is FString,
        ensures
            final(self).grew(old(self)),
            final(self).structs@ == old(self).structs@,
            final(self).traits@ == old(self).traits@,
            final(self).expected_return == old(self).expected_return,
            (final(self).model(), r@) == check_expr_spec(old(self).model(), *expr),
        decreases expr, 0int,
    {
        match expr {
            Expr::FString { parts, .. } => {
                let ghost c0 = self.model();
                let mut i: usize = 0;
                proof { assert(parts@.take(0) =~= Seq::<FStringPart>::empty()); }
                while i < parts.len()
                    invariant
                        i <= parts@.len(),
                        old(self).wf(),
                        self.grew(old(self)),
                        self.structs@ == old(self).structs@,
                        self.traits@ == old(self).traits@,
                        self.expected_return == old(self).expected_return,
                        self.model() == check_parts_spec(c0, parts@.take(i as int)),
                    decreases parts@.len() - i,
                {
                    proof {
                        assert(parts@.take(i + 1).drop_last() =~= parts@.take(i as int));
                        assert(parts@.take(i + 1).last() == parts@[i as int]);
                    }
                    match &parts[i] {
                        FStringPart::Expr(e) => {
                            assert(decreases_to!(expr => parts@[i as int]));
                            let _ = self.check_expr(e);
                        },
                        _ => {},
                    }
                    i = i + 1;
                }
                proof { assert(parts@.take(parts@.len() as int) =~= parts@); }
                HyperType::String
            },
            _ => HyperType::Any,
        }
    }

    fn check_ternary(&mut self, expr: &Expr) -> (r: HyperType)
        requires
            old(self).wf(),
            *expr is Ternary,
        ensures
            final(self).grew(old(self)),
            final(self).structs@ == old(self).structs@,
            final(self).traits@ == old(self).traits@,
            final(self).expected_return == old(self).expected_return,
            (final(self).model(), r@) == check_expr_spec(old(self).model(), *expr),
        decreases expr, 0int,
    {
        match expr {
            Expr::Ternary { condition, then_branch, else_branch } => {
                let _ = self.check_expr(condition);
                let tt = self.check_expr(then_branch);
                let et = self.check_expr(else_branch);
                if is_compatible_exec(&tt, &et) || is_compatible_exec(&et, &tt) {
                    if is_numeric_exec(&tt) && is_numeric_exec(&et) {
                        widen_numeric_exec(&tt, &et)
                    } else {
                        tt
                    }
                } else {
                    HyperType::Any
                }
            },
            _ => HyperType::Any,
        }
    }

    /// Checks a call: its callee, then its arguments (named ones by value),
    /// then applies `call_rule`.
    #[verifier::loop_isolation(false)]
    fn check_call(&mut self, expr: &Expr) -> (r: HyperType)
        requires
            old(self).wf(),
            *expr is Call,
        ensures
            final(self).grew(old(self)),
            final(self).structs@ == old(self).structs@,
            final(self).traits@ == old(self).traits@,
            final(self).expected_return == old(self).expected_return,
            (final(self).model(), r@) == check_expr_spec(old(self).model(), *expr),
        decreases expr, 0int,
    {
        match expr {
            Expr::Call { callee, args } => {
                let callee_ty = self.check_expr(callee);
                let ghost c1 = self.model();
                let mut arg_tys: Vec<HyperType> = Vec::new();
                let mut i: usize = 0;
                proof {
                    assert(args@.take(0) =~= Seq::<CallArg>::empty());
                    assert(tys_of(arg_tys@) =~= Seq::<Ty>::empty());
                }
                while i < args.len()
                    invariant
                        i <= args@.len(),
                        old(self).wf(),
                        self.grew(old(self)),
                        self.structs@ == old(self).structs@,
                        self.traits@ == old(self).traits@,
                        self.expected_return == old(self).expected_return,
                        (self.model(), tys_of(arg_tys@)) == check_args_spec(c1, args@.take(i as int)),
                    decreases args@.len() - i,
                {
                    assert(decreases_to!(expr => args@[i as int]));
                    proof {
                        assert(args@.take(i + 1).drop_last() =~= args@.take(i as int));
                        assert(args@.take(i + 1).last() == args@[i as int]);
                    }
                    let ghost before = arg_tys@;
                    let t = match &args[i] {
                        CallArg::Positional(e) => self.check_expr(e),
                        CallArg::Named { value, .. } => self.check_expr(value),
                    };
                    arg_tys.push(t);
                    proof {
                        assert(arg_tys@.drop_last() =~= before);
                    }
                    i = i + 1;
                }
                proof { assert(args@.take(args@.len() as int) =~= args@); }
                self.call_result(&callee_ty, &arg_tys)
            },
            _ => HyperType::Any,
        }
    }

    fn check_stmt(&mut self, stmt: &Stmt)
        requires
            old(self).wf(),
        ensures
            final(self).grew(old(self)),
            final(self).model() == check_stmt_spec(old(self).model(), *stmt),
        decreases stmt, 1int,
    {
        match stmt {
            Stmt::Let { .. } => self.check_let(stmt),
            Stmt::Print { .. } => self.check_print(stmt),
            Stmt::Expr { expr, .. } => {
                let _ = self.check_expr(expr);
            },
            Stmt::Block(..) => self.check_block(stmt),
            Stmt::If { condition, then_branch, else_branch } => {
                let _ = self.check_expr(condition);
                self.check_stmt(then_branch);
                match else_branch {
                    Some(e) => self.check_stmt(e),
                    Option::None => {},
                }
            },
            Stmt::While { condition, body, .. } => {
                let _ = self.check_expr(condition);
                self.check_stmt(body);
            },
            Stmt::For { .. } => self.check_for(stmt),
            Stmt::Function(decl) => self.check_function(decl),
            Stmt::Return { .. } => self.check_return(stmt),
            Stmt::Struct { .. } => self.check_struct(stmt),
            Stmt::Trait { .. } => self.check_trait(stmt),
            Stmt::WithMmap { path, var, body, .. } => {
                let _ = self.check_expr(path);
                self.push_scope();
                self.define(var, Binding { ty: HyperType::Mmap, mutable: false });
                self.check_stmt(body);
                self.pop_scope();
            },
            Stmt::Import { module, alias, .. } => {
                let bind = match alias {
                    Some(a) => a,
                    Option::None => module,
                };
                self.define(bind, Binding { ty: HyperType::Any, mutable: false });
            },
            Stmt::ImportFrom { .. } => self.check_import_from(stmt),
        }
    }

    #[verifier::loop_isolation(false)]
    fn check_let(&mut self, stmt: &Stmt)
        requires
            old(self).wf(),
            *stmt is Let,
        ensures
            final(self).grew(old(self)),
            final(self).model() == check_stmt_spec(old(self).model(), *stmt),
        decreases stmt, 0int,
    {
        match stmt {
            Stmt::Let { line, is_mutable, name, type_ann, initializer } => {
                let init_ty = self.check_expr(initializer);
                let declared = match type_ann {
                    TypeAnn::Unannotated => init_ty,
                    other => {
                        let ann = self.type_ann_to_hyper(other);
                        if !is_compatible_exec(&ann, &init_ty) && !expr_fits_type(initializer, &ann) {
                            let mut m = chars_of("[line ");
                            let d = u64_decimal(*line as u64);
                            append_chars(&mut m, &d);
                            append_str(&mut m, "] Type error: cannot initialize '");
                            let nm = string_chars(name);
                            append_chars(&mut m, &nm);
                            append_str(&mut m, "' of type ");
                            push_ty_debug(&mut m, &ann);
                            append_str(&mut m, " with ");
                            push_ty_debug(&mut m, &init_ty);
                            append_str(&mut m, ".");
                            assert(m@ =~= "[line "@ + decimal(*line as nat) + "] Type error: cannot initialize '"@ + name@
                                + "' of type "@ + ty_debug(ann@) + " with "@ + ty_debug(init_ty@) + "."@);
                            self.error(m);
                        }
                        if is_any_exec(&ann) {
                            init_ty
                        } else {
                            ann
                        }
                    },
                };
                self.define(name, Binding { ty: declared, mutable: *is_mutable });
                let unannotated = match type_ann {
                    TypeAnn::Unannotated => true,
                    _ => false,
                };
                self.mark_inferred(name, unannotated);
            },
            _ => {},
        }
    }

    #[verifier::loop_isolation(false)]
    fn check_print(&mut self, stmt: &Stmt)
        requires
            old(self).wf(),
            *stmt is Print,
        ensures
            final(self).grew(old(self)),
            final(self).model() == check_stmt_spec(old(self).model(), *stmt),
        decreases stmt, 0int,
    {
        match stmt {
            Stmt::Print { values, .. } => {
                let ghost c0 = self.model();
                let mut i: usize = 0;
                proof { assert(values@.take(0) =~= Seq::<Expr>::empty()); }
                while i < values.len()
                    invariant
                        i <= values@.len(),
                        old(self).wf(),
                        self.grew(old(self)),
                        self.model() == check_exprs_spec(c0, values@.take(i as int)),
                    decreases values@.len() - i,
                {
                    proof {
                        assert(values@.take(i + 1).drop_last() =~= values@.take(i as int));
                        assert(values@.take(i + 1).last() == values@[i as int]);
                    }
                    let _ = self.check_expr(&values[i]);
                    i = i + 1;
                }
                proof { assert(values@.take(values@.len() as int) =~= values@); }
            },
            _ => {},
        }
    }

    #[verifier::loop_isolation(false)]
    fn check_block(&mut self, stmt: &Stmt)
        requires
            old(self).wf(),
            *stmt is Block,
        ensures
            final(self).grew(old(self)),
            final(self).model() == check_stmt_spec(old(self).model(), *stmt),
        decreases stmt, 0int,
    {
        match stmt {
            Stmt::Block(stmts) => {
                self.push_scope();
                self.hoist_functions(stmts);
                let ghost c0 = self.model();
                let mut i: usize = 0;
                proof { assert(stmts@.take(0) =~= Seq::<Stmt>::empty()); }
                while i < stmts.len()
                    invariant
                        i <= stmts@.len(),
                        self.scopes@.len() == old(self).scopes@.len() + 1,
                        old(self).scopes@.len() >= 1,
                        old(self).errors@.len() <= self.errors@.len(),
                        self.model() == check_stmts_spec(c0, stmts@.take(i as int)),
                    decreases stmts@.len() - i,
                {
                    assert(decreases_to!(stmt => stmts@[i as int]));
                    proof {
                        assert(stmts@.take(i + 1).drop_last() =~= stmts@.take(i as int));
                        assert(stmts@.take(i + 1).last() == stmts@[i as int]);
                    }
                    self.check_stmt(&stmts[i]);
                    i = i + 1;
                }
                proof { assert(stmts@.take(stmts@.len() as int) =~= stmts@); }
                self.pop_scope();
            },
            _ => {},
        }
    }

    fn check_for(&mut self, stmt: &Stmt)
        requires
            old(self).wf(),
            *stmt is For,
        ensures
            final(self).grew(old(self)),
            final(self).model() == check_stmt_spec(old(self).model(), *stmt),
        decreases stmt, 0int,
    {
        match stmt {
            Stmt::For { var, iter, body, .. } => {
                match iter {
                    ForIter::Range { start, end } => {
                        let st = self.check_expr(start);
                        let et = self.check_expr(end);
                        if !is_numeric_exec(&st) {
                            let mut m = chars_of("Type error: for-loop start must be numeric, got ");
                            push_ty_debug(&mut m, &st);
                            append_str(&mut m, ".");
                            assert(m@ =~= "Type error: for-loop start must be numeric, got "@ + ty_debug(st@) + "."@);
                            self.error(m);
                        }
                        if !is_numeric_exec(&et) {
                            let mut m = chars_of("Type error: for-loop end must be numeric, got ");
                            push_ty_debug(&mut m, &et);
                            append_str(&mut m, ".");
                            assert(m@ =~= "Type error: for-loop end must be numeric, got "@ + ty_debug(et@) + "."@);
                            self.error(m);
                        }
                        self.push_scope();
                        self.define(var, Binding { ty: HyperType::I64, mutable: false });
                    },
                    ForIter::Iterable(iterable) => {
                        let it = self.check_expr(iterable);
                        let elem_ty = match it {
                            HyperType::List(inner) => *inner,
                            HyperType::Array(inner) => *inner,
                            HyperType::Any => HyperType::Any,
                            other => {
                                let mut m = chars_of("Type error: for-in iterable must be a list, got ");
                                push_ty_debug(&mut m, &other);
                                append_str(&mut m, ".");
                                assert(m@ =~= "Type error: for-in iterable must be a list, got "@ + ty_debug(other@) + "."@);
                                self.error(m);
                                HyperType::Any
                            },
                        };
                        self.push_scope();
                        self.define(var, Binding { ty: elem_ty, mutable: false });
                    },
                }
                self.check_stmt(body);
                self.pop_scope();
            },
            _ => {},
        }
    }

    fn check_return(&mut self, stmt: &Stmt)
        requires
            old(self).wf(),
            *stmt is Return,
        ensures
            final(self).grew(old(self)),
            final(self).model() == check_stmt_spec(old(self).model(), *stmt),
        decreases stmt, 0int,
    {
        match stmt {
            Stmt::Return { line, value } => {
                let vt = self.check_expr(value);
                let mut report = false;
                match &self.expected_return {
                    Some(expected) => {
                        let vt_any_or_none = match vt {
                            HyperType::Any | HyperType::NoneType => true,
                            _ => false,
                        };
                        if !is_compatible_exec(expected, &vt) && !is_any_exec(expected) && !vt_any_or_none {
                            report = true;
                        }
                    },
                    Option::None => {},
                }
                if report {
                    let mut m = chars_of("[line ");
                    let d = u64_decimal(*line as u64);
                    append_chars(&mut m, &d);
                    append_str(&mut m, "] Type error: return type ");
                    push_ty_debug(&mut m, &vt);
                    append_str(&mut m, " is not compatible with ");
                    match &self.expected_return {
                        Some(expected) => {
                            push_ty_debug(&mut m, expected);
                            append_str(&mut m, ".");
                            assert(m@ =~= "[line "@ + decimal(*line as nat) + "] Type error: return type "@ + ty_debug(vt@)
                                + " is not compatible with "@ + ty_debug(expected@) + "."@);
                        },
                        Option::None => {
                            append_str(&mut m, ".");
                        },
                    }
                    self.error(m);
                }
            },
            _ => {},
        }
    }

    #[verifier::loop_isolation(false)]
    fn check_struct(&mut self, stmt: &Stmt)
        requires
            old(self).wf(),
            *stmt is Struct,
        ensures
            final(self).grew(old(self)),
            final(self).model() == check_stmt_spec(old(self).model(), *stmt),
        decreases stmt, 0int,
    {
        match stmt {
            Stmt::Struct { name, fields, methods, .. } => {
                let mut i: usize = 0;
                while i < fields.len()
                    invariant
                        i <= fields@.len(),
                        *self == *old(self),
                    decreases fields@.len() - i,
                {
                    let _ = self.resolve(&fields[i].field_type);
                    i = i + 1;
                }
                let nm = string_chars(name);
                if !contains_name(&self.structs, nm.as_slice()) {
                    let ghost before = self.structs@;
                    self.structs.push(copy_string(name));
                    proof { assert(names_of(self.structs@) =~= names_of(before).push(name@)); }
                }
                self.define(name, Binding { ty: HyperType::Struct(copy_string(name)), mutable: false });
                let ghost c0 = self.model();
                let mut j: usize = 0;
                proof { assert(methods@.take(0) =~= Seq::<MethodDecl>::empty()); }
                while j < methods.len()
                    invariant
                        j <= methods@.len(),
                        old(self).wf(),
                        self.grew(old(self)),
                        self.model() == check_methods_spec(c0, methods@.take(j as int)),
                    decreases methods@.len() - j,
                {
                    assert(decreases_to!(stmt => methods@[j as int]));
                    assert(decreases_to!(methods@[j as int] => methods@[j as int].function));
                    proof {
                        assert(methods@.take(j + 1).drop_last() =~= methods@.take(j as int));
                        assert(methods@.take(j + 1).last() == methods@[j as int]);
                    }
                    self.check_function(&methods[j].function);
                    j = j + 1;
                }
                proof { assert(methods@.take(methods@.len() as int) =~= methods@); }
            },
            _ => {},
        }
    }

    #[verifier::loop_isolation(false)]
    fn check_trait(&mut self, stmt: &Stmt)
        requires
            old(self).wf(),
            *stmt is Trait,
        ensures
            final(self).grew(old(self)),
            final(self).model() == check_stmt_spec(old(self).model(), *stmt),
        decreases stmt, 0int,
    {
        match stmt {
            Stmt::Trait { name, methods } => {
                let nm = string_chars(name);
                if !contains_name(&self.traits, nm.as_slice()) {
                    let ghost before = self.traits@;
                    self.traits.push(copy_string(name));
                    proof { assert(names_of(self.traits@) =~= names_of(before).push(name@)); }
                }
                self.define(name, Binding { ty: HyperType::Trait(copy_string(name)), mutable: false });
                let ghost c0 = self.model();
                let mut j: usize = 0;
                proof { assert(methods@.take(0) =~= Seq::<FunctionDecl>::empty()); }
                while j < methods.len()
                    invariant
                        j <= methods@.len(),
                        old(self).wf(),
                        self.grew(old(self)),
                        self.model() == declare_sigs_spec(c0, methods@.take(j as int)),
                    decreases methods@.len() - j,
                {
                    proof {
                        assert(methods@.take(j + 1).drop_last() =~= methods@.take(j as int));
                        assert(methods@.take(j + 1).last() == methods@[j as int]);
                    }
                    let params = self.param_types(&methods[j]);
                    let ret = self.optional_type(&methods[j].return_type);
                    self.define(&methods[j].name, Binding {
                        ty: HyperType::Function { params, ret: Box::new(ret) },
                        mutable: false,
                    });
                    j = j + 1;
                }
                proof { assert(methods@.take(methods@.len() as int) =~= methods@); }
            },
            _ => {},
        }
    }

    #[verifier::loop_isolation(false)]
    fn check_import_from(&mut self, stmt: &Stmt)
        requires
            old(self).wf(),
            *stmt is ImportFrom,
        ensures
            final(self).grew(old(self)),
            final(self).model() == check_stmt_spec(old(self).model(), *stmt),
        decreases stmt, 0int,
    {
        match stmt {
            Stmt::ImportFrom { names, .. } => {
                let ghost c0 = self.model();
                let mut i: usize = 0;
                proof { assert(names@.take(0) =~= Seq::<ImportName>::empty()); }
                while i < names.len()
                    invariant
                        i <= names@.len(),
                        old(self).wf(),
                        self.grew(old(self)),
                        self.model() == import_names_spec(c0, names@.take(i as int)),
                    decreases names@.len() - i,
                {
                    proof {
                        assert(names@.take(i + 1).drop_last() =~= names@.take(i as int));
                        assert(names@.take(i + 1).last() == names@[i as int]);
                    }
                    let item = &names[i];
                    let bind = match &item.alias {
                        Some(a) => a,
                        Option::None => &item.name,
                    };
                    self.define(bind, Binding { ty: HyperType::Any, mutable: false });
                    i = i + 1;
                }
                proof { assert(names@.take(names@.len() as int) =~= names@); }
            },
            _ => {},
        }
    }

    /// Checks a function body in a scope of its own, with its parameters
    /// bound (mutable) and its declared return type expected.  The function
    /// is bound first so that it may call itself.
    fn check_function(&mut self, decl: &FunctionDecl)
        requires
            old(self).wf(),
        ensures
            final(self).grew(old(self)),
            final(self).model() == check_function_spec(old(self).model(), *decl),
        decreases decl, 0int,
    {
        let ghost c = self.model();
        let params = self.param_types(decl);
        let ret = self.optional_type(&decl.return_type);
        let mut params_copy: Vec<HyperType> = Vec::new();
        let mut k: usize = 0;
        while k < params.len()
            invariant
                k <= params@.len(),
                params_copy@.len() == k,
                forall|q: int| 0 <= q < k ==> (#[trigger] params_copy@[q])@ == params@[q]@,
            decreases params@.len() - k,
        {
            params_copy.push(params[k].copy());
            k = k + 1;
        }
        proof {
            lemma_tys_len(params@);
            lemma_tys_len(params_copy@);
            assert(params_copy@.len() == params@.len());
            assert forall|q: int| 0 <= q < params@.len() implies tys_of(params_copy@)[q] == tys_of(params@)[q] by {
                assert(params_copy@[q]@ == params@[q]@);
            }
            assert(tys_of(params_copy@) =~= tys_of(params@));
        }
        self.define(&decl.name, Binding {
            ty: HyperType::Function { params: params_copy, ret: Box::new(ret.copy()) },
            mutable: false,
        });
        self.push_scope();
        let ghost c1 = self.model();
        let ghost ptys = param_tys(c, decl.params@);
        let mut i: usize = 0;
        proof { assert(decl.params@.take(0) =~= Seq::<Param>::empty()); }
        while i < decl.params.len() && i < params.len()
            invariant
                i <= decl.params@.len(),
                params@.len() == decl.params@.len(),
                tys_of(params@) == ptys,
                self.scopes@.len() == old(self).scopes@.len() + 1,
                old(self).errors@.len() <= self.errors@.len(),
                self.model() == bind_params(c1, decl.params@.take(i as int), ptys),
                self.expected_return == old(self).expected_return,
            decreases decl.params@.len() - i,
        {
            proof {
                lemma_tys_len(params@);
                assert(decl.params@.take(i + 1).drop_last() =~= decl.params@.take(i as int));
                assert(decl.params@.take(i + 1).last() == decl.params@[i as int]);
            }
            self.define(&decl.params[i].name, Binding { ty: params[i].copy(), mutable: true });
            i = i + 1;
        }
        proof { assert(decl.params@.take(decl.params@.len() as int) =~= decl.params@); }
        let mut slot: Option<HyperType> = Some(ret);
        std::mem::swap(&mut self.expected_return, &mut slot);
        assert(decreases_to!(decl => *decl.body));
        self.check_stmt(&decl.body);
        self.expected_return = slot;
        self.pop_scope();
    }
}

/// Type-checks a program.  Function declarations at the top level are
/// registered first, so calls may precede definitions.  Returns every
/// finding, in the order met.
pub fn typecheck(stmts: &Vec<Stmt>) -> (r: Result<(), Vec<String>>)
    ensures
        r matches Err(es) ==> es@.len() > 0,
        match r {
            Ok(_) => typecheck_spec(stmts@) == Ok::<(), Seq<Seq<char>>>(()),
            Err(es) => typecheck_spec(stmts@) == Err::<(), Seq<Seq<char>>>(names_of(es@)),
        },
{
    let mut tc = TypeChecker::new();
    tc.hoist_functions(stmts);
    let ghost c0 = tc.model();
    let mut i: usize = 0;
    proof { assert(stmts@.take(0) =~= Seq::<Stmt>::empty()); }
    while i < stmts.len()
        invariant
            i <= stmts@.len(),
            tc.wf(),
            c0 == hoist_spec(check_start(), stmts@),
            tc.model() == check_stmts_spec(c0, stmts@.take(i as int)),
        decreases stmts@.len() - i,
    {
        proof {
            assert(stmts@.take(i + 1).drop_last() =~= stmts@.take(i as int));
            assert(stmts@.take(i + 1).last() == stmts@[i as int]);
        }
        tc.check_stmt(&stmts[i]);
        i = i + 1;
    }
    proof { assert(stmts@.take(stmts@.len() as int) =~= stmts@); }
    if tc.errors.len() == 0 {
        Ok(())
    } else {
        Err(tc.errors)
    }
}

// ---------------------------------------------------------------------------
// What the checker computes

/// A scope as plain values: its bindings in order (name, type, whether
/// mutable) and the names declared without an annotation.
pub struct ScopeView {
    pub bindings: Seq<(Seq<char>, Ty, bool)>,
    pub inferred: Seq<Seq<char>>,
}

/// The checker's state as plain values: the scopes (innermost last), the
/// findings so far, the return type the current function declares, and the
/// struct and trait names met.
pub struct CheckView {
    pub scopes: Seq<ScopeView>,
    pub errors: Seq<Seq<char>>,
    pub expected_return: Option<Ty>,
    pub structs: Seq<Seq<char>>,
    pub traits: Seq<Seq<char>>,
}

pub open spec fn lookup_in(bs: Seq<(Seq<char>, Ty, bool)>, name: Seq<char>) -> Option<(Ty, bool)>
    decreases bs.len(),
{
    if bs.len() == 0 {
        None
    } else if bs.last().0 == name {
        Some((bs.last().1, bs.last().2))
    } else {
        lookup_in(bs.drop_last(), name)
    }
}

/// The innermost binding of `name`.
pub open spec fn lookup_scopes(ss: Seq<ScopeView>, name: Seq<char>) -> Option<(Ty, bool)>
    decreases ss.len(),
{
    if ss.len() == 0 {
        None
    } else {
        match lookup_in(ss.last().bindings, name) {
            Some(b) => Some(b),
            None => lookup_scopes(ss.drop_last(), name),
        }
    }
}

pub open spec fn c_lookup(c: CheckView, name: Seq<char>) -> Option<(Ty, bool)> {
    lookup_scopes(c.scopes, name)
}

/// `name` bound in the innermost scope.
pub open spec fn c_define(c: CheckView, name: Seq<char>, ty: Ty, mutable: bool) -> CheckView {
    let n = c.scopes.len() - 1;
    CheckView {
        scopes: c.scopes.update(n, ScopeView { bindings: c.scopes[n].bindings.push((name, ty, mutable)), ..c.scopes[n] }),
        ..c
    }
}

pub open spec fn c_push_scope(c: CheckView) -> CheckView {
    CheckView { scopes: c.scopes.push(ScopeView { bindings: seq![], inferred: seq![] }), ..c }
}

pub open spec fn c_pop_scope(c: CheckView) -> CheckView {
    CheckView { scopes: c.scopes.drop_last(), ..c }
}

/// A finding recorded.
pub open spec fn c_error(c: CheckView, m: Seq<char>) -> CheckView {
    CheckView { errors: c.errors.push(format_typecheck_spec(m)), ..c }
}

pub open spec fn without_name(s: Seq<Seq<char>>, name: Seq<char>) -> Seq<Seq<char>>
    decreases s.len(),
{
    if s.len() == 0 {
        s
    } else {
        let r = without_name(s.drop_last(), name);
        if s.last() == name { r } else { r.push(s.last()) }
    }
}

/// Whether the innermost scope counts `name` as declared without annotation.
pub open spec fn c_mark_inferred(c: CheckView, name: Seq<char>, inferred: bool) -> CheckView {
    let n = c.scopes.len() - 1;
    let sc = c.scopes[n];
    let inf = if inferred {
        if sc.inferred.contains(name) { sc.inferred } else { sc.inferred.push(name) }
    } else {
        without_name(sc.inferred, name)
    };
    CheckView { scopes: c.scopes.update(n, ScopeView { inferred: inf, ..sc }), ..c }
}

/// The index of the last binding of `name`.
pub open spec fn last_binding(bs: Seq<(Seq<char>, Ty, bool)>, name: Seq<char>) -> Option<int>
    decreases bs.len(),
{
    if bs.len() == 0 {
        None
    } else if bs.last().0 == name {
        Some(bs.len() - 1)
    } else {
        last_binding(bs.drop_last(), name)
    }
}

/// The index of the innermost scope that binds `name`.
pub open spec fn binding_scope(ss: Seq<ScopeView>, name: Seq<char>) -> Option<int>
    decreases ss.len(),
{
    if ss.len() == 0 {
        None
    } else if last_binding(ss.last().bindings, name) is Some {
        Some(ss.len() - 1)
    } else {
        binding_scope(ss.drop_last(), name)
    }
}

/// The innermost binding of `name` retyped to `ty` when that scope declared
/// it without annotation; whether that happened.
pub open spec fn c_widen(c: CheckView, name: Seq<char>, ty: Ty) -> (CheckView, bool) {
    match binding_scope(c.scopes, name) {
        Some(si) => {
            let sc = c.scopes[si];
            let h = last_binding(sc.bindings, name)->0;
            if sc.inferred.contains(name) {
                let b = sc.bindings[h];
                (CheckView {
                    scopes: c.scopes.update(si, ScopeView { bindings: sc.bindings.update(h, (b.0, ty, b.2)), ..sc }),
                    ..c
                }, true)
            } else {
                (c, false)
            }
        },
        None => (c, false),
    }
}

pub open spec fn operands_text(l: Ty, r: Ty) -> Seq<char> {
    ty_debug(l) + " and "@ + ty_debug(r) + "."@
}

/// The finding for operands an operator rejects.
pub open spec fn binary_message(op: BinOp, l: Ty, r: Ty) -> Seq<char> {
    match op {
        BinOp::Add => "Type error: '+' requires numeric or string operands, got "@ + operands_text(l, r),
        BinOp::Sub | BinOp::Mul | BinOp::Div | BinOp::Rem | BinOp::Pow =>
            "Type error: arithmetic '"@ + binop_text(op) + "' requires numeric operands, got "@ + operands_text(l, r),
        BinOp::Lt | BinOp::Le | BinOp::Gt | BinOp::Ge =>
            "Type error: comparison requires numeric, bool, or string operands, got "@ + operands_text(l, r),
        _ => "Type error: '"@ + binop_text(op) + "' requires bool-ish operands, got "@ + operands_text(l, r),
    }
}

pub open spec fn c_binary(c: CheckView, op: BinOp, l: Ty, r: Ty) -> (CheckView, Ty) {
    (if binary_rule(op, l, r).1 { c_error(c, binary_message(op, l, r)) } else { c }, binary_rule(op, l, r).0)
}

pub open spec fn arity_message(expected: nat, got: nat) -> Seq<char> {
    "Type error: expected "@ + decimal(expected) + " argument(s) but got "@ + decimal(got) + "."@
}

pub open spec fn argument_message(i: nat, p: Ty, a: Ty) -> Seq<char> {
    "Type error: argument "@ + decimal(i + 1) + " expected "@ + ty_debug(p) + ", got "@ + ty_debug(a) + "."@
}

/// One finding per argument among the first `n` that its parameter rejects.
pub open spec fn c_arguments(c: CheckView, ps: Seq<Ty>, args: Seq<Ty>, n: int) -> CheckView
    decreases n,
{
    if n <= 0 {
        c
    } else {
        let c1 = c_arguments(c, ps, args, n - 1);
        if !is_compatible(ps[n - 1], args[n - 1]) {
            c_error(c1, argument_message((n - 1) as nat, ps[n - 1], args[n - 1]))
        } else {
            c1
        }
    }
}

/// A call of a value of type `callee` with arguments of types `args`.
pub open spec fn c_call_result(c: CheckView, callee: Ty, args: Seq<Ty>) -> (CheckView, Ty) {
    match callee {
        Ty::Struct(_) => (c, callee),
        Ty::Function(ps, ret) => {
            let skip = all_any(ps) && ps.len() <= 1;
            if !skip && ps.len() != args.len() {
                (c_error(c, arity_message(ps.len(), args.len())), *ret)
            } else if !skip {
                (c_arguments(c, ps, args, ps.len() as int), *ret)
            } else {
                (c, *ret)
            }
        },
        _ => (c, Ty::Any),
    }
}

pub open spec fn undefined_text(name: Seq<char>) -> Seq<char> {
    "Error: Undefined variable '"@ + name + "'."@
}

/// The type of an expression and the checker after it.
pub open spec fn check_expr_spec(c: CheckView, e: Expr) -> (CheckView, Ty)
    decreases e,
{
    match e {
        Expr::Literal(lit) => (c, infer_literal_spec(lit)),
        Expr::Variable { name, line } => match c_lookup(c, name@) {
            Some((t, _)) => (c, t),
            None => if c.structs.contains(name@) {
                (c, Ty::Struct(name@))
            } else {
                (c_error(c, "[line "@ + decimal(line as nat) + "] Error: Undefined variable '"@ + name@ + "'."@), Ty::Any)
            },
        },
        Expr::Group(inner) => check_expr_spec(c, *inner),
        Expr::Unary { op, right } => {
            let (c1, rt) = check_expr_spec(c, *right);
            match op {
                UnaryOp::Neg => (if !is_numeric(rt) {
                    c_error(c1, "Type error: unary '-' requires a numeric operand, got "@ + ty_debug(rt) + "."@)
                } else {
                    c1
                }, rt),
                UnaryOp::Not => (c1, Ty::Bool),
            }
        },
        Expr::Binary { op, left, right } => {
            let (c1, lt) = check_expr_spec(c, *left);
            let (c2, rt) = check_expr_spec(c1, *right);
            c_binary(c2, op, lt, rt)
        },
        Expr::Assign { name, value } => {
            let (c1, vt) = check_expr_spec(c, *value);
            match c_lookup(c1, name@) {
                Some((bt, bmut)) => if !bmut {
                    (c_error(c1, "Error: Cannot reassign immutable variable '"@ + name@
                        + "'. Use 'let mut' to make it mutable."@), bt)
                } else if !is_compatible(bt, vt) && !is_any(bt) {
                    let w = if is_numeric(bt) && is_numeric(vt) { c_widen(c1, name@, vt) } else { (c1, false) };
                    let c3 = if !w.1 && !is_any(vt) {
                        c_error(w.0, "Type error: cannot assign "@ + ty_debug(vt) + " to '"@ + name@ + "' of type "@
                            + ty_debug(bt) + "."@)
                    } else {
                        w.0
                    };
                    (c3, if w.1 { vt } else { bt })
                } else {
                    (c1, bt)
                },
                None => (c_error(c1, undefined_text(name@)), Ty::Any),
            }
        },
        Expr::GetField { object, .. } => (if c_lookup(c, object@) is None && !c.structs.contains(object@) {
            c_error(c, undefined_text(object@))
        } else {
            c
        }, Ty::Any),
        Expr::SetField { object, value, .. } => {
            let c1 = if c_lookup(c, object@) is None { c_error(c, undefined_text(object@)) } else { c };
            (check_expr_spec(c1, *value).0, Ty::Any)
        },
        Expr::Call { callee, args } => {
            let (c1, ct) = check_expr_spec(c, *callee);
            let (c2, tys) = check_args_spec(c1, args@);
            c_call_result(c2, ct, tys)
        },
        Expr::CallMethod { object, args, .. } => {
            let c1 = if c_lookup(c, object@) is None { c_error(c, undefined_text(object@)) } else { c };
            (check_exprs_spec(c1, args@), Ty::Any)
        },
        Expr::List(items) => {
            let (c1, elem) = check_items_spec(c, items@);
            (c1, Ty::List(Box::new(elem)))
        },
        Expr::Dict(entries) => (check_entries_spec(c, entries@), Ty::Dict),
        Expr::Index { object, index } => {
            let (c1, ot) = check_expr_spec(c, *object);
            let c2 = check_expr_spec(c1, *index).0;
            match ot {
                Ty::List(inner) => (c2, *inner),
                Ty::Array(inner) => (c2, *inner),
                Ty::Dict => (c2, Ty::Any),
                Ty::Str => (c2, Ty::Str),
                Ty::Any => (c2, Ty::Any),
                other => (c_error(c2, "Type error: cannot index value of type "@ + ty_debug(other) + "."@), Ty::Any),
            }
        },
        Expr::IndexSet { object, index, value } => {
            let c1 = check_expr_spec(c, *object).0;
            let c2 = check_expr_spec(c1, *index).0;
            check_expr_spec(c2, *value)
        },
        Expr::FString { parts, .. } => (check_parts_spec(c, parts@), Ty::Str),
        Expr::Ternary { condition, then_branch, else_branch } => {
            let c1 = check_expr_spec(c, *condition).0;
            let (c2, tt) = check_expr_spec(c1, *then_branch);
            let (c3, et) = check_expr_spec(c2, *else_branch);
            (c3, if is_compatible(tt, et) || is_compatible(et, tt) {
                if is_numeric(tt) && is_numeric(et) { widen_numeric(tt, et) } else { tt }
            } else {
                Ty::Any
            })
        },
    }
}

/// Expressions checked in order, their types dropped.
pub open spec fn check_exprs_spec(c: CheckView, es: Seq<Expr>) -> CheckView
    decreases es,
{
    if es.len() == 0 {
        c
    } else {
        check_expr_spec(check_exprs_spec(c, es.drop_last()), es.last()).0
    }
}

/// List items checked in order, and the element type they agree on: the
/// first item's, widened by each compatible one, `Any` after a clash.
pub open spec fn check_items_spec(c: CheckView, es: Seq<Expr>) -> (CheckView, Ty)
    decreases es,
{
    if es.len() == 0 {
        (c, Ty::Any)
    } else {
        let (c1, elem) = check_items_spec(c, es.drop_last());
        let (c2, t) = check_expr_spec(c1, es.last());
        (c2, if es.len() == 1 {
            t
        } else if !is_compatible(elem, t) && !is_compatible(t, elem) {
            Ty::Any
        } else {
            widen_numeric(elem, t)
        })
    }
}

pub open spec fn check_entries_spec(c: CheckView, es: Seq<(Expr, Expr)>) -> CheckView
    decreases es,
{
    if es.len() == 0 {
        c
    } else {
        let c1 = check_entries_spec(c, es.drop_last());
        check_expr_spec(check_expr_spec(c1, es.last().0).0, es.last().1).0
    }
}

pub open spec fn check_parts_spec(c: CheckView, ps: Seq<FStringPart>) -> CheckView
    decreases ps,
{
    if ps.len() == 0 {
        c
    } else {
        let c1 = check_parts_spec(c, ps.drop_last());
        match ps.last() {
            FStringPart::Expr(e) => check_expr_spec(c1, e).0,
            _ => c1,
        }
    }
}

/// Call arguments checked in order (a named one by its value), with their types.
pub open spec fn check_args_spec(c: CheckView, args: Seq<CallArg>) -> (CheckView, Seq<Ty>)
    decreases args,
{
    if args.len() == 0 {
        (c, seq![])
    } else {
        let (c1, ts) = check_args_spec(c, args.drop_last());
        let (c2, t) = match args.last() {
            CallArg::Positional(e) => check_expr_spec(c1, e),
            CallArg::Named { value, .. } => check_expr_spec(c1, value),
        };
        (c2, ts.push(t))
    }
}

/// The type an annotation names.
pub open spec fn ann_ty(c: CheckView, ann: TypeAnn) -> Ty {
    match ann {
        TypeAnn::Unannotated => Ty::Any,
        TypeAnn::Named(n) => resolve_name(n@, c.structs, c.traits),
        TypeAnn::Array { inner } => Ty::Array(Box::new(resolve_name(inner@, c.structs, c.traits))),
        TypeAnn::Dict { .. } => Ty::Dict,
    }
}

/// The type an optional annotation names, `Any` without one.
pub open spec fn opt_ty(c: CheckView, t: Option<String>) -> Ty {
    match t {
        Some(n) => resolve_name(n@, c.structs, c.traits),
        None => Ty::Any,
    }
}

pub open spec fn param_tys(c: CheckView, ps: Seq<Param>) -> Seq<Ty> {
    ps.map_values(|p: Param| opt_ty(c, p.type_ann))
}

/// The signature of a function as a type.
pub open spec fn fn_ty(c: CheckView, d: FunctionDecl) -> Ty {
    Ty::Function(param_tys(c, d.params@), Box::new(opt_ty(c, d.return_type)))
}

/// The functions among `ss` declared by their signatures.
pub open spec fn hoist_spec(c: CheckView, ss: Seq<Stmt>) -> CheckView
    decreases ss.len(),
{
    if ss.len() == 0 {
        c
    } else {
        let c1 = hoist_spec(c, ss.drop_last());
        match ss.last() {
            Stmt::Function(d) => c_define(c1, d.name@, fn_ty(c1, d), false),
            _ => c1,
        }
    }
}

/// Parameters bound, mutable, with their types.
pub open spec fn bind_params(c: CheckView, ps: Seq<Param>, tys: Seq<Ty>) -> CheckView
    decreases ps.len(),
{
    if ps.len() == 0 {
        c
    } else {
        c_define(bind_params(c, ps.drop_last(), tys), ps.last().name@, tys[ps.len() - 1], true)
    }
}

/// A function: bound by its signature, then its body checked in a scope of
/// its own with the parameters bound and its return type expected.
pub open spec fn check_function_spec(c: CheckView, d: FunctionDecl) -> CheckView
    decreases d,
{
    let c1 = c_push_scope(c_define(c, d.name@, fn_ty(c, d), false));
    let c2 = bind_params(c1, d.params@, param_tys(c, d.params@));
    let c3 = check_stmt_spec(CheckView { expected_return: Some(opt_ty(c, d.return_type)), ..c2 }, *d.body);
    c_pop_scope(CheckView { expected_return: c.expected_return, ..c3 })
}

/// The checker after a statement.
pub open spec fn check_stmt_spec(c: CheckView, s: Stmt) -> CheckView
    decreases s,
{
    match s {
        Stmt::Let { line, is_mutable, name, type_ann, initializer } => {
            let (c1, it) = check_expr_spec(c, initializer);
            let unannotated = type_ann is Unannotated;
            let ann = ann_ty(c1, type_ann);
            let c2 = if !unannotated && !is_compatible(ann, it) && !expr_fits_type_spec(initializer, ann) {
                c_error(c1, "[line "@ + decimal(line as nat) + "] Type error: cannot initialize '"@ + name@
                    + "' of type "@ + ty_debug(ann) + " with "@ + ty_debug(it) + "."@)
            } else {
                c1
            };
            let declared = if unannotated || is_any(ann) { it } else { ann };
            c_mark_inferred(c_define(c2, name@, declared, is_mutable), name@, unannotated)
        },
        Stmt::Print { values, .. } => check_exprs_spec(c, values@),
        Stmt::Expr { expr, .. } => check_expr_spec(c, expr).0,
        Stmt::Block(stmts) => c_pop_scope(check_stmts_spec(hoist_spec(c_push_scope(c), stmts@), stmts@)),
        Stmt::If { condition, then_branch, else_branch } => {
            let c2 = check_stmt_spec(check_expr_spec(c, condition).0, *then_branch);
            match else_branch {
                Some(e) => check_stmt_spec(c2, *e),
                None => c2,
            }
        },
        Stmt::While { condition, body, .. } => check_stmt_spec(check_expr_spec(c, condition).0, *body),
        Stmt::For { var, iter, body, .. } => {
            let c1 = match iter {
                ForIter::Range { start, end } => {
                    let (ca, st) = check_expr_spec(c, start);
                    let (cb, et) = check_expr_spec(ca, end);
                    let cc = if !is_numeric(st) {
                        c_error(cb, "Type error: for-loop start must be numeric, got "@ + ty_debug(st) + "."@)
                    } else {
                        cb
                    };
                    let cd = if !is_numeric(et) {
                        c_error(cc, "Type error: for-loop end must be numeric, got "@ + ty_debug(et) + "."@)
                    } else {
                        cc
                    };
                    c_define(c_push_scope(cd), var@, Ty::I64, false)
                },
                ForIter::Iterable(it) => {
                    let (ca, t) = check_expr_spec(c, it);
                    let (cb, elem) = match t {
                        Ty::List(inner) => (ca, *inner),
                        Ty::Array(inner) => (ca, *inner),
                        Ty::Any => (ca, Ty::Any),
                        other => (c_error(ca, "Type error: for-in iterable must be a list, got "@ + ty_debug(other) + "."@), Ty::Any),
                    };
                    c_define(c_push_scope(cb), var@, elem, false)
                },
            };
            c_pop_scope(check_stmt_spec(c1, *body))
        },
        Stmt::Function(d) => check_function_spec(c, d),
        Stmt::Return { line, value } => {
            let (c1, vt) = check_expr_spec(c, value);
            match c1.expected_return {
                Some(exp) => if !is_compatible(exp, vt) && !is_any(exp) && !((vt matches Ty::Any) || (vt matches Ty::NoneType)) {
                    c_error(c1, "[line "@ + decimal(line as nat) + "] Type error: return type "@ + ty_debug(vt)
                        + " is not compatible with "@ + ty_debug(exp) + "."@)
                } else {
                    c1
                },
                None => c1,
            }
        },
        Stmt::Struct { name, methods, .. } => {
            let c1 = if c.structs.contains(name@) { c } else { CheckView { structs: c.structs.push(name@), ..c } };
            check_methods_spec(c_define(c1, name@, Ty::Struct(name@), false), methods@)
        },
        Stmt::Trait { name, methods } => {
            let c1 = if c.traits.contains(name@) { c } else { CheckView { traits: c.traits.push(name@), ..c } };
            declare_sigs_spec(c_define(c1, name@, Ty::Trait(name@), false), methods@)
        },
        Stmt::WithMmap { path, var, body, .. } => {
            let c1 = check_expr_spec(c, path).0;
            c_pop_scope(check_stmt_spec(c_define(c_push_scope(c1), var@, Ty::Mmap, false), *body))
        },
        Stmt::Import { module, alias, .. } => c_define(c, match alias {
            Some(a) => a@,
            None => module@,
        }, Ty::Any, false),
        Stmt::ImportFrom { names, .. } => import_names_spec(c, names@),
    }
}

pub open spec fn check_stmts_spec(c: CheckView, ss: Seq<Stmt>) -> CheckView
    decreases ss,
{
    if ss.len() == 0 {
        c
    } else {
        check_stmt_spec(check_stmts_spec(c, ss.drop_last()), ss.last())
    }
}

pub open spec fn check_methods_spec(c: CheckView, ms: Seq<MethodDecl>) -> CheckView
    decreases ms,
{
    if ms.len() == 0 {
        c
    } else {
        check_function_spec(check_methods_spec(c, ms.drop_last()), ms.last().function)
    }
}

/// Trait methods bound by their signatures.
pub open spec fn declare_sigs_spec(c: CheckView, ds: Seq<FunctionDecl>) -> CheckView
    decreases ds.len(),
{
    if ds.len() == 0 {
        c
    } else {
        let c1 = declare_sigs_spec(c, ds.drop_last());
        c_define(c1, ds.last().name@, fn_ty(c1, ds.last()), false)
    }
}

pub open spec fn import_names_spec(c: CheckView, ns: Seq<ImportName>) -> CheckView
    decreases ns.len(),
{
    if ns.len() == 0 {
        c
    } else {
        let c1 = import_names_spec(c, ns.drop_last());
        c_define(c1, match ns.last().alias {
            Some(a) => a@,
            None => ns.last().name@,
        }, Ty::Any, false)
    }
}

/// The scope a program starts with: the builtins `print`, `input`, `clock`
/// and `open`.
pub open spec fn builtin_scope() -> ScopeView {
    ScopeView {
        bindings: seq![
            ("print"@, Ty::Function(seq![Ty::Any], Box::new(Ty::NoneType)), false),
            ("input"@, Ty::Function(seq![Ty::Any], Box::new(Ty::Str)), false),
            ("clock"@, Ty::Function(seq![], Box::new(Ty::F64)), false),
            ("open"@, Ty::Function(seq![Ty::Any], Box::new(Ty::File)), false),
        ],
        inferred: seq![],
    }
}

pub open spec fn check_start() -> CheckView {
    CheckView { scopes: seq![builtin_scope()], errors: seq![], expected_return: None, structs: seq![], traits: seq![] }
}

/// What checking a program gives: every finding in the order met, or none.
pub open spec fn typecheck_spec(stmts: Seq<Stmt>) -> Result<(), Seq<Seq<char>>> {
    let c = check_stmts_spec(hoist_spec(check_start(), stmts), stmts);
    if c.errors.len() == 0 { Ok(()) } else { Err(c.errors) }
}

} // verus!
