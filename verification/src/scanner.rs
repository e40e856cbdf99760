//! The scanner: turns source text into tokens, tracking indentation with a
//! stack of column widths and emitting `Indent` / `Dedent` tokens around
//! indented blocks.

use vstd::prelude::*;
use crate::text::{chars_of, chars_is, append_chars, string_from_chars};
use crate::error::{ErrorKind, format_error_spec, format_error_chars};

verus! {

#[derive(Clone, Copy, Debug, PartialEq, Eq, Structural)]
pub enum TokenType {
    Indent,
    Dedent,
    Newline,

    LeftParen,
    RightParen,
    LeftBrace,
    RightBrace,
    LeftBracket,
    RightBracket,

    Colon,
    Comma,
    Dot,
    Minus,
    Plus,
    Semicolon,
    Slash,
    Star,
    StarStar,
    Percent,

    PlusEqual,
    MinusEqual,
    StarEqual,
    StarStarEqual,
    SlashEqual,
    PercentEqual,

    Bang,
    BangEqual,
    Equal,
    EqualEqual,
    Greater,
    GreaterEqual,
    Less,
    LessEqual,

    TypeI8, TypeI16, TypeI32, TypeI64,
    TypeU8, TypeU16, TypeU32, TypeU64,
    TypeF32, TypeF64,
    TypeString, TypeBool,

    Identifier,
    String,
    FString,
    Number,
    NoneKeyword,

    Struct,
    Trait,
    Pub,

    True,
    False,
    And,
    Or,
    Not,

    If,
    Elif,
    Else,
    Def,
    Fn,
    Ref,
    Arrow,
    While,
    For,
    In,
    Range,
    Print,
    Input,
    Return,

    Array,
    Dict,

    With,
    As,
    OpenMmap,
    ReadChunk,

    Import,
    From,

    At,
    Let,
    Mut,
    EOF,
}

/// One token: its kind, the text it was scanned from, its literal value
/// (`null` when it has none) and the line it ends on.
#[derive(Debug)]
pub struct Token {
    pub token_type: TokenType,
    pub lexeme: String,
    pub literal: String,
    pub line: usize,
}

/// A token seen as plain values.
pub struct TokenView {
    pub token_type: TokenType,
    pub lexeme: Seq<char>,
    pub literal: Seq<char>,
    pub line: nat,
}

impl View for Token {
    type V = TokenView;

    open spec fn view(&self) -> TokenView {
        TokenView {
            token_type: self.token_type,
            lexeme: self.lexeme@,
            literal: self.literal@,
            line: self.line as nat,
        }
    }
}

impl Token {
    /// A copy of this token.
    pub fn duplicate(&self) -> (r: Token)
        ensures
            r@ == self@,
    {
        Token {
            token_type: self.token_type,
            lexeme: self.lexeme.clone(),
            literal: self.literal.clone(),
            line: self.line,
        }
    }
}

// ---------------------------------------------------------------------------
// Character classes

pub open spec fn is_digit(c: char) -> bool {
    '0' <= c <= '9'
}

pub open spec fn is_digit_or_underscore(c: char) -> bool {
    is_digit(c) || c == '_'
}

pub open spec fn is_ident_start(c: char) -> bool {
    ('a' <= c <= 'z') || ('A' <= c <= 'Z') || c == '_'
}

pub open spec fn is_ident_char(c: char) -> bool {
    ('a' <= c <= 'z') || ('A' <= c <= 'Z') || ('0' <= c <= '9') || c == '_'
}

// ---------------------------------------------------------------------------
// Number literals

/// End of the run of digits and underscores that starts at `i`.
pub open spec fn digit_run_end(s: Seq<char>, i: int) -> int
    decreases s.len() - i,
{
    if 0 <= i < s.len() && is_digit_or_underscore(s[i]) {
        digit_run_end(s, i + 1)
    } else {
        i
    }
}

/// End of a number literal whose first digit stands just before `i`: the
/// integer digits, then a fraction when a `.` is followed by a digit.
pub open spec fn number_end(s: Seq<char>, i: int) -> int {
    let e = digit_run_end(s, i);
    if e + 1 < s.len() && s[e] == '.' && is_digit(s[e + 1]) {
        digit_run_end(s, e + 1)
    } else {
        e
    }
}

/// The characters of `s` without its underscores.
pub open spec fn drop_underscores(s: Seq<char>) -> Seq<char>
    decreases s.len(),
{
    if s.len() == 0 {
        s
    } else if s.last() == '_' {
        drop_underscores(s.drop_last())
    } else {
        drop_underscores(s.drop_last()).push(s.last())
    }
}

/// The text of a number literal that starts with `first` and continues at `i`.
pub open spec fn number_text(first: char, s: Seq<char>, i: int) -> Seq<char> {
    seq![first] + drop_underscores(s.subrange(i, number_end(s, i)))
}

proof fn lemma_digit_run_end_bounds(s: Seq<char>, i: int)
    requires
        0 <= i <= s.len(),
    ensures
        i <= digit_run_end(s, i) <= s.len(),
        forall|k: int| i <= k < digit_run_end(s, i) ==> is_digit_or_underscore(#[trigger] s[k]),
        digit_run_end(s, i) < s.len() ==> !is_digit_or_underscore(s[digit_run_end(s, i)]),
    decreases s.len() - i,
{
    if i < s.len() && is_digit_or_underscore(s[i]) {
        lemma_digit_run_end_bounds(s, i + 1);
    }
}

proof fn lemma_drop_underscores_push(s: Seq<char>, c: char)
    ensures
        drop_underscores(s.push(c)) == if c == '_' {
            drop_underscores(s)
        } else {
            drop_underscores(s).push(c)
        },
{
    assert(s.push(c).drop_last() == s);
}

/// Scans the digits (and fraction) of a number literal whose first digit,
/// `first`, has been consumed; `pos` is where the rest begins.  Returns the
/// literal text without underscores and the position after it.
pub fn num_literals(first: char, chars: &Vec<char>, pos: usize) -> (r: (String, usize))
    requires
        pos <= chars@.len(),
    ensures
        r.1 == number_end(chars@, pos as int),
        r.0@ == number_text(first, chars@, pos as int),
{
    let (text, end) = scan_number(first, chars, pos);
    (string_from_chars(text), end)
}

fn digit_run(chars: &Vec<char>, start: usize, out: &mut Vec<char>) -> (end: usize)
    requires
        start <= chars@.len(),
    ensures
        end == digit_run_end(chars@, start as int),
        final(out)@ == old(out)@ + drop_underscores(chars@.subrange(start as int, end as int)),
{
    proof { lemma_digit_run_end_bounds(chars@, start as int); }
    let mut i = start;
    while i < chars.len() && (('0' <= chars[i] && chars[i] <= '9') || chars[i] == '_')
        invariant
            start <= i <= chars@.len(),
            digit_run_end(chars@, i as int) == digit_run_end(chars@, start as int),
            out@ == old(out)@ + drop_underscores(chars@.subrange(start as int, i as int)),
        decreases chars@.len() - i,
    {
        let c = chars[i];
        if c != '_' {
            out.push(c);
        }
        proof {
            lemma_drop_underscores_push(chars@.subrange(start as int, i as int), c);
            assert(chars@.subrange(start as int, i + 1) == chars@.subrange(start as int, i as int).push(c));
        }
        i = i + 1;
    }
    i
}

fn scan_number(first: char, chars: &Vec<char>, pos: usize) -> (r: (Vec<char>, usize))
    requires
        pos <= chars@.len(),
    ensures
        r.1 == number_end(chars@, pos as int),
        r.0@ == number_text(first, chars@, pos as int),
{
    let mut out: Vec<char> = Vec::new();
    out.push(first);
    let e = digit_run(chars, pos, &mut out);
    proof { lemma_digit_run_end_bounds(chars@, pos as int); }
    if e < chars.len() && e + 1 < chars.len() && chars[e] == '.' && '0' <= chars[e + 1] && chars[e + 1] <= '9' {
        let ghost mid = out@;
        out.push('.');
        proof {
            lemma_drop_underscores_push(chars@.subrange(pos as int, e as int), '.');
            assert(chars@.subrange(pos as int, e + 1) == chars@.subrange(pos as int, e as int).push('.'));
        }
        let end = digit_run(chars, e + 1, &mut out);
        proof {
            lemma_digit_run_end_bounds(chars@, e + 1);
            lemma_drop_underscores_concat(chars@.subrange(pos as int, e + 1), chars@.subrange(e + 1, end as int));
            assert(chars@.subrange(pos as int, e + 1) + chars@.subrange(e + 1, end as int)
                == chars@.subrange(pos as int, end as int));
        }
        (out, end)
    } else {
        (out, e)
    }
}

proof fn lemma_drop_underscores_concat(a: Seq<char>, b: Seq<char>)
    ensures
        drop_underscores(a + b) == drop_underscores(a) + drop_underscores(b),
    decreases b.len(),
{
    if b.len() == 0 {
        assert(a + b == a);
        assert(drop_underscores(a) + drop_underscores(b) == drop_underscores(a));
    } else {
        lemma_drop_underscores_concat(a, b.drop_last());
        assert((a + b).drop_last() == a + b.drop_last());
        assert((a + b).last() == b.last());
    }
}

/// Leading zeros removed, but never the last digit.
pub open spec fn strip_leading_zeros(s: Seq<char>) -> Seq<char>
    decreases s.len(),
{
    if s.len() > 1 && s[0] == '0' {
        strip_leading_zeros(s.drop_first())
    } else if s.len() == 0 {
        seq!['0']
    } else {
        s
    }
}

/// Trailing zeros removed, but never the first digit.
pub open spec fn strip_trailing_zeros(s: Seq<char>) -> Seq<char>
    decreases s.len(),
{
    if s.len() > 1 && s.last() == '0' {
        strip_trailing_zeros(s.drop_last())
    } else if s.len() == 0 {
        seq!['0']
    } else {
        s
    }
}


// ---------------------------------------------------------------------------
// Number literal values

/// First index at or after `i` that holds `c`, or the length when none does.
pub open spec fn find_from(s: Seq<char>, c: char, i: int) -> int
    decreases s.len() - i,
{
    if i < 0 || i >= s.len() {
        s.len() as int
    } else if s[i] == c {
        i
    } else {
        find_from(s, c, i + 1)
    }
}

/// The literal value recorded for a number token: integers as written;
/// decimals with leading zeros of the integer part and trailing zeros of
/// the fraction removed, one digit kept on each side of the point.
pub open spec fn number_literal_value(text: Seq<char>) -> Seq<char> {
    let dot = find_from(text, '.', 0);
    if dot < text.len() {
        strip_leading_zeros(text.subrange(0, dot)) + seq!['.']
            + strip_trailing_zeros(text.subrange(dot + 1, text.len() as int))
    } else {
        text
    }
}

proof fn lemma_find_from_bounds(s: Seq<char>, c: char, i: int)
    requires
        0 <= i <= s.len(),
    ensures
        i <= find_from(s, c, i) <= s.len(),
        find_from(s, c, i) < s.len() ==> s[find_from(s, c, i)] == c,
        forall|k: int| i <= k < find_from(s, c, i) ==> s[k] != c,
    decreases s.len() - i,
{
    if i < s.len() && s[i] != c {
        lemma_find_from_bounds(s, c, i + 1);
    }
}

fn find_char(s: &Vec<char>, c: char) -> (r: usize)
    ensures
        r == find_from(s@, c, 0),
{
    let mut i: usize = 0;
    while i < s.len() && s[i] != c
        invariant
            i <= s@.len(),
            find_from(s@, c, i as int) == find_from(s@, c, 0),
        decreases s@.len() - i,
    {
        i = i + 1;
    }
    i
}

fn copy_range(s: &Vec<char>, from: usize, to: usize) -> (r: Vec<char>)
    requires
        from <= to <= s@.len(),
    ensures
        r@ == s@.subrange(from as int, to as int),
{
    let mut out: Vec<char> = Vec::new();
    let mut i = from;
    while i < to
        invariant
            from <= i <= to <= s@.len(),
            out@ == s@.subrange(from as int, i as int),
        decreases to - i,
    {
        out.push(s[i]);
        i = i + 1;
        assert(s@.subrange(from as int, i as int) == s@.subrange(from as int, i - 1).push(s@[i - 1]));
    }
    out
}

fn strip_leading(s: &Vec<char>) -> (r: Vec<char>)
    ensures
        r@ == strip_leading_zeros(s@),
{
    if s.len() == 0 {
        let mut out: Vec<char> = Vec::new();
        out.push('0');
        return out;
    }
    let mut start: usize = 0;
    assert(s@.subrange(0, s@.len() as int) == s@);
    while start < s.len() - 1 && s[start] == '0'
        invariant
            start < s@.len(),
            strip_leading_zeros(s@.subrange(start as int, s@.len() as int)) == strip_leading_zeros(s@),
        decreases s@.len() - start,
    {
        assert(s@.subrange(start as int, s@.len() as int).drop_first()
            == s@.subrange(start + 1, s@.len() as int));
        start = start + 1;
    }
    assert(s@.subrange(0, s@.len() as int) == s@);
    copy_range(s, start, s.len())
}

fn strip_trailing(s: &Vec<char>) -> (r: Vec<char>)
    ensures
        r@ == strip_trailing_zeros(s@),
{
    if s.len() == 0 {
        let mut out: Vec<char> = Vec::new();
        out.push('0');
        return out;
    }
    let mut end: usize = s.len();
    assert(s@.subrange(0, s@.len() as int) == s@);
    while end > 1 && s[end - 1] == '0'
        invariant
            0 < end <= s@.len(),
            strip_trailing_zeros(s@.subrange(0, end as int)) == strip_trailing_zeros(s@),
        decreases end,
    {
        assert(s@.subrange(0, end as int).drop_last() == s@.subrange(0, end - 1));
        end = end - 1;
    }
    assert(s@.subrange(0, s@.len() as int) == s@);
    copy_range(s, 0, end)
}

/// The literal value of a number token scanned as `text`.
pub fn number_literal(text: &Vec<char>) -> (r: Vec<char>)
    ensures
        r@ == number_literal_value(text@),
{
    let dot = find_char(text, '.');
    proof { lemma_find_from_bounds(text@, '.', 0); }
    if dot < text.len() {
        let int_part = copy_range(text, 0, dot);
        let frac = copy_range(text, dot + 1, text.len());
        let mut out = strip_leading(&int_part);
        out.push('.');
        let f = strip_trailing(&frac);
        append_chars(&mut out, &f);
        out
    } else {
        copy_range(text, 0, text.len())
    }
}

// ---------------------------------------------------------------------------
// String literals

/// What an escape sequence `\c` stands for inside a string literal.
pub open spec fn escape_value(c: char) -> Seq<char> {
    if c == 'n' {
        seq!['\n']
    } else if c == 't' {
        seq!['\t']
    } else if c == '"' {
        seq!['"']
    } else if c == '\\' {
        seq!['\\']
    } else {
        seq!['\\', c]
    }
}

/// The outcome of scanning a string body: whether a closing quote was found,
/// the decoded text, where scanning stopped and how many unescaped line
/// breaks it passed.
pub struct StringScan {
    pub closed: bool,
    pub content: Seq<char>,
    pub end: int,
    pub newlines: nat,
}

/// Scans a string body starting at `i` (just after the opening quote).
pub open spec fn string_scan(s: Seq<char>, i: int) -> StringScan
    decreases s.len() - i,
{
    if i < 0 || i >= s.len() {
        StringScan { closed: false, content: seq![], end: s.len() as int, newlines: 0 }
    } else if s[i] == '\\' {
        if i + 1 < s.len() {
            let rest = string_scan(s, i + 2);
            StringScan { content: escape_value(s[i + 1]) + rest.content, ..rest }
        } else {
            StringScan { closed: false, content: seq![], end: s.len() as int, newlines: 0 }
        }
    } else if s[i] == '"' {
        StringScan { closed: true, content: seq![], end: i + 1, newlines: 0 }
    } else {
        let rest = string_scan(s, i + 1);
        StringScan {
            content: seq![s[i]] + rest.content,
            newlines: if s[i] == '\n' { rest.newlines + 1 } else { rest.newlines },
            ..rest
        }
    }
}

proof fn lemma_string_scan_end(s: Seq<char>, i: int)
    requires
        0 <= i <= s.len(),
    ensures
        i <= string_scan(s, i).end <= s.len(),
        !string_scan(s, i).closed ==> string_scan(s, i).end == s.len(),
        string_scan(s, i).newlines <= string_scan(s, i).end - i,
        string_scan(s, i).closed ==> string_scan(s, i).content.len() + 1 <= string_scan(s, i).end - i,
    decreases s.len() - i,
{
    if i < s.len() {
        if s[i] == '\\' {
            if i + 1 < s.len() {
                lemma_string_scan_end(s, i + 2);
            }
        } else if s[i] != '"' {
            lemma_string_scan_end(s, i + 1);
        }
    }
}

/// Scans a string literal body that starts at `pos`, just after its opening
/// quote.  Escapes `\n`, `\t`, `\"` and `\\` are decoded; any other escape is
/// kept as written.  `line` advances past every unescaped line break.
/// Returns the decoded text when a closing quote is found, and the position
/// where scanning stopped (the end of input when it is not).
pub fn str_literals(chars: &Vec<char>, pos: usize, line: &mut usize) -> (r: (Option<String>, usize))
    requires
        pos <= chars@.len(),
        *old(line) + chars@.len() <= usize::MAX,
    ensures
        r.0 is Some == string_scan(chars@, pos as int).closed,
        r.0 matches Some(s) ==> s@ == string_scan(chars@, pos as int).content,
        r.1 == string_scan(chars@, pos as int).end,
        *final(line) == *old(line) + string_scan(chars@, pos as int).newlines,
{
    let (content, end, closed) = scan_string_body(chars, pos, line);
    if closed {
        (Some(string_from_chars(content)), end)
    } else {
        (Option::None, end)
    }
}

fn scan_string_body(chars: &Vec<char>, pos: usize, line: &mut usize) -> (r: (Vec<char>, usize, bool))
    requires
        pos <= chars@.len(),
        *old(line) + chars@.len() <= usize::MAX,
    ensures
        r.2 == string_scan(chars@, pos as int).closed,
        r.2 ==> r.0@ == string_scan(chars@, pos as int).content,
        r.1 == string_scan(chars@, pos as int).end,
        *final(line) == *old(line) + string_scan(chars@, pos as int).newlines,
{
    let mut out: Vec<char> = Vec::new();
    let mut i = pos;
    let ghost whole = string_scan(chars@, pos as int);
    proof { lemma_string_scan_end(chars@, pos as int); }
    loop
        invariant
            pos <= i <= chars@.len(),
            whole == string_scan(chars@, pos as int),
            *line + chars@.len() - i <= usize::MAX,
            ({
                let rest = string_scan(chars@, i as int);
                &&& whole.closed == rest.closed
                &&& whole.end == rest.end
                &&& whole.content == out@ + rest.content
                &&& *old(line) + whole.newlines == *line + rest.newlines
            }),
        decreases chars@.len() - i,
    {
        proof { lemma_string_scan_end(chars@, i as int); }
        if i >= chars.len() {
            return (out, chars.len(), false);
        }
        let c = chars[i];
        if c == '\\' {
            if i + 1 < chars.len() {
                let e = chars[i + 1];
                let ghost before = out@;
                if e == 'n' {
                    out.push('\n');
                } else if e == 't' {
                    out.push('\t');
                } else if e == '"' {
                    out.push('"');
                } else if e == '\\' {
                    out.push('\\');
                } else {
                    out.push('\\');
                    out.push(e);
                }
                assert(out@ == before + escape_value(e));
                i = i + 2;
            } else {
                return (out, chars.len(), false);
            }
        } else if c == '"' {
            return (out, i + 1, true);
        } else {
            if c == '\n' {
                *line = *line + 1;
            }
            out.push(c);
            i = i + 1;
        }
    }
}

// ---------------------------------------------------------------------------
// Keywords

/// The token type of an identifier-shaped word: its keyword, or `Identifier`.
pub open spec fn keyword_type(s: Seq<char>) -> TokenType {
    if s == "true"@ {
        TokenType::True
    } else if s == "false"@ {
        TokenType::False
    } else if s == "and"@ {
        TokenType::And
    } else if s == "or"@ {
        TokenType::Or
    } else if s == "not"@ {
        TokenType::Not
    } else if s == "None"@ {
        TokenType::NoneKeyword
    } else if s == "struct"@ {
        TokenType::Struct
    } else if s == "trait"@ {
        TokenType::Trait
    } else if s == "pub"@ {
        TokenType::Pub
    } else if s == "if"@ {
        TokenType::If
    } else if s == "elif"@ {
        TokenType::Elif
    } else if s == "else"@ {
        TokenType::Else
    } else if s == "while"@ {
        TokenType::While
    } else if s == "for"@ {
        TokenType::For
    } else if s == "in"@ {
        TokenType::In
    } else if s == "range"@ {
        TokenType::Range
    } else if s == "def"@ {
        TokenType::Def
    } else if s == "fn"@ {
        TokenType::Fn
    } else if s == "ref"@ {
        TokenType::Ref
    } else if s == "return"@ {
        TokenType::Return
    } else if s == "print"@ {
        TokenType::Print
    } else if s == "input"@ {
        TokenType::Input
    } else if s == "array"@ {
        TokenType::Array
    } else if s == "Array"@ {
        TokenType::Array
    } else if s == "dict"@ {
        TokenType::Dict
    } else if s == "Dict"@ {
        TokenType::Dict
    } else if s == "with"@ {
        TokenType::With
    } else if s == "as"@ {
        TokenType::As
    } else if s == "open_mmap"@ {
        TokenType::OpenMmap
    } else if s == "read_chunk"@ {
        TokenType::ReadChunk
    } else if s == "import"@ {
        TokenType::Import
    } else if s == "from"@ {
        TokenType::From
    } else if s == "let"@ {
        TokenType::Let
    } else if s == "mut"@ {
        TokenType::Mut
    } else if s == "i8"@ {
        TokenType::TypeI8
    } else if s == "int8"@ {
        TokenType::TypeI8
    } else if s == "i16"@ {
        TokenType::TypeI16
    } else if s == "int16"@ {
        TokenType::TypeI16
    } else if s == "i32"@ {
        TokenType::TypeI32
    } else if s == "int32"@ {
        TokenType::TypeI32
    } else if s == "i64"@ {
        TokenType::TypeI64
    } else if s == "int64"@ {
        TokenType::TypeI64
    } else if s == "u8"@ {
        TokenType::TypeU8
    } else if s == "uint8"@ {
        TokenType::TypeU8
    } else if s == "u16"@ {
        TokenType::TypeU16
    } else if s == "uint16"@ {
        TokenType::TypeU16
    } else if s == "u32"@ {
        TokenType::TypeU32
    } else if s == "uint32"@ {
        TokenType::TypeU32
    } else if s == "u64"@ {
        TokenType::TypeU64
    } else if s == "uint64"@ {
        TokenType::TypeU64
    } else if s == "f32"@ {
        TokenType::TypeF32
    } else if s == "float32"@ {
        TokenType::TypeF32
    } else if s == "f64"@ {
        TokenType::TypeF64
    } else if s == "float64"@ {
        TokenType::TypeF64
    } else if s == "string"@ {
        TokenType::TypeString
    } else if s == "bool"@ {
        TokenType::TypeBool
    } else if s == "boolean"@ {
        TokenType::TypeBool
    } else {
        TokenType::Identifier
    }
}

/// The token type of a scanned word.
pub fn keyword_of(s: &[char]) -> (t: TokenType)
    ensures
        t == keyword_type(s@),
{
    if chars_is(s, "true") {
        TokenType::True
    } else if chars_is(s, "false") {
        TokenType::False
    } else if chars_is(s, "and") {
        TokenType::And
    } else if chars_is(s, "or") {
        TokenType::Or
    } else if chars_is(s, "not") {
        TokenType::Not
    } else if chars_is(s, "None") {
        TokenType::NoneKeyword
    } else if chars_is(s, "struct") {
        TokenType::Struct
    } else if chars_is(s, "trait") {
        TokenType::Trait
    } else if chars_is(s, "pub") {
        TokenType::Pub
    } else if chars_is(s, "if") {
        TokenType::If
    } else if chars_is(s, "elif") {
        TokenType::Elif
    } else if chars_is(s, "else") {
        TokenType::Else
    } else if chars_is(s, "while") {
        TokenType::While
    } else if chars_is(s, "for") {
        TokenType::For
    } else if chars_is(s, "in") {
        TokenType::In
    } else if chars_is(s, "range") {
        TokenType::Range
    } else if chars_is(s, "def") {
        TokenType::Def
    } else if chars_is(s, "fn") {
        TokenType::Fn
    } else if chars_is(s, "ref") {
        TokenType::Ref
    } else if chars_is(s, "return") {
        TokenType::Return
    } else if chars_is(s, "print") {
        TokenType::Print
    } else if chars_is(s, "input") {
        TokenType::Input
    } else if chars_is(s, "array") {
        TokenType::Array
    } else if chars_is(s, "Array") {
        TokenType::Array
    } else if chars_is(s, "dict") {
        TokenType::Dict
    } else if chars_is(s, "Dict") {
        TokenType::Dict
    } else if chars_is(s, "with") {
        TokenType::With
    } else if chars_is(s, "as") {
        TokenType::As
    } else if chars_is(s, "open_mmap") {
        TokenType::OpenMmap
    } else if chars_is(s, "read_chunk") {
        TokenType::ReadChunk
    } else if chars_is(s, "import") {
        TokenType::Import
    } else if chars_is(s, "from") {
        TokenType::From
    } else if chars_is(s, "let") {
        TokenType::Let
    } else if chars_is(s, "mut") {
        TokenType::Mut
    } else if chars_is(s, "i8") {
        TokenType::TypeI8
    } else if chars_is(s, "int8") {
        TokenType::TypeI8
    } else if chars_is(s, "i16") {
        TokenType::TypeI16
    } else if chars_is(s, "int16") {
        TokenType::TypeI16
    } else if chars_is(s, "i32") {
        TokenType::TypeI32
    } else if chars_is(s, "int32") {
        TokenType::TypeI32
    } else if chars_is(s, "i64") {
        TokenType::TypeI64
    } else if chars_is(s, "int64") {
        TokenType::TypeI64
    } else if chars_is(s, "u8") {
        TokenType::TypeU8
    } else if chars_is(s, "uint8") {
        TokenType::TypeU8
    } else if chars_is(s, "u16") {
        TokenType::TypeU16
    } else if chars_is(s, "uint16") {
        TokenType::TypeU16
    } else if chars_is(s, "u32") {
        TokenType::TypeU32
    } else if chars_is(s, "uint32") {
        TokenType::TypeU32
    } else if chars_is(s, "u64") {
        TokenType::TypeU64
    } else if chars_is(s, "uint64") {
        TokenType::TypeU64
    } else if chars_is(s, "f32") {
        TokenType::TypeF32
    } else if chars_is(s, "float32") {
        TokenType::TypeF32
    } else if chars_is(s, "f64") {
        TokenType::TypeF64
    } else if chars_is(s, "float64") {
        TokenType::TypeF64
    } else if chars_is(s, "string") {
        TokenType::TypeString
    } else if chars_is(s, "bool") {
        TokenType::TypeBool
    } else if chars_is(s, "boolean") {
        TokenType::TypeBool
    } else {
        TokenType::Identifier
    }
}


// ---------------------------------------------------------------------------
// Token invariants

/// The fixed spelling of tokens that are always written the same way.
pub open spec fn fixed_lexeme(t: TokenType) -> Option<Seq<char>> {
    match t {
        TokenType::Indent => Some("INDENT"@),
        TokenType::Newline => Some("\\n"@),
        TokenType::LeftParen => Some("("@),
        TokenType::RightParen => Some(")"@),
        TokenType::LeftBrace => Some("{"@),
        TokenType::RightBrace => Some("}"@),
        TokenType::LeftBracket => Some("["@),
        TokenType::RightBracket => Some("]"@),
        TokenType::Colon => Some(":"@),
        TokenType::Comma => Some(","@),
        TokenType::Dot => Some("."@),
        TokenType::Minus => Some("-"@),
        TokenType::Plus => Some("+"@),
        TokenType::Semicolon => Some(";"@),
        TokenType::Slash => Some("/"@),
        TokenType::Star => Some("*"@),
        TokenType::StarStar => Some("**"@),
        TokenType::Percent => Some("%"@),
        TokenType::PlusEqual => Some("+="@),
        TokenType::MinusEqual => Some("-="@),
        TokenType::StarEqual => Some("*="@),
        TokenType::StarStarEqual => Some("**="@),
        TokenType::SlashEqual => Some("/="@),
        TokenType::PercentEqual => Some("%="@),
        TokenType::Bang => Some("!"@),
        TokenType::BangEqual => Some("!="@),
        TokenType::Equal => Some("="@),
        TokenType::EqualEqual => Some("=="@),
        TokenType::Greater => Some(">"@),
        TokenType::GreaterEqual => Some(">="@),
        TokenType::Less => Some("<"@),
        TokenType::LessEqual => Some("<="@),
        TokenType::Arrow => Some("->"@),
        TokenType::At => Some("@"@),
        TokenType::EOF => Some(seq![]),
        _ => None,
    }
}

/// Whether a token type is produced from an identifier-shaped word.
pub open spec fn is_word_type(t: TokenType) -> bool {
    fixed_lexeme(t) is None && t != TokenType::Dedent && t != TokenType::String
        && t != TokenType::FString && t != TokenType::Number
}

pub open spec fn all_ident_chars(s: Seq<char>) -> bool {
    s.len() >= 1 && is_ident_start(s[0]) && forall|k: int| 0 <= k < s.len() ==> is_ident_char(#[trigger] s[k])
}

/// What every token the scanner emits satisfies: its lexeme and literal are
/// determined by its type as the scanner writes them.
pub open spec fn token_wf(t: TokenView) -> bool {
    &&& t.line >= 1
    &&& match t.token_type {
        TokenType::Dedent => (t.lexeme == "DEDENT"@ || t.lexeme == "Dedent"@) && t.literal == "null"@,
        TokenType::String => t.lexeme == seq!['"'] + t.literal + seq!['"'],
        TokenType::FString => t.lexeme == seq!['f', '"'] + t.literal + seq!['"'],
        TokenType::Number => is_digit(t.lexeme[0]) && t.lexeme.len() >= 1
            && t.literal == (if t.lexeme.contains('.') { number_literal_value(t.lexeme) } else { t.lexeme }),
        other => if fixed_lexeme(other) is Some {
            t.lexeme == fixed_lexeme(other)->0 && t.literal == "null"@
        } else {
            all_ident_chars(t.lexeme) && keyword_type(t.lexeme) == other && t.literal == "null"@
        },
    }
}

pub open spec fn indent_delta(t: TokenView) -> int {
    if t.token_type == TokenType::Indent {
        1
    } else if t.token_type == TokenType::Dedent {
        -1
    } else {
        0
    }
}

/// Number of `Indent` tokens minus number of `Dedent` tokens.
pub open spec fn indent_depth(ts: Seq<TokenView>) -> int
    decreases ts.len(),
{
    if ts.len() == 0 {
        0
    } else {
        indent_depth(ts.drop_last()) + indent_delta(ts.last())
    }
}

/// No prefix closes more blocks than it opened.
pub open spec fn prefixes_balanced(ts: Seq<TokenView>) -> bool {
    forall|k: int| 0 <= k <= ts.len() ==> indent_depth(#[trigger] ts.take(k)) >= 0
}

pub open spec fn token_views(ts: Seq<Token>) -> Seq<TokenView> {
    ts.map_values(|t: Token| t@)
}

/// Lines never decrease along the token sequence.
pub open spec fn lines_sorted(ts: Seq<TokenView>) -> bool {
    forall|a: int, b: int| 0 <= a <= b < ts.len() ==> ts[a].line <= ts[b].line
}

/// What the scanner guarantees of its output: one `EOF` token, last; every
/// token well formed; lines in order; `Indent` and `Dedent` tokens nested.
pub open spec fn tokens_wf(ts: Seq<TokenView>) -> bool {
    &&& ts.len() >= 1
    &&& ts.last().token_type == TokenType::EOF
    &&& forall|k: int| 0 <= k < ts.len() - 1 ==> (#[trigger] ts[k]).token_type != TokenType::EOF
    &&& forall|k: int| 0 <= k < ts.len() ==> token_wf(#[trigger] ts[k])
    &&& lines_sorted(ts)
    &&& prefixes_balanced(ts)
    &&& indent_depth(ts) == 0
}

proof fn lemma_push_prefixes(ts: Seq<TokenView>, t: TokenView)
    requires
        prefixes_balanced(ts),
        indent_depth(ts) + indent_delta(t) >= 0,
    ensures
        prefixes_balanced(ts.push(t)),
        indent_depth(ts.push(t)) == indent_depth(ts) + indent_delta(t),
{
    let ts2 = ts.push(t);
    assert(ts2.drop_last() == ts);
    assert forall|k: int| 0 <= k <= ts2.len() implies indent_depth(#[trigger] ts2.take(k)) >= 0 by {
        if k <= ts.len() {
            assert(ts2.take(k) == ts.take(k));
        } else {
            assert(ts2.take(k) == ts2);
        }
    }
}

// ---------------------------------------------------------------------------
// Diagnostics

/// The messages the scanner can report.
pub open spec fn scan_message(kind: ErrorKind, m: Seq<char>) -> bool {
    ||| kind == ErrorKind::Indentation && m == "indent contains mixed spaces and tabs"@
    ||| kind == ErrorKind::Indentation && m == "unexpected indent"@
    ||| kind == ErrorKind::Indentation && m == "unindent does not match any outer indentation level"@
    ||| kind == ErrorKind::Syntax && m == "unterminated string"@
    ||| kind == ErrorKind::Syntax && m == "unterminated f-string"@
    ||| kind == ErrorKind::Syntax && exists|c: char| m == "unexpected character: '"@ + seq![c] + "'"@
}

/// A diagnostic line the scanner can produce.
pub open spec fn scan_diagnostic(d: Seq<char>) -> bool {
    exists|kind: ErrorKind, line: u32, m: Seq<char>|
        scan_message(kind, m) && d == format_error_spec(kind, line, m)
}

// ---------------------------------------------------------------------------
// What the scanner computes

/// The scanner's state as plain values: the position in the text, the tokens
/// so far, the current line, the first diagnostic, the widths of the open
/// indented blocks, whether a line is starting, and whether the last line
/// ended with `:` (which allows the next one to be indented).
pub struct ScanView {
    pub pos: int,
    pub tokens: Seq<TokenView>,
    pub line: int,
    pub diagnostic: Option<Seq<char>>,
    pub indent_stack: Seq<int>,
    pub at_line_start: bool,
    pub line_allows_indent: bool,
}

pub open spec fn with_token(st: ScanView, t: TokenView) -> ScanView {
    ScanView { tokens: st.tokens.push(t), ..st }
}

/// A token without a literal value.
pub open spec fn plain_token(tt: TokenType, lexeme: Seq<char>, line: int) -> TokenView {
    TokenView { token_type: tt, lexeme, literal: "null"@, line: line as nat }
}

pub open spec fn with_fixed(st: ScanView, tt: TokenType, spelling: Seq<char>) -> ScanView {
    with_token(st, plain_token(tt, spelling, st.line))
}

/// Only the first diagnostic is kept.
pub open spec fn reported(st: ScanView, kind: ErrorKind, m: Seq<char>) -> ScanView {
    if st.diagnostic is None {
        ScanView { diagnostic: Some(format_error_spec(kind, st.line as u32, m)), ..st }
    } else {
        st
    }
}

pub open spec fn next_is(s: Seq<char>, p: int, c: char) -> bool {
    0 <= p < s.len() && s[p] == c
}

pub open spec fn advanced(st: ScanView) -> ScanView {
    ScanView { pos: st.pos + 1, ..st }
}

/// The two-character operator `long` when the next character is `c`,
/// otherwise the one-character `short`.
pub open spec fn one_or_two(s: Seq<char>, st: ScanView, c: char, long_t: TokenType, long_s: Seq<char>,
    short_t: TokenType, short_s: Seq<char>) -> ScanView {
    if next_is(s, st.pos, c) {
        with_fixed(advanced(st), long_t, long_s)
    } else {
        with_fixed(st, short_t, short_s)
    }
}

/// The next line break at or after `i`, or the end of the text.
pub open spec fn line_end(s: Seq<char>, i: int) -> int
    decreases s.len() - i,
{
    if 0 <= i < s.len() && s[i] != '\n' {
        line_end(s, i + 1)
    } else {
        i
    }
}

/// A string or f-string whose opening quote is behind `st.pos`.
pub open spec fn string_token_spec(s: Seq<char>, st: ScanView, is_f: bool) -> ScanView {
    let r = string_scan(s, st.pos);
    let st1 = ScanView { pos: r.end, line: st.line + r.newlines, ..st };
    if r.closed {
        with_token(st1, TokenView {
            token_type: if is_f { TokenType::FString } else { TokenType::String },
            lexeme: if is_f { seq!['f', '"'] + r.content + seq!['"'] } else { seq!['"'] + r.content + seq!['"'] },
            literal: r.content,
            line: st1.line as nat,
        })
    } else {
        reported(st1, ErrorKind::Syntax, if is_f { "unterminated f-string"@ } else { "unterminated string"@ })
    }
}

/// A number whose first digit, `first`, is behind `st.pos`.
pub open spec fn number_token_spec(s: Seq<char>, st: ScanView, first: char) -> ScanView {
    let text = number_text(first, s, st.pos);
    with_token(ScanView { pos: number_end(s, st.pos), ..st }, TokenView {
        token_type: TokenType::Number,
        lexeme: text,
        literal: if text.contains('.') { number_literal_value(text) } else { text },
        line: st.line as nat,
    })
}

/// End of the run of identifier characters that starts at `i`.
pub open spec fn ident_end(s: Seq<char>, i: int) -> int
    decreases s.len() - i,
{
    if 0 <= i < s.len() && is_ident_char(s[i]) {
        ident_end(s, i + 1)
    } else {
        i
    }
}

/// An identifier or keyword whose first character, `first`, is behind `st.pos`.
pub open spec fn word_token_spec(s: Seq<char>, st: ScanView, first: char) -> ScanView {
    let e = ident_end(s, st.pos);
    let word = seq![first] + s.subrange(st.pos, e);
    with_token(ScanView { pos: e, ..st }, plain_token(keyword_type(word), word, st.line))
}

/// The token that starts with `ch`, which stands just behind `st.pos`.
pub open spec fn match_char_spec(s: Seq<char>, st: ScanView, ch: char) -> ScanView {
    if ch == ' ' || ch == '\t' || ch == '\r' {
        st
    } else if ch == '\n' {
        with_fixed(ScanView { line: st.line + 1, at_line_start: true, ..st }, TokenType::Newline, "\\n"@)
    } else if ch == '(' {
        with_fixed(st, TokenType::LeftParen, "("@)
    } else if ch == ')' {
        with_fixed(st, TokenType::RightParen, ")"@)
    } else if ch == '{' {
        with_fixed(st, TokenType::LeftBrace, "{"@)
    } else if ch == '}' {
        with_fixed(st, TokenType::RightBrace, "}"@)
    } else if ch == '[' {
        with_fixed(st, TokenType::LeftBracket, "["@)
    } else if ch == ']' {
        with_fixed(st, TokenType::RightBracket, "]"@)
    } else if ch == ':' {
        ScanView { line_allows_indent: true, ..with_fixed(st, TokenType::Colon, ":"@) }
    } else if ch == '@' {
        with_fixed(st, TokenType::At, "@"@)
    } else if ch == '.' {
        with_fixed(st, TokenType::Dot, "."@)
    } else if ch == ',' {
        with_fixed(st, TokenType::Comma, ","@)
    } else if ch == '+' {
        one_or_two(s, st, '=', TokenType::PlusEqual, "+="@, TokenType::Plus, "+"@)
    } else if ch == '-' {
        if next_is(s, st.pos, '>') {
            with_fixed(advanced(st), TokenType::Arrow, "->"@)
        } else {
            one_or_two(s, st, '=', TokenType::MinusEqual, "-="@, TokenType::Minus, "-"@)
        }
    } else if ch == ';' {
        with_fixed(st, TokenType::Semicolon, ";"@)
    } else if ch == '%' {
        one_or_two(s, st, '=', TokenType::PercentEqual, "%="@, TokenType::Percent, "%"@)
    } else if ch == '*' {
        if next_is(s, st.pos, '=') {
            with_fixed(advanced(st), TokenType::StarEqual, "*="@)
        } else if next_is(s, st.pos, '*') {
            one_or_two(s, advanced(st), '=', TokenType::StarStarEqual, "**="@, TokenType::StarStar, "**"@)
        } else {
            with_fixed(st, TokenType::Star, "*"@)
        }
    } else if ch == '=' {
        one_or_two(s, st, '=', TokenType::EqualEqual, "=="@, TokenType::Equal, "="@)
    } else if ch == '!' {
        one_or_two(s, st, '=', TokenType::BangEqual, "!="@, TokenType::Bang, "!"@)
    } else if ch == '<' {
        one_or_two(s, st, '=', TokenType::LessEqual, "<="@, TokenType::Less, "<"@)
    } else if ch == '>' {
        one_or_two(s, st, '=', TokenType::GreaterEqual, ">="@, TokenType::Greater, ">"@)
    } else if ch == '/' {
        one_or_two(s, st, '=', TokenType::SlashEqual, "/="@, TokenType::Slash, "/"@)
    } else if ch == '#' {
        ScanView { pos: line_end(s, st.pos), ..st }
    } else if ch == '"' {
        string_token_spec(s, st, false)
    } else if '0' <= ch <= '9' {
        number_token_spec(s, st, ch)
    } else if ('a' <= ch <= 'z') || ('A' <= ch <= 'Z') || ch == '_' {
        if (ch == 'f' || ch == 'F') && next_is(s, st.pos, '"') {
            string_token_spec(s, advanced(st), true)
        } else {
            word_token_spec(s, st, ch)
        }
    } else {
        reported(st, ErrorKind::Syntax, "unexpected character: '"@ + seq![ch] + "'"@)
    }
}

pub open spec fn is_indent_char(c: char) -> bool {
    c == ' ' || c == '\t'
}

/// End of the run of spaces and tabs that starts at `i`.
pub open spec fn indent_run_end(s: Seq<char>, i: int) -> int
    decreases s.len() - i,
{
    if 0 <= i < s.len() && is_indent_char(s[i]) {
        indent_run_end(s, i + 1)
    } else {
        i
    }
}

/// Columns taken by `s[i..j]`: one per space, four per tab.
pub open spec fn indent_width(s: Seq<char>, i: int, j: int) -> int
    decreases j - i,
{
    if j <= i {
        0
    } else {
        indent_width(s, i, j - 1) + (if s[j - 1] == '\t' { 4int } else { 1int })
    }
}

pub open spec fn has_char_in(s: Seq<char>, i: int, j: int, c: char) -> bool {
    exists|k: int| i <= k < j && s[k] == c
}

/// The open blocks wider than `level` closed, each with a `Dedent` token.
pub open spec fn dedented(st: ScanView, level: int) -> ScanView
    decreases st.indent_stack.len(),
{
    if st.indent_stack.len() > 0 && st.indent_stack.last() > level {
        dedented(with_token(ScanView { indent_stack: st.indent_stack.drop_last(), ..st },
            plain_token(TokenType::Dedent, "DEDENT"@, st.line)), level)
    } else {
        st
    }
}

/// The start of a line whose first character stands just behind `st.pos`:
/// its indentation is measured; a blank or comment-only line only moves on;
/// otherwise the indentation opens a block, closes blocks or stays, and the
/// line's first token follows.
pub open spec fn line_start_spec(s: Seq<char>, st: ScanView) -> ScanView {
    let k = st.pos - 1;
    let e = indent_run_end(s, k);
    let level = indent_width(s, k, e);
    let st1 = ScanView { pos: if e < s.len() { e + 1 } else { s.len() as int }, ..st };
    let st2 = if has_char_in(s, k, e, '\t') && has_char_in(s, k, e, ' ') {
        reported(st1, ErrorKind::Indentation, "indent contains mixed spaces and tabs"@)
    } else {
        st1
    };
    if e >= s.len() {
        st2
    } else if s[e] == '\n' {
        ScanView { line: st2.line + 1, ..st2 }
    } else if s[e] == '#' {
        ScanView { pos: line_end(s, st2.pos), line: st2.line + 1, ..st2 }
    } else {
        let top = st2.indent_stack.last();
        let st3 = if level > top {
            if !st2.line_allows_indent {
                reported(st2, ErrorKind::Indentation, "unexpected indent"@)
            } else {
                with_token(ScanView { indent_stack: st2.indent_stack.push(level), ..st2 },
                    plain_token(TokenType::Indent, "INDENT"@, st2.line))
            }
        } else if level < top {
            let d = dedented(st2, level);
            if d.indent_stack.last() != level {
                reported(d, ErrorKind::Indentation, "unindent does not match any outer indentation level"@)
            } else {
                d
            }
        } else {
            st2
        };
        match_char_spec(s, ScanView { line_allows_indent: false, at_line_start: false, ..st3 }, s[e])
    }
}

/// One step: the next character, at the start of a line or within one.
pub open spec fn scan_step(s: Seq<char>, st: ScanView) -> ScanView {
    if st.at_line_start {
        line_start_spec(s, advanced(st))
    } else {
        match_char_spec(s, advanced(st), s[st.pos])
    }
}

/// Steps until the text is used up.
pub open spec fn scan_from(s: Seq<char>, st: ScanView) -> ScanView
    decreases s.len() - st.pos,
{
    if st.pos < 0 || st.pos >= s.len() {
        st
    } else {
        let next = scan_step(s, st);
        if st.pos < next.pos <= s.len() {
            scan_from(s, next)
        } else {
            next
        }
    }
}

/// The blocks still open at the end, closed with `Dedent` tokens.
pub open spec fn closed_blocks(st: ScanView) -> ScanView
    decreases st.indent_stack.len(),
{
    if st.indent_stack.len() > 1 {
        closed_blocks(with_token(ScanView { indent_stack: st.indent_stack.drop_last(), ..st },
            plain_token(TokenType::Dedent, "Dedent"@, st.line)))
    } else {
        st
    }
}

pub open spec fn scan_start() -> ScanView {
    ScanView {
        pos: 0,
        tokens: Seq::empty(),
        line: 1,
        diagnostic: None,
        indent_stack: seq![0],
        at_line_start: true,
        line_allows_indent: false,
    }
}

/// The tokens of a source text, ending with `EOF`, and the first diagnostic
/// found in it.
pub open spec fn scan_spec(s: Seq<char>) -> (Seq<TokenView>, Option<Seq<char>>) {
    let fin = closed_blocks(scan_from(s, scan_start()));
    (fin.tokens.push(TokenView { token_type: TokenType::EOF, lexeme: Seq::empty(), literal: "null"@, line: fin.line as nat }),
        fin.diagnostic)
}

// ---------------------------------------------------------------------------
// The scanner state machine

struct ScanState {
    chars: Vec<char>,
    pos: usize,
    tokens: Vec<Token>,
    line: usize,
    diagnostic: Option<Vec<char>>,
    indent_stack: Vec<usize>,
    at_line_start: bool,
    line_allows_indent: bool,
}

impl ScanState {
    spec fn model(&self) -> ScanView {
        ScanView {
            pos: self.pos as int,
            tokens: token_views(self.tokens@),
            line: self.line as int,
            diagnostic: match self.diagnostic {
                Some(d) => Some(d@),
                Option::None => Option::None,
            },
            indent_stack: self.indent_stack@.map_values(|w: usize| w as int),
            at_line_start: self.at_line_start,
            line_allows_indent: self.line_allows_indent,
        }
    }

    spec fn inv(&self) -> bool {
        let ts = token_views(self.tokens@);
        &&& self.pos <= self.chars@.len()
        &&& self.chars@.len() < usize::MAX / 8
        &&& 1 <= self.line <= self.pos + 1
        &&& self.diagnostic matches Some(d) ==> scan_diagnostic(d@)
        &&& self.indent_stack@.len() >= 1
        &&& self.indent_stack@[0] == 0
        &&& forall|a: int, b: int| 0 <= a < b < self.indent_stack@.len()
            ==> self.indent_stack@[a] < self.indent_stack@[b]
        &&& forall|a: int| 0 <= a < self.indent_stack@.len() ==> self.indent_stack@[a] <= 4 * self.pos
        &&& forall|k: int| 0 <= k < ts.len() ==> (#[trigger] ts[k]).token_type != TokenType::EOF
        &&& forall|k: int| 0 <= k < ts.len() ==> token_wf(#[trigger] ts[k])
        &&& forall|k: int| 0 <= k < ts.len() ==> (#[trigger] ts[k]).line <= self.line
        &&& lines_sorted(ts)
        &&& prefixes_balanced(ts)
        &&& forall|k: int| 0 <= k < ts.len() && (#[trigger] ts[k]).token_type == TokenType::FString
            ==> ts[k].literal.len() + 3 <= self.chars@.len()
        &&& indent_depth(ts) == self.indent_stack@.len() - 1
    }

    fn report(&mut self, kind: ErrorKind, message: &[char])
        requires
            old(self).inv(),
            scan_message(kind, message@),
        ensures
            final(self).inv(),
            final(self).diagnostic is Some,
            final(self).pos == old(self).pos,
            final(self).line == old(self).line,
            final(self).chars@ == old(self).chars@,
            final(self).at_line_start == old(self).at_line_start,
            final(self).line_allows_indent == old(self).line_allows_indent,
            final(self).indent_stack@ == old(self).indent_stack@,
            final(self).tokens@ == old(self).tokens@,
            final(self).model() == reported(old(self).model(), kind, message@),
    {
        if self.diagnostic.is_none() {
            let d = format_error_chars(kind, self.line as u32, message);
            assert(scan_diagnostic(d@));
            self.diagnostic = Some(d);
        }
    }

    fn push_token(&mut self, token_type: TokenType, lexeme: Vec<char>, literal: Vec<char>)
        requires
            old(self).inv(),
            token_type != TokenType::EOF,
            token_type != TokenType::Indent,
            token_type != TokenType::Dedent,
            token_wf(TokenView { token_type, lexeme: lexeme@, literal: literal@, line: old(self).line as nat }),
            token_type == TokenType::FString ==> literal@.len() + 3 <= old(self).chars@.len(),
        ensures
            final(self).inv(),
            token_views(final(self).tokens@) == token_views(old(self).tokens@).push(
                TokenView { token_type, lexeme: lexeme@, literal: literal@, line: old(self).line as nat }),
            final(self).pos == old(self).pos,
            final(self).line == old(self).line,
            final(self).chars@ == old(self).chars@,
            final(self).at_line_start == old(self).at_line_start,
            final(self).line_allows_indent == old(self).line_allows_indent,
            final(self).indent_stack@ == old(self).indent_stack@,
            final(self).diagnostic == old(self).diagnostic,
            final(self).model() == with_token(old(self).model(),
                TokenView { token_type, lexeme: lexeme@, literal: literal@, line: old(self).line as nat }),
    {
        self.push_any(token_type, lexeme, literal);
    }

    fn push_any(&mut self, token_type: TokenType, lexeme: Vec<char>, literal: Vec<char>)
        requires
            token_wf(TokenView { token_type, lexeme: lexeme@, literal: literal@, line: old(self).line as nat }),
            indent_depth(token_views(old(self).tokens@)) + indent_delta(
                TokenView { token_type, lexeme: lexeme@, literal: literal@, line: old(self).line as nat }) >= 0,
            token_type != TokenType::EOF,
            old(self).inv_without_depth(),
            token_type == TokenType::FString ==> literal@.len() + 3 <= old(self).chars@.len(),
        ensures
            final(self).inv_without_depth(),
            token_views(final(self).tokens@) == token_views(old(self).tokens@).push(
                TokenView { token_type, lexeme: lexeme@, literal: literal@, line: old(self).line as nat }),
            indent_depth(token_views(final(self).tokens@)) == indent_depth(token_views(old(self).tokens@))
                + indent_delta(TokenView { token_type, lexeme: lexeme@, literal: literal@, line: old(self).line as nat }),
            old(self).inv() && token_type != TokenType::Indent && token_type != TokenType::Dedent ==> final(self).inv(),
            final(self).pos == old(self).pos,
            final(self).line == old(self).line,
            final(self).chars@ == old(self).chars@,
            final(self).at_line_start == old(self).at_line_start,
            final(self).line_allows_indent == old(self).line_allows_indent,
            final(self).indent_stack@ == old(self).indent_stack@,
            final(self).diagnostic == old(self).diagnostic,
            final(self).model() == with_token(old(self).model(),
                TokenView { token_type, lexeme: lexeme@, literal: literal@, line: old(self).line as nat }),
    {
        let ghost before = token_views(self.tokens@);
        let ghost tv = TokenView { token_type, lexeme: lexeme@, literal: literal@, line: self.line as nat };
        let t = Token {
            token_type,
            lexeme: string_from_chars(lexeme),
            literal: string_from_chars(literal),
            line: self.line,
        };
        assert(t@ == tv);
        self.tokens.push(t);
        proof {
            assert(token_views(self.tokens@) == before.push(tv));
            lemma_push_prefixes(before, tv);
            let ts = token_views(self.tokens@);
            assert forall|a: int, b: int| 0 <= a <= b < ts.len() implies ts[a].line <= ts[b].line by {
                if b < before.len() {
                    assert(ts[a] == before[a] && ts[b] == before[b]);
                }
            }
            assert forall|k: int| 0 <= k < ts.len() implies token_wf(#[trigger] ts[k]) by {
                if k < before.len() {
                    assert(ts[k] == before[k]);
                }
            }
            assert forall|k: int| 0 <= k < ts.len() implies (#[trigger] ts[k]).token_type != TokenType::EOF by {
                if k < before.len() {
                    assert(ts[k] == before[k]);
                }
            }
            assert forall|k: int| 0 <= k < ts.len() implies (#[trigger] ts[k]).line <= self.line by {
                if k < before.len() {
                    assert(ts[k] == before[k]);
                }
            }
            assert forall|k: int| 0 <= k < ts.len() && (#[trigger] ts[k]).token_type == TokenType::FString
                implies ts[k].literal.len() + 3 <= self.chars@.len() by {
                if k < before.len() {
                    assert(ts[k] == before[k]);
                }
            }
        }
    }

    /// Everything in `inv` but the tie between the indent stack and the tokens.
    spec fn inv_without_depth(&self) -> bool {
        let ts = token_views(self.tokens@);
        &&& self.pos <= self.chars@.len()
        &&& self.chars@.len() < usize::MAX / 8
        &&& 1 <= self.line <= self.pos + 1
        &&& self.diagnostic matches Some(d) ==> scan_diagnostic(d@)
        &&& self.indent_stack@.len() >= 1
        &&& self.indent_stack@[0] == 0
        &&& forall|a: int, b: int| 0 <= a < b < self.indent_stack@.len()
            ==> self.indent_stack@[a] < self.indent_stack@[b]
        &&& forall|a: int| 0 <= a < self.indent_stack@.len() ==> self.indent_stack@[a] <= 4 * self.pos
        &&& forall|k: int| 0 <= k < ts.len() ==> (#[trigger] ts[k]).token_type != TokenType::EOF
        &&& forall|k: int| 0 <= k < ts.len() ==> token_wf(#[trigger] ts[k])
        &&& forall|k: int| 0 <= k < ts.len() ==> (#[trigger] ts[k]).line <= self.line
        &&& lines_sorted(ts)
        &&& prefixes_balanced(ts)
        &&& forall|k: int| 0 <= k < ts.len() && (#[trigger] ts[k]).token_type == TokenType::FString
            ==> ts[k].literal.len() + 3 <= self.chars@.len()
    }
}


impl ScanState {
    /// Consumes and returns the next character, if any.
    fn next_char(&mut self) -> (r: Option<char>)
        requires
            old(self).inv(),
        ensures
            final(self).inv(),
            final(self).chars@ == old(self).chars@,
            final(self).tokens@ == old(self).tokens@,
            final(self).line == old(self).line,
            final(self).diagnostic == old(self).diagnostic,
            final(self).indent_stack@ == old(self).indent_stack@,
            final(self).at_line_start == old(self).at_line_start,
            final(self).line_allows_indent == old(self).line_allows_indent,
            old(self).pos < old(self).chars@.len() ==> r == Some(old(self).chars@[old(self).pos as int])
                && final(self).pos == old(self).pos + 1,
            old(self).pos >= old(self).chars@.len() ==> r is None && final(self).pos == old(self).pos,
    {
        if self.pos < self.chars.len() {
            let c = self.chars[self.pos];
            self.pos = self.pos + 1;
            Some(c)
        } else {
            Option::None
        }
    }

    /// Whether the next character is `c` (without consuming it).
    fn peek_is(&self, c: char) -> (r: bool)
        ensures
            r == (self.pos < self.chars@.len() && self.chars@[self.pos as int] == c),
    {
        self.pos < self.chars.len() && self.chars[self.pos] == c
    }

    /// Pushes an operator token whose spelling is fixed.
    fn push_fixed(&mut self, token_type: TokenType, spelling: &str)
        requires
            old(self).inv(),
            fixed_lexeme(token_type) == Some(spelling@),
            token_type != TokenType::EOF,
            token_type != TokenType::Indent,
        ensures
            final(self).inv(),
            final(self).pos == old(self).pos,
            final(self).line == old(self).line,
            final(self).chars@ == old(self).chars@,
            final(self).at_line_start == old(self).at_line_start,
            final(self).line_allows_indent == old(self).line_allows_indent,
            final(self).indent_stack@ == old(self).indent_stack@,
            final(self).diagnostic == old(self).diagnostic,
            final(self).model() == with_fixed(old(self).model(), token_type, spelling@),
    {
        let lexeme = chars_of(spelling);
        let literal = chars_of("null");
        self.push_token(token_type, lexeme, literal);
    }

    /// Consumes one more character when it is `c`.
    fn skip_if(&mut self, c: char) -> (r: bool)
        requires
            old(self).inv(),
        ensures
            final(self).inv(),
            r == (old(self).pos < old(self).chars@.len() && old(self).chars@[old(self).pos as int] == c),
            final(self).pos == if r { old(self).pos + 1 } else { old(self).pos as int },
            final(self).chars@ == old(self).chars@,
            final(self).tokens@ == old(self).tokens@,
            final(self).line == old(self).line,
            final(self).diagnostic == old(self).diagnostic,
            final(self).indent_stack@ == old(self).indent_stack@,
            final(self).at_line_start == old(self).at_line_start,
            final(self).line_allows_indent == old(self).line_allows_indent,
            final(self).model() == if r { advanced(old(self).model()) } else { old(self).model() },
    {
        if self.peek_is(c) {
            self.pos = self.pos + 1;
            true
        } else {
            false
        }
    }

    /// Skips the rest of a comment, up to (not including) the line break.
    fn skip_comment(&mut self)
        requires
            old(self).inv(),
        ensures
            final(self).inv(),
            final(self).pos >= old(self).pos,
            final(self).chars@ == old(self).chars@,
            final(self).tokens@ == old(self).tokens@,
            final(self).line == old(self).line,
            final(self).diagnostic == old(self).diagnostic,
            final(self).indent_stack@ == old(self).indent_stack@,
            final(self).at_line_start == old(self).at_line_start,
            final(self).line_allows_indent == old(self).line_allows_indent,
            final(self).model() == (ScanView { pos: line_end(old(self).chars@, old(self).pos as int), ..old(self).model() }),
    {
        while self.pos < self.chars.len() && self.chars[self.pos] != '\n'
            invariant
                line_end(self.chars@, self.pos as int) == line_end(old(self).chars@, old(self).pos as int),
                self.inv(),
                self.pos >= old(self).pos,
                self.chars@ == old(self).chars@,
                self.tokens@ == old(self).tokens@,
                self.line == old(self).line,
                self.diagnostic == old(self).diagnostic,
                self.indent_stack@ == old(self).indent_stack@,
                self.at_line_start == old(self).at_line_start,
                self.line_allows_indent == old(self).line_allows_indent,
            decreases self.chars@.len() - self.pos,
        {
            self.pos = self.pos + 1;
        }
    }

    /// Scans a string or f-string body after its opening quote and pushes the
    /// token, or reports the unterminated literal.
    fn string_token(&mut self, is_f: bool)
        requires
            old(self).inv(),
            old(self).line <= old(self).pos,
            is_f ==> old(self).pos >= 2,
        ensures
            final(self).inv(),
            final(self).pos >= old(self).pos,
            final(self).chars@ == old(self).chars@,
            final(self).at_line_start == old(self).at_line_start,
            final(self).line_allows_indent == old(self).line_allows_indent,
            final(self).indent_stack@ == old(self).indent_stack@,
            final(self).model() == string_token_spec(old(self).chars@, old(self).model(), is_f),
    {
        proof { lemma_string_scan_end(self.chars@, self.pos as int); }
        let (content, end, closed) = scan_string_body(&self.chars, self.pos, &mut self.line);
        self.pos = end;
        if closed {
            let mut lexeme: Vec<char> = Vec::new();
            if is_f {
                lexeme.push('f');
            }
            lexeme.push('"');
            append_chars(&mut lexeme, &content);
            lexeme.push('"');
            if is_f {
                assert(lexeme@ == seq!['f', '"'] + content@ + seq!['"']);
                self.push_token(TokenType::FString, lexeme, content);
            } else {
                assert(lexeme@ == seq!['"'] + content@ + seq!['"']);
                self.push_token(TokenType::String, lexeme, content);
            }
        } else {
            if is_f {
                let m = chars_of("unterminated f-string");
                self.report(ErrorKind::Syntax, m.as_slice());
            } else {
                let m = chars_of("unterminated string");
                self.report(ErrorKind::Syntax, m.as_slice());
            }
        }
    }

    /// Scans a number whose first digit `first` has been consumed.
    fn number_token(&mut self, first: char)
        requires
            old(self).inv(),
            is_digit(first),
        ensures
            final(self).inv(),
            final(self).pos >= old(self).pos,
            final(self).chars@ == old(self).chars@,
            final(self).line == old(self).line,
            final(self).at_line_start == old(self).at_line_start,
            final(self).line_allows_indent == old(self).line_allows_indent,
            final(self).indent_stack@ == old(self).indent_stack@,
            final(self).model() == number_token_spec(old(self).chars@, old(self).model(), first),
    {
        proof {
            lemma_digit_run_end_bounds(self.chars@, self.pos as int);
            let e = digit_run_end(self.chars@, self.pos as int);
            if e + 1 < self.chars@.len() && self.chars@[e] == '.' && is_digit(self.chars@[e + 1]) {
                lemma_digit_run_end_bounds(self.chars@, e + 1);
            }
        }
        let (text, end) = scan_number(first, &self.chars, self.pos);
        self.pos = end;
        let dot = find_char(&text, '.');
        proof {
            lemma_find_from_bounds(text@, '.', 0);
            assert(text@[0] == first);
        }
        let literal = if dot < text.len() {
            assert(text@.contains('.'));
            number_literal(&text)
        } else {
            assert(!text@.contains('.'));
            copy_range(&text, 0, text.len())
        };
        assert(text@.subrange(0, text@.len() as int) == text@);
        self.push_token(TokenType::Number, text, literal);
    }

    /// Scans an identifier or keyword whose first character has been consumed.
    fn word_token(&mut self, first: char)
        requires
            old(self).inv(),
            is_ident_start(first),
        ensures
            final(self).inv(),
            final(self).pos >= old(self).pos,
            final(self).chars@ == old(self).chars@,
            final(self).line == old(self).line,
            final(self).at_line_start == old(self).at_line_start,
            final(self).line_allows_indent == old(self).line_allows_indent,
            final(self).indent_stack@ == old(self).indent_stack@,
            final(self).model() == word_token_spec(old(self).chars@, old(self).model(), first),
    {
        let mut ident: Vec<char> = Vec::new();
        ident.push(first);
        while self.pos < self.chars.len() && is_ident_char_exec(self.chars[self.pos])
            invariant
                old(self).pos <= self.pos <= self.chars@.len(),
                ident_end(self.chars@, self.pos as int) == ident_end(old(self).chars@, old(self).pos as int),
                ident@ == seq![first] + self.chars@.subrange(old(self).pos as int, self.pos as int),
                self.model() == (ScanView { pos: self.pos as int, ..old(self).model() }),
                self.inv(),
                self.pos >= old(self).pos,
                self.chars@ == old(self).chars@,
                self.tokens@ == old(self).tokens@,
                self.line == old(self).line,
                self.diagnostic == old(self).diagnostic,
                self.indent_stack@ == old(self).indent_stack@,
                self.at_line_start == old(self).at_line_start,
                self.line_allows_indent == old(self).line_allows_indent,
                all_ident_chars(ident@),
            decreases self.chars@.len() - self.pos,
        {
            let c = self.chars[self.pos];
            ident.push(c);
            self.pos = self.pos + 1;
            assert(ident@ == seq![first] + self.chars@.subrange(old(self).pos as int, self.pos as int));
        }
        let t = keyword_of(ident.as_slice());
        proof { lemma_keyword_is_word(ident@); }
        let literal = chars_of("null");
        self.push_token(t, ident, literal);
    }
}

fn is_ident_char_exec(c: char) -> (r: bool)
    ensures
        r == is_ident_char(c),
{
    ('a' <= c && c <= 'z') || ('A' <= c && c <= 'Z') || ('0' <= c && c <= '9') || c == '_'
}

proof fn lemma_keyword_is_word(s: Seq<char>)
    ensures
        fixed_lexeme(keyword_type(s)) is None,
        keyword_type(s) != TokenType::Dedent,
        keyword_type(s) != TokenType::String,
        keyword_type(s) != TokenType::FString,
        keyword_type(s) != TokenType::Number,
        keyword_type(s) != TokenType::EOF,
        keyword_type(s) != TokenType::Indent,
{
}


impl ScanState {
    /// Scans the token that starts with `ch`, which has just been consumed.
    fn match_char(&mut self, ch: char)
        requires
            old(self).inv(),
            old(self).line <= old(self).pos,
            old(self).pos >= 1,
        ensures
            final(self).inv(),
            final(self).pos >= old(self).pos,
            final(self).chars@ == old(self).chars@,
            final(self).indent_stack@ == old(self).indent_stack@,
            final(self).model() == match_char_spec(old(self).chars@, old(self).model(), ch),
    {
        if ch == ' ' || ch == '\t' || ch == '\r' {
        } else if ch == '\n' {
            self.line = self.line + 1;
            self.at_line_start = true;
            self.push_fixed(TokenType::Newline, "\\n");
        } else if ch == '(' {
            self.push_fixed(TokenType::LeftParen, "(");
        } else if ch == ')' {
            self.push_fixed(TokenType::RightParen, ")");
        } else if ch == '{' {
            self.push_fixed(TokenType::LeftBrace, "{");
        } else if ch == '}' {
            self.push_fixed(TokenType::RightBrace, "}");
        } else if ch == '[' {
            self.push_fixed(TokenType::LeftBracket, "[");
        } else if ch == ']' {
            self.push_fixed(TokenType::RightBracket, "]");
        } else if ch == ':' {
            self.push_fixed(TokenType::Colon, ":");
            self.line_allows_indent = true;
        } else if ch == '@' {
            self.push_fixed(TokenType::At, "@");
        } else if ch == '.' {
            self.push_fixed(TokenType::Dot, ".");
        } else if ch == ',' {
            self.push_fixed(TokenType::Comma, ",");
        } else if ch == '+' {
            if self.skip_if('=') {
                self.push_fixed(TokenType::PlusEqual, "+=");
            } else {
                self.push_fixed(TokenType::Plus, "+");
            }
        } else if ch == '-' {
            if self.skip_if('>') {
                self.push_fixed(TokenType::Arrow, "->");
            } else if self.skip_if('=') {
                self.push_fixed(TokenType::MinusEqual, "-=");
            } else {
                self.push_fixed(TokenType::Minus, "-");
            }
        } else if ch == ';' {
            self.push_fixed(TokenType::Semicolon, ";");
        } else if ch == '%' {
            if self.skip_if('=') {
                self.push_fixed(TokenType::PercentEqual, "%=");
            } else {
                self.push_fixed(TokenType::Percent, "%");
            }
        } else if ch == '*' {
            if self.skip_if('=') {
                self.push_fixed(TokenType::StarEqual, "*=");
            } else if self.skip_if('*') {
                if self.skip_if('=') {
                    self.push_fixed(TokenType::StarStarEqual, "**=");
                } else {
                    self.push_fixed(TokenType::StarStar, "**");
                }
            } else {
                self.push_fixed(TokenType::Star, "*");
            }
        } else if ch == '=' {
            if self.skip_if('=') {
                self.push_fixed(TokenType::EqualEqual, "==");
            } else {
                self.push_fixed(TokenType::Equal, "=");
            }
        } else if ch == '!' {
            if self.skip_if('=') {
                self.push_fixed(TokenType::BangEqual, "!=");
            } else {
                self.push_fixed(TokenType::Bang, "!");
            }
        } else if ch == '<' {
            if self.skip_if('=') {
                self.push_fixed(TokenType::LessEqual, "<=");
            } else {
                self.push_fixed(TokenType::Less, "<");
            }
        } else if ch == '>' {
            if self.skip_if('=') {
                self.push_fixed(TokenType::GreaterEqual, ">=");
            } else {
                self.push_fixed(TokenType::Greater, ">");
            }
        } else if ch == '/' {
            if self.skip_if('=') {
                self.push_fixed(TokenType::SlashEqual, "/=");
            } else {
                self.push_fixed(TokenType::Slash, "/");
            }
        } else if ch == '#' {
            self.skip_comment();
        } else if ch == '"' {
            self.string_token(false);
        } else if '0' <= ch && ch <= '9' {
            self.number_token(ch);
        } else if ('a' <= ch && ch <= 'z') || ('A' <= ch && ch <= 'Z') || ch == '_' {
            if (ch == 'f' || ch == 'F') && self.peek_is('"') {
                self.pos = self.pos + 1;
                self.string_token(true);
            } else {
                self.word_token(ch);
            }
        } else {
            let mut m = chars_of("unexpected character: '");
            m.push(ch);
            m.push('\'');
            proof {
                assert(m@ == "unexpected character: '"@ + seq![ch] + "'"@) by {
                    reveal_strlit("'");
                }
            }
            self.report(ErrorKind::Syntax, m.as_slice());
        }
    }

    /// Handles the start of a line: measures its indentation, skips blank and
    /// comment-only lines, emits `Indent` / `Dedent` tokens, then scans the
    /// first token.  `ch` has just been consumed.
    #[verifier::rlimit(40)]
    fn line_start(&mut self, ch: char)
        requires
            old(self).inv(),
            old(self).line <= old(self).pos,
            old(self).pos >= 1,
            old(self).chars@[old(self).pos - 1] == ch,
        ensures
            final(self).inv(),
            final(self).pos >= old(self).pos,
            final(self).chars@ == old(self).chars@,
            final(self).model() == line_start_spec(old(self).chars@, old(self).model()),
    {
        let ghost s = self.chars@;
        let ghost k = self.pos - 1;
        let ghost st0 = self.model();
        let mut indent_level: usize = 0;
        let mut used_tab = false;
        let mut used_space = false;
        let mut current: Option<char> = Some(ch);
        loop
            invariant
                self.inv(),
                self.pos >= old(self).pos,
                self.pos >= 1,
                self.line == old(self).line,
                self.line <= self.pos,
                self.chars@ == old(self).chars@,
                s == self.chars@,
                k == old(self).pos - 1,
                st0 == old(self).model(),
                self.tokens@ == old(self).tokens@,
                self.diagnostic == old(self).diagnostic,
                self.indent_stack@ == old(self).indent_stack@,
                self.at_line_start == old(self).at_line_start,
                self.line_allows_indent == old(self).line_allows_indent,
                self.model() == (ScanView { pos: self.pos as int, ..st0 }),
                current is Some ==> indent_level + 4 <= 4 * self.pos,
                current is None ==> indent_level <= 4 * self.pos,
                current matches Some(c) ==> c == s[self.pos - 1]
                    && indent_run_end(s, self.pos - 1) == indent_run_end(s, k)
                    && indent_level == indent_width(s, k, self.pos - 1)
                    && used_tab == has_char_in(s, k, self.pos - 1, '\t')
                    && used_space == has_char_in(s, k, self.pos - 1, ' '),
                current is None ==> self.pos == s.len()
                    && indent_run_end(s, k) == s.len()
                    && indent_level == indent_width(s, k, s.len() as int)
                    && used_tab == has_char_in(s, k, s.len() as int, '\t')
                    && used_space == has_char_in(s, k, s.len() as int, ' '),
            ensures
                current matches Some(c) ==> !is_indent_char(c),
                self.inv(),
                self.pos >= old(self).pos,
                self.pos >= 1,
                self.line == old(self).line,
                self.line <= self.pos,
                self.chars@ == old(self).chars@,
                s == self.chars@,
                self.tokens@ == old(self).tokens@,
                self.diagnostic == old(self).diagnostic,
                self.indent_stack@ == old(self).indent_stack@,
                self.at_line_start == old(self).at_line_start,
                self.line_allows_indent == old(self).line_allows_indent,
                self.model() == (ScanView { pos: self.pos as int, ..st0 }),
                current is Some ==> indent_level + 4 <= 4 * self.pos,
                current is None ==> indent_level <= 4 * self.pos,
                current matches Some(c) ==> c == s[self.pos - 1]
                    && indent_run_end(s, k) == self.pos - 1
                    && indent_level == indent_width(s, k, self.pos - 1)
                    && used_tab == has_char_in(s, k, self.pos - 1, '\t')
                    && used_space == has_char_in(s, k, self.pos - 1, ' '),
                current is None ==> self.pos == s.len()
                    && indent_run_end(s, k) == s.len()
                    && indent_level == indent_width(s, k, s.len() as int)
                    && used_tab == has_char_in(s, k, s.len() as int, '\t')
                    && used_space == has_char_in(s, k, s.len() as int, ' '),
            decreases self.chars@.len() - self.pos + if current is Some { 1int } else { 0int },
        {
            let ghost j = self.pos - 1;
            match current {
                Some(c) => {
                    if c == ' ' {
                        used_space = true;
                        indent_level = indent_level + 1;
                    } else if c == '\t' {
                        used_tab = true;
                        indent_level = indent_level + 4;
                    } else {
                        break;
                    }
                },
                Option::None => {
                    break;
                },
            }
            proof {
                lemma_has_char_step(s, k, j, '\t');
                lemma_has_char_step(s, k, j, ' ');
                assert(indent_run_end(s, j) == indent_run_end(s, j + 1));
                assert(indent_width(s, k, j + 1) == indent_width(s, k, j) + (if s[j] == '\t' { 4int } else { 1int }));
            }
            current = self.next_char();
        }
        if used_tab && used_space {
            let m = chars_of("indent contains mixed spaces and tabs");
            self.report(ErrorKind::Indentation, m.as_slice());
        }
        if current == Some('\n') {
            self.line = self.line + 1;
            return;
        } else if current == Some('#') {
            self.skip_comment();
            self.line = self.line + 1;
            return;
        }
        if let Some(c) = current {
            let ghost st2 = self.model();
            let current_indent = self.indent_stack[self.indent_stack.len() - 1];
            if indent_level > current_indent {
                if !self.line_allows_indent {
                    let m = chars_of("unexpected indent");
                    self.report(ErrorKind::Indentation, m.as_slice());
                } else {
                    self.indent_stack.push(indent_level);
                    let lexeme = chars_of("INDENT");
                    let literal = chars_of("null");
                    self.push_any(TokenType::Indent, lexeme, literal);
                    proof {
                        assert(self.model().indent_stack =~= st2.indent_stack.push(indent_level as int));
                        assert(self.model() == with_token(ScanView { indent_stack: st2.indent_stack.push(indent_level as int), ..st2 },
                            plain_token(TokenType::Indent, "INDENT"@, st2.line)));
                    }
                }
            } else if indent_level < current_indent {
                while self.indent_stack[self.indent_stack.len() - 1] > indent_level
                    invariant
                        self.inv(),
                        self.pos >= old(self).pos,
                        self.line <= self.pos,
                        self.chars@ == old(self).chars@,
                        dedented(self.model(), indent_level as int) == dedented(st2, indent_level as int),
                    decreases self.indent_stack@.len(),
                {
                    let ghost before = self.model();
                    self.indent_stack.pop();
                    let lexeme = chars_of("DEDENT");
                    let literal = chars_of("null");
                    self.push_any(TokenType::Dedent, lexeme, literal);
                    proof {
                        assert(self.model().indent_stack =~= before.indent_stack.drop_last());
                        assert(self.model() == with_token(ScanView { indent_stack: before.indent_stack.drop_last(), ..before },
                            plain_token(TokenType::Dedent, "DEDENT"@, before.line)));
                    }
                }
                if self.indent_stack[self.indent_stack.len() - 1] != indent_level {
                    let m = chars_of("unindent does not match any outer indentation level");
                    self.report(ErrorKind::Indentation, m.as_slice());
                }
            }
            self.line_allows_indent = false;
            self.at_line_start = false;
            self.match_char(c);
        }
    }
}

proof fn lemma_has_char_step(s: Seq<char>, k: int, j: int, c: char)
    requires
        k <= j,
    ensures
        has_char_in(s, k, j + 1, c) == (has_char_in(s, k, j, c) || s[j] == c),
{
    if has_char_in(s, k, j + 1, c) && !has_char_in(s, k, j, c) {
        let m = choose|m: int| k <= m < j + 1 && s[m] == c;
        assert(m == j);
    }
}

/// Scans a whole source text.  Returns the tokens and the first diagnostic,
/// if any was found; scanning goes on after a diagnostic.
pub fn scan(file_contents: &str) -> (r: (Vec<Token>, Option<String>))
    requires
        file_contents@.len() < usize::MAX / 8,
    ensures
        tokens_wf(token_views(r.0@)),
        fstrings_within(token_views(r.0@), file_contents@.len()),
        r.1 matches Some(d) ==> scan_diagnostic(d@),
        token_views(r.0@) == scan_spec(file_contents@).0,
        (match r.1 { Some(d) => Some(d@), Option::None => Option::None }) == scan_spec(file_contents@).1,
{
    scan_chars(chars_of(file_contents))
}

/// Every f-string token's text is at least three characters shorter than `n`.
pub open spec fn fstrings_within(ts: Seq<TokenView>, n: nat) -> bool {
    forall|k: int| 0 <= k < ts.len() && (#[trigger] ts[k]).token_type == TokenType::FString
        ==> ts[k].literal.len() + 3 <= n
}

/// Scans a source text given as characters.
pub fn scan_chars(chars: Vec<char>) -> (r: (Vec<Token>, Option<String>))
    requires
        chars@.len() < usize::MAX / 8,
    ensures
        tokens_wf(token_views(r.0@)),
        fstrings_within(token_views(r.0@), chars@.len()),
        r.1 matches Some(d) ==> scan_diagnostic(d@),
        token_views(r.0@) == scan_spec(chars@).0,
        (match r.1 { Some(d) => Some(d@), Option::None => Option::None }) == scan_spec(chars@).1,
{
    let ghost s = chars@;
    let mut indent_stack: Vec<usize> = Vec::new();
    indent_stack.push(0);
    let ghost n = chars@.len();
    let mut st = ScanState {
        chars,
        pos: 0,
        tokens: Vec::new(),
        line: 1,
        diagnostic: Option::None,
        indent_stack,
        at_line_start: true,
        line_allows_indent: false,
    };
    proof {
        assert(token_views(st.tokens@) =~= Seq::<TokenView>::empty());
        assert(st.inv()) by {
            let ts = token_views(st.tokens@);
            assert forall|k: int| 0 <= k <= ts.len() implies indent_depth(#[trigger] ts.take(k)) >= 0 by {
                assert(ts.take(k) =~= Seq::<TokenView>::empty());
            }
        }
    }
    proof {
        assert(st.model().indent_stack =~= seq![0int]);
        assert(st.model() == scan_start());
    }
    while st.pos < st.chars.len()
        invariant
            st.inv(),
            st.chars@.len() == n,
            st.chars@ == s,
            scan_from(s, st.model()) == scan_from(s, scan_start()),
        decreases st.chars@.len() - st.pos,
    {
        let ghost before = st.model();
        let ch = st.chars[st.pos];
        st.pos = st.pos + 1;
        if st.at_line_start {
            st.line_start(ch);
        } else {
            st.match_char(ch);
        }
        proof {
            assert(st.model() == scan_step(s, before));
        }
    }
    let ghost scanned = st.model();
    while st.indent_stack.len() > 1
        invariant
            st.inv(),
            st.chars@.len() == n,
            closed_blocks(st.model()) == closed_blocks(scanned),
        decreases st.indent_stack@.len(),
    {
        let ghost before = st.model();
        st.indent_stack.pop();
        let lexeme = chars_of("Dedent");
        let literal = chars_of("null");
        st.push_any(TokenType::Dedent, lexeme, literal);
        proof {
            assert(st.model().indent_stack =~= before.indent_stack.drop_last());
            assert(st.model() == with_token(ScanView { indent_stack: before.indent_stack.drop_last(), ..before },
                plain_token(TokenType::Dedent, "Dedent"@, before.line)));
        }
    }
    let ghost before = token_views(st.tokens@);
    let eof = Token {
        token_type: TokenType::EOF,
        lexeme: string_from_chars(Vec::new()),
        literal: string_from_chars(chars_of("null")),
        line: st.line,
    };
    let ghost ev = eof@;
    st.tokens.push(eof);
    proof {
        let ts = token_views(st.tokens@);
        assert(ts == before.push(ev));
        lemma_push_prefixes(before, ev);
        assert forall|k: int| 0 <= k < ts.len() - 1 implies (#[trigger] ts[k]).token_type != TokenType::EOF by {
            assert(ts[k] == before[k]);
        }
        assert forall|k: int| 0 <= k < ts.len() implies token_wf(#[trigger] ts[k]) by {
            if k < before.len() {
                assert(ts[k] == before[k]);
            }
        }
        assert forall|a: int, b: int| 0 <= a <= b < ts.len() implies ts[a].line <= ts[b].line by {
            if b < before.len() {
                assert(ts[a] == before[a] && ts[b] == before[b]);
            } else if a < before.len() {
                assert(ts[a] == before[a]);
            }
        }
        assert forall|k: int| 0 <= k < ts.len() && (#[trigger] ts[k]).token_type == TokenType::FString
            implies ts[k].literal.len() + 3 <= st.chars@.len() by {
            if k < before.len() {
                assert(ts[k] == before[k]);
            }
        }
    }
    let diagnostic = match st.diagnostic {
        Some(d) => Some(string_from_chars(d)),
        Option::None => Option::None,
    };
    (st.tokens, diagnostic)
}

/// Scans a whole source text; the flag tells whether anything was reported.
pub fn scan_tokens(file_contents: &str) -> (r: (Vec<Token>, bool))
    requires
        file_contents@.len() < usize::MAX / 8,
    ensures
        tokens_wf(token_views(r.0@)),
        token_views(r.0@) == scan_spec(file_contents@).0,
        r.1 == scan_spec(file_contents@).1 is Some,
{
    let (tokens, diagnostic) = scan(file_contents);
    (tokens, diagnostic.is_some())
}


/// One more than the longest f-string text among the tokens (0 when there is
/// none): parsing an f-string's embedded expressions works on strictly
/// shorter text, which bounds how deeply f-strings can nest.
pub open spec fn fstring_bound(ts: Seq<TokenView>) -> nat
    decreases ts.len(),
{
    if ts.len() == 0 {
        0
    } else {
        let b = fstring_bound(ts.drop_last());
        let t = ts.last();
        let x: nat = if t.token_type == TokenType::FString { t.literal.len() + 1 } else { 0 };
        if b >= x { b } else { x }
    }
}

pub proof fn lemma_fstring_bound_above(ts: Seq<TokenView>, k: int)
    requires
        0 <= k < ts.len(),
        ts[k].token_type == TokenType::FString,
    ensures
        ts[k].literal.len() < fstring_bound(ts),
    decreases ts.len(),
{
    if k < ts.len() - 1 {
        assert(ts.drop_last()[k] == ts[k]);
        lemma_fstring_bound_above(ts.drop_last(), k);
    }
}

pub proof fn lemma_fstring_bound_within(ts: Seq<TokenView>, n: nat)
    requires
        fstrings_within(ts, n),
    ensures
        fstring_bound(ts) <= n,
    decreases ts.len(),
{
    if ts.len() > 0 {
        let d = ts.drop_last();
        assert forall|k: int| 0 <= k < d.len() && (#[trigger] d[k]).token_type == TokenType::FString
            implies d[k].literal.len() + 3 <= n by {
            assert(d[k] == ts[k]);
        }
        lemma_fstring_bound_within(d, n);
        if ts.last().token_type == TokenType::FString {
            assert(ts[ts.len() - 1] == ts.last());
        }
    }
}

} // verus!
