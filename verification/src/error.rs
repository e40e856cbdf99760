//! Diagnostic kinds, their labels and exit codes, and the one-line message
//! format `Kind: line N: message` that every stage reports through.

use vstd::prelude::*;
use crate::text::{decimal, chars_of, append_str, append_chars, u64_decimal, string_from_chars};

verus! {

/// The three kinds of failure a Hyper program can report.
#[derive(Clone, Copy, Debug, PartialEq, Eq, Structural)]
pub enum ErrorKind {
    Syntax,
    Indentation,
    Runtime,
}

impl ErrorKind {
    /// The label printed in front of a message of this kind.
    pub open spec fn label_spec(self) -> Seq<char> {
        match self {
            ErrorKind::Syntax => "SyntaxError"@,
            ErrorKind::Indentation => "IndentationError"@,
            ErrorKind::Runtime => "RuntimeError"@,
        }
    }

    /// The process exit status for a failure of this kind.
    pub open spec fn exit_code_spec(self) -> i32 {
        match self {
            ErrorKind::Syntax | ErrorKind::Indentation => 65,
            ErrorKind::Runtime => 70,
        }
    }

    pub fn label(self) -> (s: &'static str)
        ensures
            s@ == self.label_spec(),
    {
        match self {
            ErrorKind::Syntax => "SyntaxError",
            ErrorKind::Indentation => "IndentationError",
            ErrorKind::Runtime => "RuntimeError",
        }
    }

    pub fn exit_code(self) -> (c: i32)
        ensures
            c == self.exit_code_spec(),
    {
        match self {
            ErrorKind::Syntax | ErrorKind::Indentation => 65,
            ErrorKind::Runtime => 70,
        }
    }
}

/// `Kind: line N: message`.
pub open spec fn format_error_spec(kind: ErrorKind, line: u32, message: Seq<char>) -> Seq<char> {
    kind.label_spec() + ": line "@ + decimal(line as nat) + ": "@ + message
}

/// `at 'token': message`, the body of a syntax error that names a token.
pub open spec fn at_token_spec(token: Seq<char>, message: Seq<char>) -> Seq<char> {
    "at '"@ + token + "': "@ + message
}

/// Characters of the formatted diagnostic line.
pub fn format_error_chars(kind: ErrorKind, line: u32, message: &[char]) -> (r: Vec<char>)
    ensures
        r@ == format_error_spec(kind, line, message@),
{
    let mut out = chars_of(kind.label());
    append_str(&mut out, ": line ");
    let digits = u64_decimal(line as u64);
    append_chars(&mut out, &digits);
    append_str(&mut out, ": ");
    let mut i: usize = 0;
    let ghost before = out@;
    while i < message.len()
        invariant
            i <= message.len(),
            out@ == before + message@.take(i as int),
        decreases message.len() - i,
    {
        out.push(message[i]);
        i = i + 1;
        assert(message@.take(i as int) == message@.take((i - 1) as int).push(message@[i - 1]));
    }
    assert(message@.take(message.len() as int) == message@);
    out
}

/// Formats a diagnostic as `Kind: line N: message`.
pub fn format_error(kind: ErrorKind, line: u32, message: &str) -> (s: String)
    ensures
        s@ == format_error_spec(kind, line, message@),
{
    let m = chars_of(message);
    string_from_chars(format_error_chars(kind, line, m.as_slice()))
}

/// The syntax error reported for `message` at `line`.
pub fn syntax(line: u32, message: &str) -> (s: String)
    ensures
        s@ == format_error_spec(ErrorKind::Syntax, line, message@),
{
    format_error(ErrorKind::Syntax, line, message)
}

/// The syntax error that names the offending token: `at 'token': message`.
pub fn syntax_at_token(line: u32, token: &str, message: &str) -> (s: String)
    ensures
        s@ == format_error_spec(ErrorKind::Syntax, line, at_token_spec(token@, message@)),
{
    let mut body = chars_of("at '");
    append_str(&mut body, token);
    append_str(&mut body, "': ");
    append_str(&mut body, message);
    string_from_chars(format_error_chars(ErrorKind::Syntax, line, body.as_slice()))
}

/// The plain syntax error for `message` at `line`.
pub fn syntax_msg(line: u32, message: &str) -> (s: String)
    ensures
        s@ == format_error_spec(ErrorKind::Syntax, line, message@),
{
    format_error(ErrorKind::Syntax, line, message)
}

/// The indentation error for `message` at `line`.
pub fn indentation(line: u32, message: &str) -> (s: String)
    ensures
        s@ == format_error_spec(ErrorKind::Indentation, line, message@),
{
    format_error(ErrorKind::Indentation, line, message)
}

/// The runtime error for `message` at `line`.
pub fn runtime(line: u32, message: &str) -> (s: String)
    ensures
        s@ == format_error_spec(ErrorKind::Runtime, line, message@),
{
    format_error(ErrorKind::Runtime, line, message)
}

/// A type-check finding as it is reported: prefixed with the syntax error label,
/// since type failures block compilation as syntax errors do.
pub open spec fn format_typecheck_spec(message: Seq<char>) -> Seq<char> {
    "SyntaxError: "@ + message
}

pub fn format_typecheck(message: &[char]) -> (r: String)
    ensures
        r@ == format_typecheck_spec(message@),
{
    let mut out = chars_of("SyntaxError: ");
    let mut i: usize = 0;
    let ghost before = out@;
    while i < message.len()
        invariant
            i <= message.len(),
            out@ == before + message@.take(i as int),
        decreases message.len() - i,
    {
        out.push(message[i]);
        i = i + 1;
        assert(message@.take(i as int) == message@.take((i - 1) as int).push(message@[i - 1]));
    }
    assert(message@.take(message.len() as int) == message@);
    string_from_chars(out)
}

} // verus!
