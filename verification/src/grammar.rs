//! The grammar as spec functions over the token sequence.
//!
//! Each rule takes the tokens and a position and gives `None` when the
//! tokens there do not form the construct, or the position after it with
//! the syntax tree built (as a view).  The rules follow the parser's order
//! of trials exactly; a failed rule gives up at once, as the parser does.
//! The position checks on recursive calls (`p < p1 <= ts.len()`) always hold
//! for what a rule returns; they only make the recursion visibly finite.

use vstd::prelude::*;
use crate::ast::{
    BinOp, UnaryOp, ForKind, LiteralV, TypeAnnV, ExprV, CallArgV, FStringPartV, ParamV,
    FunctionDeclV, StructFieldV, MethodDeclV, ForIterV, ImportNameV, StmtV,
};
use crate::scanner::{TokenType, TokenView, fstring_bound, scan_spec};
use crate::parser::is_type_token_spec;

verus! {

/// A parse outcome: the position after the construct and what was built.
pub type Parsed<V> = Option<(int, V)>;

/// Whether the token at `p` is `EOF`.
pub open spec fn at_end(ts: Seq<TokenView>, p: int) -> bool {
    ts[p].token_type == TokenType::EOF
}

/// Whether the token at `p` exists, is not `EOF`, and has type `t`.
pub open spec fn is_tok(ts: Seq<TokenView>, p: int, t: TokenType) -> bool {
    0 <= p < ts.len() && ts[p].token_type != TokenType::EOF && ts[p].token_type == t
}

/// The position after any line breaks at `p`.
pub open spec fn skip_nl(ts: Seq<TokenView>, p: int) -> int
    decreases ts.len() - p,
{
    if is_tok(ts, p, TokenType::Newline) { skip_nl(ts, p + 1) } else { p }
}

/// The position after the token at `p`, or `p` itself at `EOF`.
pub open spec fn step(ts: Seq<TokenView>, p: int) -> int {
    if at_end(ts, p) { p } else { p + 1 }
}

/// The operator that the token `t` stands for at binding level `lvl`
/// (0 `**`, 1 `* / %`, 2 `+ -`, 3 comparisons, 4 equality, 5 `and`, 6 `or`).
pub open spec fn bin_op(lvl: nat, t: TokenType) -> Option<BinOp> {
    if lvl == 0 {
        if t == TokenType::StarStar { Some(BinOp::Pow) } else { None }
    } else if lvl == 1 {
        if t == TokenType::Slash {
            Some(BinOp::Div)
        } else if t == TokenType::Star {
            Some(BinOp::Mul)
        } else if t == TokenType::Percent {
            Some(BinOp::Rem)
        } else {
            None
        }
    } else if lvl == 2 {
        if t == TokenType::Minus { Some(BinOp::Sub) } else if t == TokenType::Plus { Some(BinOp::Add) } else { None }
    } else if lvl == 3 {
        if t == TokenType::Greater {
            Some(BinOp::Gt)
        } else if t == TokenType::GreaterEqual {
            Some(BinOp::Ge)
        } else if t == TokenType::Less {
            Some(BinOp::Lt)
        } else if t == TokenType::LessEqual {
            Some(BinOp::Le)
        } else {
            None
        }
    } else if lvl == 4 {
        if t == TokenType::BangEqual { Some(BinOp::Ne) } else if t == TokenType::EqualEqual { Some(BinOp::Eq) } else { None }
    } else if lvl == 5 {
        if t == TokenType::And { Some(BinOp::And) } else { None }
    } else if lvl == 6 {
        if t == TokenType::Or { Some(BinOp::Or) } else { None }
    } else {
        None
    }
}

/// The prefix operator that the token `t` stands for.
pub open spec fn un_op(t: TokenType) -> Option<UnaryOp> {
    match t {
        TokenType::Bang | TokenType::Not => Some(UnaryOp::Not),
        TokenType::Minus => Some(UnaryOp::Neg),
        _ => None,
    }
}

/// The f-string parts with the pending literal text added, if any.
pub open spec fn flush(text: Seq<char>, parts: Seq<FStringPartV>) -> Seq<FStringPartV> {
    if text.len() > 0 { parts.push(FStringPartV::Literal(text)) } else { parts }
}

/// Reads an embedded f-string expression from `i` up to its closing brace:
/// braces nest, and quoted text is taken as it is.  Gives the index after
/// the closing brace (or the end), the depth left open, and the text read.
pub open spec fn brace_scan(c: Seq<char>, i: int, depth: nat, in_str: bool, sc: char, acc: Seq<char>)
    -> (int, nat, Seq<char>)
    decreases c.len() - i,
{
    if i < 0 || i >= c.len() {
        (i, depth, acc)
    } else {
        let ch = c[i];
        if in_str {
            brace_scan(c, i + 1, depth, ch != sc, sc, acc.push(ch))
        } else if ch == '"' || ch == '\'' {
            brace_scan(c, i + 1, depth, true, ch, acc.push(ch))
        } else if ch == '{' {
            brace_scan(c, i + 1, depth + 1, false, sc, acc.push(ch))
        } else if ch == '}' {
            if depth == 1 {
                (i + 1, 0, acc)
            } else {
                brace_scan(c, i + 1, (depth - 1) as nat, false, sc, acc.push(ch))
            }
        } else {
            brace_scan(c, i + 1, depth, false, sc, acc.push(ch))
        }
    }
}

// ---------------------------------------------------------------------------
// Expressions

pub open spec fn expression_spec(ts: Seq<TokenView>, p: int) -> Parsed<ExprV>
    decreases fstring_bound(ts), ts.len() - p, 40int,
{
    assignment_spec(ts, p)
}

pub open spec fn assignment_spec(ts: Seq<TokenView>, p: int) -> Parsed<ExprV>
    decreases fstring_bound(ts), ts.len() - p, 39int,
{
    match ternary_spec(ts, p) {
        None => None,
        Some((p1, e)) => {
            if p < p1 < ts.len() && is_tok(ts, p1, TokenType::Equal) {
                match assignment_spec(ts, p1 + 1) {
                    None => None,
                    Some((p2, v)) => match e {
                        ExprV::Variable(name, _) => Some((p2, ExprV::Assign(name, Box::new(v)))),
                        ExprV::GetField(o, f) => Some((p2, ExprV::SetField(o, f, Box::new(v)))),
                        ExprV::Index(o, i) => Some((p2, ExprV::IndexSet(o, i, Box::new(v)))),
                        _ => None,
                    },
                }
            } else {
                Some((p1, e))
            }
        },
    }
}

pub open spec fn ternary_spec(ts: Seq<TokenView>, p: int) -> Parsed<ExprV>
    decreases fstring_bound(ts), ts.len() - p, 38int,
{
    match binary_spec(ts, p, 6) {
        None => None,
        Some((p1, e)) => {
            if p < p1 < ts.len() && is_tok(ts, p1, TokenType::If) {
                match binary_spec(ts, p1 + 1, 6) {
                    None => None,
                    Some((p2, c)) => {
                        if p1 + 1 < p2 < ts.len() && is_tok(ts, p2, TokenType::Else) {
                            match ternary_spec(ts, p2 + 1) {
                                None => None,
                                Some((p3, el)) => Some((p3, ExprV::Ternary(Box::new(c), Box::new(e), Box::new(el)))),
                            }
                        } else {
                            None
                        }
                    },
                }
            } else {
                Some((p1, e))
            }
        },
    }
}

/// A left-associative chain of operators of level `lvl` (see [`bin_op`]).
pub open spec fn binary_spec(ts: Seq<TokenView>, p: int, lvl: nat) -> Parsed<ExprV>
    decreases fstring_bound(ts), ts.len() - p, 2 * lvl + 20,
{
    let first = if lvl == 0 { unary_spec(ts, p) } else { binary_spec(ts, p, (lvl - 1) as nat) };
    match first {
        None => None,
        Some((p1, e)) => if p < p1 <= ts.len() { binary_loop(ts, p1, lvl, e) } else { None },
    }
}

pub open spec fn binary_loop(ts: Seq<TokenView>, p: int, lvl: nat, left: ExprV) -> Parsed<ExprV>
    decreases fstring_bound(ts), ts.len() - p, 0int,
{
    if 0 <= p < ts.len() && bin_op(lvl, ts[p].token_type) is Some {
        let op = bin_op(lvl, ts[p].token_type).unwrap();
        let next = if lvl == 0 { unary_spec(ts, p + 1) } else { binary_spec(ts, p + 1, (lvl - 1) as nat) };
        match next {
            None => None,
            Some((p2, r)) => if p + 1 < p2 <= ts.len() {
                binary_loop(ts, p2, lvl, ExprV::Binary(op, Box::new(left), Box::new(r)))
            } else {
                None
            },
        }
    } else {
        Some((p, left))
    }
}

pub open spec fn unary_spec(ts: Seq<TokenView>, p: int) -> Parsed<ExprV>
    decreases fstring_bound(ts), ts.len() - p, 18int,
{
    if 0 <= p < ts.len() && un_op(ts[p].token_type) is Some {
        match unary_spec(ts, p + 1) {
            None => None,
            Some((p2, r)) => Some((p2, ExprV::Unary(un_op(ts[p].token_type).unwrap(), Box::new(r)))),
        }
    } else {
        postfix_spec(ts, p)
    }
}

pub open spec fn postfix_spec(ts: Seq<TokenView>, p: int) -> Parsed<ExprV>
    decreases fstring_bound(ts), ts.len() - p, 17int,
{
    match primary_spec(ts, p) {
        None => None,
        Some((p1, e)) => if p < p1 <= ts.len() { postfix_loop(ts, p1, e) } else { None },
    }
}

pub open spec fn postfix_loop(ts: Seq<TokenView>, p: int, e: ExprV) -> Parsed<ExprV>
    decreases fstring_bound(ts), ts.len() - p, 0int,
{
    if is_tok(ts, p, TokenType::LeftBracket) {
        match expression_spec(ts, p + 1) {
            None => None,
            Some((p2, i)) => if p + 1 < p2 && is_tok(ts, p2, TokenType::RightBracket) {
                postfix_loop(ts, p2 + 1, ExprV::Index(Box::new(e), Box::new(i)))
            } else {
                None
            },
        }
    } else {
        Some((p, e))
    }
}

/// After an opening `{` or `[`: `{}` / `[]`, a dictionary `k: v, ...` or a
/// list `a, ...`, each allowing a trailing comma, then `close`.
pub open spec fn collection_spec(ts: Seq<TokenView>, p: int, close: TokenType) -> Parsed<ExprV>
    decreases fstring_bound(ts), ts.len() - p, 41int,
{
    if is_tok(ts, p, close) {
        Some((p + 1, ExprV::List(Seq::empty())))
    } else {
        match expression_spec(ts, p) {
            None => None,
            Some((p1, k)) => {
                if p < p1 < ts.len() && is_tok(ts, p1, TokenType::Colon) {
                    match expression_spec(ts, p1 + 1) {
                        None => None,
                        Some((p2, v)) => if p1 + 1 < p2 <= ts.len() {
                            dict_loop(ts, p2, close, seq![(k, v)])
                        } else {
                            None
                        },
                    }
                } else if p < p1 <= ts.len() {
                    list_loop(ts, p1, close, seq![k])
                } else {
                    None
                }
            },
        }
    }
}

pub open spec fn dict_loop(ts: Seq<TokenView>, p: int, close: TokenType, entries: Seq<(ExprV, ExprV)>)
    -> Parsed<ExprV>
    decreases fstring_bound(ts), ts.len() - p, 0int,
{
    if is_tok(ts, p, TokenType::Comma) {
        if is_tok(ts, p + 1, close) {
            Some((p + 2, ExprV::Dict(entries)))
        } else {
            match expression_spec(ts, p + 1) {
                None => None,
                Some((p2, k)) => if p + 1 < p2 && is_tok(ts, p2, TokenType::Colon) {
                    match expression_spec(ts, p2 + 1) {
                        None => None,
                        Some((p3, v)) => if p2 + 1 < p3 <= ts.len() {
                            dict_loop(ts, p3, close, entries.push((k, v)))
                        } else {
                            None
                        },
                    }
                } else {
                    None
                },
            }
        }
    } else if is_tok(ts, p, close) {
        Some((p + 1, ExprV::Dict(entries)))
    } else {
        None
    }
}

pub open spec fn list_loop(ts: Seq<TokenView>, p: int, close: TokenType, items: Seq<ExprV>) -> Parsed<ExprV>
    decreases fstring_bound(ts), ts.len() - p, 0int,
{
    if is_tok(ts, p, TokenType::Comma) {
        if is_tok(ts, p + 1, close) {
            Some((p + 2, ExprV::List(items)))
        } else {
            match expression_spec(ts, p + 1) {
                None => None,
                Some((p2, e)) => if p + 1 < p2 <= ts.len() {
                    list_loop(ts, p2, close, items.push(e))
                } else {
                    None
                },
            }
        }
    } else if is_tok(ts, p, close) {
        Some((p + 1, ExprV::List(items)))
    } else {
        None
    }
}

/// One call argument: `name: value` or a plain expression.
pub open spec fn call_arg_spec(ts: Seq<TokenView>, p: int) -> Parsed<CallArgV>
    decreases fstring_bound(ts), ts.len() - p, 41int,
{
    if is_tok(ts, p, TokenType::Identifier) && p + 1 < ts.len() && ts[p + 1].token_type == TokenType::Colon {
        match expression_spec(ts, p + 2) {
            None => None,
            Some((q, v)) => Some((q, CallArgV::Named(ts[p].lexeme, v))),
        }
    } else {
        match expression_spec(ts, p) {
            None => None,
            Some((q, e)) => Some((q, CallArgV::Positional(e))),
        }
    }
}

/// Comma-separated call arguments, up to (not over) the closing `)`.
pub open spec fn call_args_spec(ts: Seq<TokenView>, p: int) -> Parsed<Seq<CallArgV>>
    decreases fstring_bound(ts), ts.len() - p, 43int,
{
    if is_tok(ts, p, TokenType::RightParen) { Some((p, Seq::empty())) } else { call_args_loop(ts, p, Seq::empty()) }
}

pub open spec fn call_args_loop(ts: Seq<TokenView>, p: int, acc: Seq<CallArgV>) -> Parsed<Seq<CallArgV>>
    decreases fstring_bound(ts), ts.len() - p, 42int,
{
    match call_arg_spec(ts, p) {
        None => None,
        Some((q, a)) => if p < q && is_tok(ts, q, TokenType::Comma) {
            call_args_loop(ts, q + 1, acc.push(a))
        } else {
            Some((q, acc.push(a)))
        },
    }
}

/// Comma-separated expressions, up to (not over) the closing `)`.
pub open spec fn method_args_spec(ts: Seq<TokenView>, p: int) -> Parsed<Seq<ExprV>>
    decreases fstring_bound(ts), ts.len() - p, 43int,
{
    if is_tok(ts, p, TokenType::RightParen) { Some((p, Seq::empty())) } else { method_args_loop(ts, p, Seq::empty()) }
}

pub open spec fn method_args_loop(ts: Seq<TokenView>, p: int, acc: Seq<ExprV>) -> Parsed<Seq<ExprV>>
    decreases fstring_bound(ts), ts.len() - p, 42int,
{
    match expression_spec(ts, p) {
        None => None,
        Some((q, a)) => if p < q && is_tok(ts, q, TokenType::Comma) {
            method_args_loop(ts, q + 1, acc.push(a))
        } else {
            Some((q, acc.push(a)))
        },
    }
}

/// A name after `.`: an identifier or one of the built-in words.
pub open spec fn is_member_token(t: TokenType) -> bool {
    t == TokenType::Identifier || t == TokenType::ReadChunk || t == TokenType::Input || t == TokenType::Print
        || t == TokenType::OpenMmap
}

pub open spec fn primary_spec(ts: Seq<TokenView>, p: int) -> Parsed<ExprV>
    decreases fstring_bound(ts), ts.len() - p, 16int,
{
    if is_tok(ts, p, TokenType::False) {
        Some((p + 1, ExprV::Literal(LiteralV::Bool(false))))
    } else if is_tok(ts, p, TokenType::True) {
        Some((p + 1, ExprV::Literal(LiteralV::Bool(true))))
    } else if is_tok(ts, p, TokenType::NoneKeyword) {
        Some((p + 1, ExprV::Literal(LiteralV::NoneValue)))
    } else if is_tok(ts, p, TokenType::LeftBrace) {
        collection_spec(ts, p + 1, TokenType::RightBrace)
    } else if is_tok(ts, p, TokenType::LeftBracket) {
        collection_spec(ts, p + 1, TokenType::RightBracket)
    } else if is_tok(ts, p, TokenType::Input) {
        input_spec(ts, p)
    } else if is_tok(ts, p, TokenType::FString) {
        fstr_loop(ts, p + 1, ts[p].literal, ts[p].line, 0, Seq::empty(), Seq::empty())
    } else if is_tok(ts, p, TokenType::Identifier) {
        identifier_spec(ts, p)
    } else if is_tok(ts, p, TokenType::String) {
        Some((p + 1, ExprV::Literal(LiteralV::Str(ts[p].literal))))
    } else if is_tok(ts, p, TokenType::Number) {
        Some((p + 1, ExprV::Literal(LiteralV::Number(ts[p].literal))))
    } else if is_tok(ts, p, TokenType::LeftParen) {
        match expression_spec(ts, p + 1) {
            None => None,
            Some((q, e)) => if is_tok(ts, q, TokenType::RightParen) {
                Some((q + 1, ExprV::Group(Box::new(e))))
            } else {
                None
            },
        }
    } else {
        None
    }
}

/// `input(...)` with at most one argument, the `input` word at `p`.
pub open spec fn input_spec(ts: Seq<TokenView>, p: int) -> Parsed<ExprV>
    decreases fstring_bound(ts), ts.len() - p, 15int,
{
    let callee = ExprV::Variable("input"@, ts[p].line as u32);
    if !is_tok(ts, p + 1, TokenType::LeftParen) {
        None
    } else if is_tok(ts, p + 2, TokenType::RightParen) {
        Some((p + 3, ExprV::Call(Box::new(callee), Seq::empty())))
    } else {
        match expression_spec(ts, p + 2) {
            None => None,
            Some((q, e)) => if is_tok(ts, q, TokenType::RightParen) {
                Some((q + 1, ExprV::Call(Box::new(callee), seq![CallArgV::Positional(e)])))
            } else {
                None
            },
        }
    }
}

/// What starts with the identifier at `p`: a method call `a.m(...)`, a
/// field `a.f`, a call `f(...)` or a variable.
pub open spec fn identifier_spec(ts: Seq<TokenView>, p: int) -> Parsed<ExprV>
    decreases fstring_bound(ts), ts.len() - p, 15int,
{
    if is_tok(ts, p + 1, TokenType::Dot) {
        member_spec(ts, p)
    } else if is_tok(ts, p + 1, TokenType::LeftParen) {
        call_spec(ts, p)
    } else {
        Some((p + 1, ExprV::Variable(ts[p].lexeme, ts[p].line as u32)))
    }
}

/// `a.m(...)` or `a.f`, the name `a` at `p`.
pub open spec fn member_spec(ts: Seq<TokenView>, p: int) -> Parsed<ExprV>
    decreases fstring_bound(ts), ts.len() - p, 14int,
{
    if !(p + 2 < ts.len() && is_member_token(ts[p + 2].token_type)) {
        None
    } else if is_tok(ts, p + 3, TokenType::LeftParen) {
        match method_args_spec(ts, p + 4) {
            None => None,
            Some((q, args)) => if is_tok(ts, q, TokenType::RightParen) {
                Some((q + 1, ExprV::CallMethod(ts[p].lexeme, ts[p + 2].lexeme, args)))
            } else {
                None
            },
        }
    } else {
        Some((p + 3, ExprV::GetField(ts[p].lexeme, ts[p + 2].lexeme)))
    }
}

/// `f(args...)`, the name `f` at `p`.
pub open spec fn call_spec(ts: Seq<TokenView>, p: int) -> Parsed<ExprV>
    decreases fstring_bound(ts), ts.len() - p, 14int,
{
    if !is_tok(ts, p + 1, TokenType::LeftParen) {
        None
    } else {
        match call_args_spec(ts, p + 2) {
            None => None,
            Some((q, args)) => if is_tok(ts, q, TokenType::RightParen) {
                Some((q + 1, ExprV::Call(Box::new(ExprV::Variable(ts[p].lexeme, ts[p].line as u32)), args)))
            } else {
                None
            },
        }
    }
}

/// The text of an f-string from index `i`, with the literal text `text`
/// pending and the parts `parts` done; `p` is the position after the
/// f-string token.  `{{` and `}}` stand for braces, a backslash keeps the
/// next character, and each `{expression}` is scanned and parsed on its own
/// (what follows the expression inside its braces is not looked at).
pub open spec fn fstr_loop(ts: Seq<TokenView>, p: int, c: Seq<char>, line: nat, i: int, text: Seq<char>,
    parts: Seq<FStringPartV>) -> Parsed<ExprV>
    decreases fstring_bound(ts), ts.len() - p, c.len() - i,
{
    if i < 0 || i >= c.len() {
        Some((p, ExprV::FString(line as u32, flush(text, parts))))
    } else {
        let ch = c[i];
        if ch == '\\' {
            if i + 1 < c.len() {
                fstr_loop(ts, p, c, line, i + 2, text.push('\\').push(c[i + 1]), parts)
            } else {
                fstr_loop(ts, p, c, line, i + 1, text.push('\\'), parts)
            }
        } else if ch == '{' {
            if i + 1 < c.len() && c[i + 1] == '{' {
                fstr_loop(ts, p, c, line, i + 2, text.push('{'), parts)
            } else {
                let (j, depth, e) = brace_scan(c, i + 1, 1, false, ' ', Seq::empty());
                if depth > 0 || e.len() >= usize::MAX / 8 {
                    None
                } else if scan_spec(e).1 is Some {
                    None
                } else if fstring_bound(scan_spec(e).0) < fstring_bound(ts) && i < j <= c.len() {
                    match expression_spec(scan_spec(e).0, 0) {
                        None => None,
                        Some((_, x)) => fstr_loop(ts, p, c, line, j, Seq::empty(),
                            flush(text, parts).push(FStringPartV::Expr(x))),
                    }
                } else {
                    None
                }
            }
        } else if ch == '}' {
            if i + 1 < c.len() && c[i + 1] == '}' {
                fstr_loop(ts, p, c, line, i + 2, text.push('}'), parts)
            } else {
                fstr_loop(ts, p, c, line, i + 1, text.push('}'), parts)
            }
        } else {
            fstr_loop(ts, p, c, line, i + 1, text.push(ch), parts)
        }
    }
}

/// One expression followed by nothing but line breaks up to `EOF`.
pub open spec fn single_expression_spec(ts: Seq<TokenView>, p: int) -> Parsed<ExprV> {
    match expression_spec(ts, p) {
        None => None,
        Some((q, e)) => if at_end(ts, skip_nl(ts, q)) { Some((skip_nl(ts, q), e)) } else { None },
    }
}

// ---------------------------------------------------------------------------
// Statements

/// The position after an optional line break at `q`.
pub open spec fn nl_opt(ts: Seq<TokenView>, q: int) -> int {
    if is_tok(ts, q, TokenType::Newline) { q + 1 } else { q }
}

/// Where the body of a statement header starts: past an optional `:` and
/// any line breaks.
pub open spec fn body_start(ts: Seq<TokenView>, q: int) -> int {
    skip_nl(ts, if is_tok(ts, q, TokenType::Colon) { q + 1 } else { q })
}

/// The loop form that the decorators `@parallel` / `@vectorize` ask for.
pub open spec fn for_kind(par: bool, vec: bool) -> ForKind {
    if par && vec {
        ForKind::ParallelVectorized
    } else if par {
        ForKind::Parallel
    } else if vec {
        ForKind::Vectorized
    } else {
        ForKind::Sequential
    }
}

/// Decorators from `p`: each `@name`, optionally followed by a line break;
/// only `parallel` and `vectorize` are known.
pub open spec fn deco_loop(ts: Seq<TokenView>, p: int, par: bool, vec: bool) -> Option<(int, bool, bool)>
    decreases ts.len() - p,
{
    if is_tok(ts, p, TokenType::At) {
        if !is_tok(ts, p + 1, TokenType::Identifier) {
            None
        } else if ts[p + 1].lexeme == "parallel"@ {
            deco_loop(ts, nl_opt(ts, p + 2), true, vec)
        } else if ts[p + 1].lexeme == "vectorize"@ {
            deco_loop(ts, nl_opt(ts, p + 2), par, true)
        } else {
            None
        }
    } else {
        Some((p, par, vec))
    }
}

/// `import m [as a]`, from the position after `import`.
pub open spec fn import_spec(ts: Seq<TokenView>, p: int) -> Parsed<StmtV> {
    let line = ts[p - 1].line as u32;
    if !is_tok(ts, p, TokenType::Identifier) {
        None
    } else if is_tok(ts, p + 1, TokenType::As) {
        if !is_tok(ts, p + 2, TokenType::Identifier) {
            None
        } else {
            Some((nl_opt(ts, p + 3), StmtV::Import(line, ts[p].lexeme, Some(ts[p + 2].lexeme))))
        }
    } else {
        Some((nl_opt(ts, p + 1), StmtV::Import(line, ts[p].lexeme, None)))
    }
}

/// Imported names `n [as a], ...` from `p`.
pub open spec fn names_loop(ts: Seq<TokenView>, p: int, acc: Seq<ImportNameV>) -> Parsed<Seq<ImportNameV>>
    decreases ts.len() - p,
{
    if !is_tok(ts, p, TokenType::Identifier) {
        None
    } else if is_tok(ts, p + 1, TokenType::As) && !is_tok(ts, p + 2, TokenType::Identifier) {
        None
    } else {
        let has_alias = is_tok(ts, p + 1, TokenType::As);
        let alias = if has_alias { Some(ts[p + 2].lexeme) } else { None };
        let q = if has_alias { p + 3 } else { p + 1 };
        let acc1 = acc.push(ImportNameV { name: ts[p].lexeme, alias });
        if is_tok(ts, q, TokenType::Comma) { names_loop(ts, q + 1, acc1) } else { Some((q, acc1)) }
    }
}

/// `from m import n [as a], ...`, from the position after `from`.
pub open spec fn import_from_spec(ts: Seq<TokenView>, p: int) -> Parsed<StmtV> {
    let line = ts[p - 1].line as u32;
    if !is_tok(ts, p, TokenType::Identifier) || !is_tok(ts, p + 1, TokenType::Import) {
        None
    } else {
        match names_loop(ts, p + 2, Seq::empty()) {
            None => None,
            Some((q, names)) => if names.len() == 0 {
                None
            } else {
                Some((nl_opt(ts, q), StmtV::ImportFrom(line, ts[p].lexeme, names)))
            },
        }
    }
}

/// Parameters `[ref] name [: type], ...` from `p`.
pub open spec fn params_loop(ts: Seq<TokenView>, p: int, acc: Seq<ParamV>) -> Parsed<Seq<ParamV>>
    decreases ts.len() - p,
{
    let is_ref = is_tok(ts, p, TokenType::Ref);
    let q = if is_ref { p + 1 } else { p };
    if !is_tok(ts, q, TokenType::Identifier) {
        None
    } else if is_tok(ts, q + 1, TokenType::Colon) && !(q + 2 < ts.len() && is_type_token_spec(ts[q + 2].token_type)) {
        None
    } else {
        let typed = is_tok(ts, q + 1, TokenType::Colon);
        let type_ann = if typed { Some(ts[q + 2].lexeme) } else { None };
        let q2 = if typed { q + 3 } else { q + 1 };
        let acc1 = acc.push(ParamV { name: ts[q].lexeme, is_ref, type_ann });
        if is_tok(ts, q2, TokenType::Comma) && p < q2 { params_loop(ts, q2 + 1, acc1) } else { Some((q2, acc1)) }
    }
}

/// The type annotation after `name:` in a `let`, `q` on its first word.
pub open spec fn let_type_spec(ts: Seq<TokenView>, q: int) -> Parsed<TypeAnnV> {
    if is_tok(ts, q, TokenType::Array) {
        if !is_tok(ts, q + 1, TokenType::LeftBracket) {
            None
        } else {
            let k = step(ts, q + 2);
            if is_tok(ts, k, TokenType::RightBracket) { Some((k + 1, TypeAnnV::Array(ts[q + 2].lexeme))) } else { None }
        }
    } else if is_tok(ts, q, TokenType::Dict) {
        if !is_tok(ts, q + 1, TokenType::LeftBracket) {
            None
        } else {
            let k = step(ts, q + 2);
            if !is_tok(ts, k, TokenType::Comma) {
                None
            } else {
                let k2 = step(ts, k + 1);
                if is_tok(ts, k2, TokenType::RightBracket) {
                    Some((k2 + 1, TypeAnnV::Dict(ts[q + 2].lexeme, ts[k + 1].lexeme)))
                } else {
                    None
                }
            }
        }
    } else {
        Some((step(ts, q), TypeAnnV::Named(ts[q].lexeme)))
    }
}

/// `let [mut] name [: type] [= value]`, from the position after `let`.
pub open spec fn let_spec(ts: Seq<TokenView>, p: int) -> Parsed<StmtV> {
    let line = ts[p].line as u32;
    let is_mut = is_tok(ts, p, TokenType::Mut);
    let q = if is_mut { p + 1 } else { p };
    if !is_tok(ts, q, TokenType::Identifier) {
        None
    } else {
        let typed = if is_tok(ts, q + 1, TokenType::Colon) {
            let_type_spec(ts, q + 2)
        } else {
            Some((q + 1, TypeAnnV::Unannotated))
        };
        match typed {
            None => None,
            Some((q3, ta)) => if is_tok(ts, q3, TokenType::Equal) {
                match expression_spec(ts, q3 + 1) {
                    None => None,
                    Some((q4, e)) => Some((q4, StmtV::Let(line, is_mut, ts[q].lexeme, ta, e))),
                }
            } else {
                Some((q3, StmtV::Let(line, is_mut, ts[q].lexeme, ta, ExprV::Literal(LiteralV::NoneValue))))
            },
        }
    }
}

/// `return [value]`, from the position after `return`.
pub open spec fn return_spec(ts: Seq<TokenView>, p: int) -> Parsed<StmtV> {
    let line = ts[p - 1].line as u32;
    if !is_tok(ts, p, TokenType::EOF) && !is_tok(ts, p, TokenType::Newline) && !is_tok(ts, p, TokenType::Dedent)
        && !is_tok(ts, p, TokenType::RightBrace) {
        match expression_spec(ts, p) {
            None => None,
            Some((q, v)) => Some((q, StmtV::Return(line, v))),
        }
    } else {
        Some((p, StmtV::Return(line, ExprV::Literal(LiteralV::NoneValue))))
    }
}

/// `print(values...)`, from the position after `print`.
pub open spec fn print_spec(ts: Seq<TokenView>, p: int) -> Parsed<StmtV> {
    let line = ts[p - 1].line as u32;
    if !is_tok(ts, p, TokenType::LeftParen) {
        None
    } else {
        match method_args_spec(ts, p + 1) {
            None => None,
            Some((q, vs)) => if is_tok(ts, q, TokenType::RightParen) {
                Some((q + 1, StmtV::Print(line, vs)))
            } else {
                None
            },
        }
    }
}

/// A declaration: decorators, then an import, a struct, a trait, a
/// function, a `let`, a `for` (taking the decorators), or a statement.
pub open spec fn declaration_spec(ts: Seq<TokenView>, p: int) -> Parsed<StmtV>
    decreases ts.len() - p, 3int,
{
    match deco_loop(ts, p, false, false) {
        None => None,
        Some((q, par, vec)) => {
            if !(p <= q < ts.len()) {
                None
            } else if is_tok(ts, q, TokenType::Import) {
                import_spec(ts, q + 1)
            } else if is_tok(ts, q, TokenType::From) {
                import_from_spec(ts, q + 1)
            } else if is_tok(ts, q, TokenType::Struct) {
                struct_spec(ts, q + 1)
            } else if is_tok(ts, q, TokenType::Trait) {
                trait_spec(ts, q + 1)
            } else if is_tok(ts, q, TokenType::Fn) || is_tok(ts, q, TokenType::Def) {
                match function_spec(ts, q + 1, is_tok(ts, q, TokenType::Fn)) {
                    None => None,
                    Some((r, f)) => Some((r, StmtV::Function(f))),
                }
            } else if is_tok(ts, q, TokenType::Let) {
                let_spec(ts, q + 1)
            } else if is_tok(ts, q, TokenType::For) {
                for_spec(ts, q + 1, par, vec)
            } else {
                statement_spec(ts, q)
            }
        },
    }
}

/// `struct Name [(Trait)]:` and an indented body of fields and methods.
pub open spec fn struct_spec(ts: Seq<TokenView>, p: int) -> Parsed<StmtV>
    decreases ts.len() - p, 0int,
{
    let has_trait = is_tok(ts, p + 1, TokenType::LeftParen);
    if !is_tok(ts, p, TokenType::Identifier) {
        None
    } else if has_trait && !(is_tok(ts, p + 2, TokenType::Identifier) && is_tok(ts, p + 3, TokenType::RightParen)) {
        None
    } else {
        let implemented = if has_trait { Some(ts[p + 2].lexeme) } else { None };
        let q = if has_trait { p + 4 } else { p + 1 };
        if !is_tok(ts, q, TokenType::Colon) {
            None
        } else {
            let r = skip_nl(ts, q + 1);
            if !(p < r && is_tok(ts, r, TokenType::Indent)) {
                None
            } else {
                match struct_loop(ts, r + 1, Seq::empty(), Seq::empty()) {
                    None => None,
                    Some((e, fs, ms)) => Some((e, StmtV::Struct(ts[p].lexeme, implemented, fs, ms))),
                }
            }
        }
    }
}

/// The members of a struct body from `p`, up to and over its `Dedent`;
/// other tokens between members are passed over.
pub open spec fn struct_loop(ts: Seq<TokenView>, p: int, fields: Seq<StructFieldV>, methods: Seq<MethodDeclV>)
    -> Option<(int, Seq<StructFieldV>, Seq<MethodDeclV>)>
    decreases ts.len() - p, 0int,
{
    if 0 <= p < ts.len() && !is_tok(ts, p, TokenType::Dedent) && !at_end(ts, p) {
        let q = skip_nl(ts, p);
        if !(p <= q < ts.len()) {
            None
        } else if is_tok(ts, q, TokenType::Dedent) || at_end(ts, q) {
            if is_tok(ts, q, TokenType::Dedent) { Some((q + 1, fields, methods)) } else { None }
        } else if is_tok(ts, q, TokenType::Let) {
            match field_spec(ts, q + 1) {
                None => None,
                Some((q4, f)) => if q < q4 <= ts.len() { struct_loop(ts, q4, fields.push(f), methods) } else { None },
            }
        } else if is_tok(ts, q, TokenType::Fn) || is_tok(ts, q, TokenType::Def) {
            match method_spec(ts, q + 1, is_tok(ts, q, TokenType::Fn)) {
                None => None,
                Some((q2, m)) => if q < q2 <= ts.len() { struct_loop(ts, q2, fields, methods.push(m)) } else { None },
            }
        } else {
            struct_loop(ts, q + 1, fields, methods)
        }
    } else if is_tok(ts, p, TokenType::Dedent) {
        Some((p + 1, fields, methods))
    } else {
        None
    }
}

/// A field `[pub] [mut] name: type` of a struct, from the position after `let`.
pub open spec fn field_spec(ts: Seq<TokenView>, p: int) -> Parsed<StructFieldV> {
    let is_pub = is_tok(ts, p, TokenType::Pub);
    let q1 = if is_pub { p + 1 } else { p };
    let is_mut = is_tok(ts, q1, TokenType::Mut);
    let q2 = if is_mut { q1 + 1 } else { q1 };
    if !is_tok(ts, q2, TokenType::Identifier) || !is_tok(ts, q2 + 1, TokenType::Colon)
        || !(q2 + 2 < ts.len() && is_type_token_spec(ts[q2 + 2].token_type)) {
        None
    } else {
        Some((nl_opt(ts, q2 + 3), StructFieldV { name: ts[q2].lexeme, field_type: ts[q2 + 2].lexeme, is_pub, is_mut }))
    }
}

/// A method `[pub] name(...)...` of a struct, from the position after `fn`
/// (strict) or `def`.
pub open spec fn method_spec(ts: Seq<TokenView>, p: int, is_strict: bool) -> Parsed<MethodDeclV>
    decreases ts.len() - p, 1int,
{
    let is_pub = is_tok(ts, p, TokenType::Pub);
    let q1 = if is_pub { p + 1 } else { p };
    match function_spec(ts, q1, is_strict) {
        None => None,
        Some((q2, f)) => Some((q2, MethodDeclV { is_pub, function: f })),
    }
}

/// `trait Name:` and an indented body of method declarations.
pub open spec fn trait_spec(ts: Seq<TokenView>, p: int) -> Parsed<StmtV>
    decreases ts.len() - p, 0int,
{
    if !is_tok(ts, p, TokenType::Identifier) || !is_tok(ts, p + 1, TokenType::Colon) {
        None
    } else {
        let r = skip_nl(ts, p + 2);
        if !(p < r && is_tok(ts, r, TokenType::Indent)) {
            None
        } else {
            match trait_loop(ts, r + 1, Seq::empty()) {
                None => None,
                Some((e, ms)) => Some((e, StmtV::Trait(ts[p].lexeme, ms))),
            }
        }
    }
}

pub open spec fn trait_loop(ts: Seq<TokenView>, p: int, methods: Seq<FunctionDeclV>) -> Parsed<Seq<FunctionDeclV>>
    decreases ts.len() - p, 0int,
{
    if 0 <= p < ts.len() && !is_tok(ts, p, TokenType::Dedent) && !at_end(ts, p) {
        let q = skip_nl(ts, p);
        if !(p <= q < ts.len()) {
            None
        } else if is_tok(ts, q, TokenType::Dedent) || at_end(ts, q) {
            if is_tok(ts, q, TokenType::Dedent) { Some((q + 1, methods)) } else { None }
        } else if is_tok(ts, q, TokenType::Fn) || is_tok(ts, q, TokenType::Def) {
            match function_spec(ts, q + 1, is_tok(ts, q, TokenType::Fn)) {
                None => None,
                Some((q2, f)) => if q + 1 < q2 <= ts.len() { trait_loop(ts, q2, methods.push(f)) } else { None },
            }
        } else {
            trait_loop(ts, q + 1, methods)
        }
    } else if is_tok(ts, p, TokenType::Dedent) {
        Some((p + 1, methods))
    } else {
        None
    }
}

/// `name(params) [-> type] [: body]` after `fn` (strict) or `def`; a body
/// that would start at a dedent, the end, or another function is empty.
pub open spec fn function_spec(ts: Seq<TokenView>, p: int, is_strict: bool) -> Parsed<FunctionDeclV>
    decreases ts.len() - p, 0int,
{
    if !is_tok(ts, p, TokenType::Identifier) || !is_tok(ts, p + 1, TokenType::LeftParen) {
        None
    } else {
        let ps = if is_tok(ts, p + 2, TokenType::RightParen) {
            Some((p + 2, Seq::<ParamV>::empty()))
        } else {
            params_loop(ts, p + 2, Seq::empty())
        };
        match ps {
            None => None,
            Some((q, params)) => {
                let q1 = q + 1;
                let arrow = is_tok(ts, q1, TokenType::Arrow);
                if !is_tok(ts, q, TokenType::RightParen) {
                    None
                } else if arrow && !(q1 + 1 < ts.len() && is_type_token_spec(ts[q1 + 1].token_type)) {
                    None
                } else {
                    let ret = if arrow { Some(ts[q1 + 1].lexeme) } else { None };
                    let q2 = if arrow { q1 + 2 } else { q1 };
                    let decl = |body: StmtV| FunctionDeclV {
                        name: ts[p].lexeme,
                        is_strict,
                        params,
                        return_type: ret,
                        body: Box::new(body),
                    };
                    if is_tok(ts, q2, TokenType::Colon) {
                        let r = skip_nl(ts, q2 + 1);
                        if is_tok(ts, r, TokenType::Dedent) || is_tok(ts, r, TokenType::EOF) || is_tok(ts, r, TokenType::Fn)
                            || is_tok(ts, r, TokenType::Def) {
                            Some((r, decl(StmtV::Block(Seq::empty()))))
                        } else if p < r <= ts.len() {
                            match statement_spec(ts, r) {
                                None => None,
                                Some((r2, body)) => Some((r2, decl(body))),
                            }
                        } else {
                            None
                        }
                    } else {
                        Some((q2, decl(StmtV::Block(Seq::empty()))))
                    }
                }
            },
        }
    }
}

pub open spec fn statement_spec(ts: Seq<TokenView>, p: int) -> Parsed<StmtV>
    decreases ts.len() - p, 2int,
{
    if is_tok(ts, p, TokenType::With) {
        with_spec(ts, p + 1)
    } else if is_tok(ts, p, TokenType::Return) {
        return_spec(ts, p + 1)
    } else if is_tok(ts, p, TokenType::Print) {
        print_spec(ts, p + 1)
    } else if is_tok(ts, p, TokenType::Indent) {
        block_spec(ts, p)
    } else if is_tok(ts, p, TokenType::If) {
        if_spec(ts, p + 1)
    } else if is_tok(ts, p, TokenType::While) {
        while_spec(ts, p + 1)
    } else if is_tok(ts, p, TokenType::For) {
        for_spec(ts, p + 1, false, false)
    } else {
        expr_stmt_spec(ts, p)
    }
}

/// An expression standing as a statement.
pub open spec fn expr_stmt_spec(ts: Seq<TokenView>, p: int) -> Parsed<StmtV> {
    match expression_spec(ts, p) {
        None => None,
        Some((q, e)) => Some((q, StmtV::Expr(ts[p].line as u32, e))),
    }
}

/// `with open_mmap(path) as name[:]` and a statement.
pub open spec fn with_spec(ts: Seq<TokenView>, p: int) -> Parsed<StmtV>
    decreases ts.len() - p, 0int,
{
    let line = ts[p - 1].line as u32;
    if !is_tok(ts, p, TokenType::OpenMmap) || !is_tok(ts, p + 1, TokenType::LeftParen) {
        None
    } else {
        match expression_spec(ts, p + 2) {
            None => None,
            Some((q, path)) => {
                if !is_tok(ts, q, TokenType::RightParen) || !is_tok(ts, q + 1, TokenType::As)
                    || !is_tok(ts, q + 2, TokenType::Identifier) {
                    None
                } else {
                    let r = body_start(ts, q + 3);
                    if !(p < r <= ts.len()) {
                        None
                    } else {
                        match statement_spec(ts, r) {
                            None => None,
                            Some((r2, body)) => Some((r2, StmtV::WithMmap(line, path, ts[q + 2].lexeme, Box::new(body)))),
                        }
                    }
                }
            },
        }
    }
}

/// `if cond[:] stmt` with `elif` / `else[:]` branches.
pub open spec fn if_spec(ts: Seq<TokenView>, p: int) -> Parsed<StmtV>
    decreases ts.len() - p, 0int,
{
    match expression_spec(ts, p) {
        None => None,
        Some((q, c)) => {
            let q2 = body_start(ts, q);
            if !(p < q2 <= ts.len()) {
                None
            } else {
                match statement_spec(ts, q2) {
                    None => None,
                    Some((q3, th)) => {
                        if !(q2 < q3 <= ts.len()) {
                            None
                        } else if is_tok(ts, q3, TokenType::Elif) {
                            match if_spec(ts, q3 + 1) {
                                None => None,
                                Some((q4, el)) => Some((q4, StmtV::If(c, Box::new(th), Some(Box::new(el))))),
                            }
                        } else if is_tok(ts, q3, TokenType::Else) {
                            let q5 = body_start(ts, q3 + 1);
                            if !(p < q5 <= ts.len()) {
                                None
                            } else {
                                match statement_spec(ts, q5) {
                                    None => None,
                                    Some((q6, el)) => Some((q6, StmtV::If(c, Box::new(th), Some(Box::new(el))))),
                                }
                            }
                        } else {
                            Some((q3, StmtV::If(c, Box::new(th), None)))
                        }
                    },
                }
            }
        },
    }
}

/// `while cond[:] stmt`.
pub open spec fn while_spec(ts: Seq<TokenView>, p: int) -> Parsed<StmtV>
    decreases ts.len() - p, 0int,
{
    let line = ts[p - 1].line as u32;
    match expression_spec(ts, p) {
        None => None,
        Some((q, c)) => {
            let q2 = body_start(ts, q);
            if !(p < q2 <= ts.len()) {
                None
            } else {
                match statement_spec(ts, q2) {
                    None => None,
                    Some((q3, body)) => Some((q3, StmtV::While(line, c, Box::new(body)))),
                }
            }
        },
    }
}

/// What a `for` loop runs over: `range(end)`, `range(start, end)` (start
/// `0` when left out) or any expression.
pub open spec fn for_iter_spec(ts: Seq<TokenView>, q: int) -> Parsed<ForIterV> {
    if is_tok(ts, q, TokenType::Range) {
        if !is_tok(ts, q + 1, TokenType::LeftParen) {
            None
        } else {
            match expression_spec(ts, q + 2) {
                None => None,
                Some((q1, a)) => if is_tok(ts, q1, TokenType::Comma) {
                    match expression_spec(ts, q1 + 1) {
                        None => None,
                        Some((q2, b)) => if is_tok(ts, q2, TokenType::RightParen) {
                            Some((q2 + 1, ForIterV::Range(a, b)))
                        } else {
                            None
                        },
                    }
                } else if is_tok(ts, q1, TokenType::RightParen) {
                    Some((q1 + 1, ForIterV::Range(ExprV::Literal(LiteralV::Number("0"@)), a)))
                } else {
                    None
                },
            }
        }
    } else {
        match expression_spec(ts, q) {
            None => None,
            Some((q1, e)) => Some((q1, ForIterV::Iterable(e))),
        }
    }
}

/// `for name in iter[:] stmt`, its form given by the decorators.
pub open spec fn for_spec(ts: Seq<TokenView>, p: int, par: bool, vec: bool) -> Parsed<StmtV>
    decreases ts.len() - p, 0int,
{
    let line = ts[p - 1].line as u32;
    if !is_tok(ts, p, TokenType::Identifier) || !is_tok(ts, p + 1, TokenType::In) {
        None
    } else {
        match for_iter_spec(ts, p + 2) {
            None => None,
            Some((r, iter)) => {
                let r2 = body_start(ts, r);
                if !(p < r2 <= ts.len()) {
                    None
                } else {
                    match statement_spec(ts, r2) {
                        None => None,
                        Some((r3, body)) => Some((r3, StmtV::For(for_kind(par, vec), line, ts[p].lexeme, iter,
                            Box::new(body)))),
                    }
                }
            },
        }
    }
}

/// An indented block of declarations.
pub open spec fn block_spec(ts: Seq<TokenView>, p: int) -> Parsed<StmtV>
    decreases ts.len() - p, 1int,
{
    if !is_tok(ts, p, TokenType::Indent) { None } else { block_loop(ts, p + 1, Seq::empty()) }
}

pub open spec fn block_loop(ts: Seq<TokenView>, p: int, acc: Seq<StmtV>) -> Parsed<StmtV>
    decreases ts.len() - p, 4int,
{
    if 0 <= p < ts.len() && !is_tok(ts, p, TokenType::Dedent) && !at_end(ts, p) {
        let q = skip_nl(ts, p);
        if !(p <= q < ts.len()) {
            None
        } else if is_tok(ts, q, TokenType::Dedent) || at_end(ts, q) {
            if is_tok(ts, q, TokenType::Dedent) { Some((q + 1, StmtV::Block(acc))) } else { None }
        } else {
            match declaration_spec(ts, q) {
                None => None,
                Some((q1, d)) => if q < q1 <= ts.len() { block_loop(ts, q1, acc.push(d)) } else { None },
            }
        }
    } else if is_tok(ts, p, TokenType::Dedent) {
        Some((p + 1, StmtV::Block(acc)))
    } else {
        None
    }
}

/// Declarations from `p` up to `EOF`, line breaks between them passed over.
pub open spec fn statements_spec(ts: Seq<TokenView>, p: int, acc: Seq<StmtV>) -> Parsed<Seq<StmtV>>
    decreases ts.len() - p,
{
    if 0 <= p < ts.len() && !at_end(ts, p) {
        let q = skip_nl(ts, p);
        if !(p <= q < ts.len()) {
            None
        } else if at_end(ts, q) {
            Some((q, acc))
        } else {
            match declaration_spec(ts, q) {
                None => None,
                Some((q1, d)) => if q < q1 <= ts.len() { statements_spec(ts, q1, acc.push(d)) } else { None },
            }
        }
    } else {
        Some((p, acc))
    }
}

/// The statements of a program's source text, or `None` where scanning or
/// parsing fails.
pub open spec fn program_spec(source: Seq<char>) -> Option<Seq<StmtV>> {
    if scan_spec(source).1 is Some {
        None
    } else {
        match statements_spec(scan_spec(source).0, 0, Seq::empty()) {
            None => None,
            Some((_, ss)) => Some(ss),
        }
    }
}

/// The one expression that a source text holds, or `None` where scanning
/// or parsing fails or more than line breaks follow it.
pub open spec fn expression_source_spec(source: Seq<char>) -> Option<ExprV> {
    if scan_spec(source).1 is Some {
        None
    } else {
        match single_expression_spec(scan_spec(source).0, 0) {
            None => None,
            Some((_, e)) => Some(e),
        }
    }
}

} // verus!
