//! Source text to statements: scanning then parsing, with every diagnostic
//! handed back in the order it was found.

use vstd::prelude::*;
use crate::ast::{Expr, Stmt, expr_v, stmts_v};
use crate::grammar::{program_spec, expression_source_spec};
use crate::parser::Parser;
use crate::scanner::{scan, scan_spec};

verus! {

/// Scans and parses a whole program: the statements are those of
/// [`program_spec`].  A scanning diagnostic stops before parsing; otherwise
/// the parser's diagnostics are returned on failure.
pub fn parse_program(source: &str) -> (r: Result<Vec<Stmt>, Vec<String>>)
    requires
        source@.len() < usize::MAX / 8,
    ensures
        r matches Err(ms) ==> ms@.len() >= 1,
        scan_spec(source@).1 matches Some(d) ==> r matches Err(ms) && ms@.len() == 1 && ms@[0]@ == d,
        r is Ok <==> program_spec(source@) is Some,
        r matches Ok(ss) ==> program_spec(source@) == Some(stmts_v(ss@)),
{
    let (tokens, diagnostic) = scan(source);
    if let Some(d) = diagnostic {
        let mut ms: Vec<String> = Vec::new();
        ms.push(d);
        return Err(ms);
    }
    let mut parser = Parser::new(tokens);
    match parser.parse_statements() {
        Ok(stmts) => Ok(stmts),
        Err(()) => Err(parser.take_messages()),
    }
}

/// Scans and parses a single expression, which only line breaks may follow
/// (what `hyper parse` prints).  Diagnostics come back as for a program.
pub fn parse_expression(source: &str) -> (r: Result<Expr, Vec<String>>)
    requires
        source@.len() < usize::MAX / 8,
    ensures
        r matches Err(ms) ==> ms@.len() >= 1,
        scan_spec(source@).1 matches Some(d) ==> r matches Err(ms) && ms@.len() == 1 && ms@[0]@ == d,
        r is Ok <==> expression_source_spec(source@) is Some,
        r matches Ok(e) ==> expression_source_spec(source@) == Some(expr_v(e)),
{
    let (tokens, diagnostic) = scan(source);
    if let Some(d) = diagnostic {
        let mut ms: Vec<String> = Vec::new();
        ms.push(d);
        return Err(ms);
    }
    let mut parser = Parser::new(tokens);
    match parser.parse() {
        Ok(e) => Ok(e),
        Err(()) => Err(parser.take_messages()),
    }
}

} // verus!
