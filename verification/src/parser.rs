//! The recursive-descent parser: tokens to statements and expressions.
//!
//! Every parse function keeps the token list unchanged, only moves the
//! cursor forward, and on success has consumed at least one token.  The
//! cursor never passes the final `EOF` token.  Diagnostics are collected in
//! order in `messages`.  What each function builds, and where it stops, is
//! the rule of the same name in `grammar`: it succeeds exactly when the rule
//! does, with the tree the rule gives.

use vstd::prelude::*;
use crate::ast::{
    BinOp, UnaryOp, CallArg, FStringPart, Literal, TypeAnn, Expr, Param, FunctionDecl,
    StructField, MethodDecl, ForKind, ForIter, ImportName, Stmt,
};
use crate::scanner::{
    Token, TokenType, TokenView, token_views, tokens_wf, fstrings_within, fstring_bound,
    lemma_fstring_bound_above, lemma_fstring_bound_within, scan_chars,
};
use crate::ast::{
    StmtV, FunctionDeclV, MethodDeclV, StructFieldV, ParamV, ImportNameV, stmt_v, stmts_v, fn_v, fns_v,
    methods_v, fields_v, field_v, params_v, param_v, import_names_v, import_name_v, type_ann_v, for_iter_v,
    lemma_stmts_v_push, lemma_fns_v_push, lemma_methods_v_push,
    ExprV, CallArgV, FStringPartV, expr_v, exprs_v, pairs_v, args_v, arg_v, parts_v, lemma_exprs_v_push,
    lemma_pairs_v_push, lemma_args_v_push, lemma_parts_v_push,
};
use crate::grammar::{
    Parsed, is_tok, at_end, skip_nl, bin_op, un_op, flush, brace_scan, is_member_token, single_expression_spec,
    expression_spec, assignment_spec, ternary_spec, binary_spec, binary_loop, unary_spec, postfix_spec,
    postfix_loop, collection_spec, dict_loop, list_loop, call_arg_spec, call_args_spec, call_args_loop,
    method_args_spec, method_args_loop, primary_spec, fstr_loop, input_spec, identifier_spec, member_spec, call_spec,
    statements_spec, declaration_spec, deco_loop,
    import_spec, import_from_spec, names_loop, struct_spec, struct_loop, trait_spec, trait_loop, function_spec,
    params_loop, let_type_spec, let_spec, statement_spec, with_spec, if_spec, while_spec, for_iter_spec, for_spec,
    return_spec, print_spec, block_spec, block_loop, expr_stmt_spec, step, nl_opt, body_start, field_spec, method_spec,
};
use crate::text::{chars_of, append_chars, append_str, u64_decimal, string_from_chars, string_chars, copy_string, to_string};

verus! {

pub struct Parser {
    tokens: Vec<Token>,
    current: usize,
    messages: Vec<String>,
}

/// What a parser needs of its tokens: at least one, and an `EOF` token last.
pub open spec fn parser_tokens_ok(ts: Seq<TokenView>) -> bool {
    ts.len() >= 1 && ts.last().token_type == TokenType::EOF
}

impl Parser {
    /// The tokens being parsed.
    pub closed spec fn token_seq(&self) -> Seq<TokenView> {
        token_views(self.tokens@)
    }

    /// The index of the next token to read.
    pub closed spec fn position(&self) -> nat {
        self.current as nat
    }

    /// The diagnostics recorded so far.
    pub closed spec fn message_seq(&self) -> Seq<Seq<char>> {
        self.messages@.map_values(|m: String| m@)
    }

    pub closed spec fn wf(&self) -> bool {
        &&& parser_tokens_ok(token_views(self.tokens@))
        &&& self.current < self.tokens@.len()
    }

    /// `self` is `before` with the cursor moved forward (or kept) and
    /// possibly more diagnostics.
    pub closed spec fn moved_from(&self, before: &Parser) -> bool {
        &&& self.wf()
        &&& self.tokens@ == before.tokens@
        &&& before.current <= self.current
        &&& before.messages@.len() <= self.messages@.len()
    }

    /// Whether the next token is `EOF`.
    pub closed spec fn at_end_spec(&self) -> bool {
        token_views(self.tokens@)[self.current as int].token_type == TokenType::EOF
    }

    /// A parser over `tokens`, positioned at the first token.
    pub fn new(tokens: Vec<Token>) -> (p: Parser)
        requires
            parser_tokens_ok(token_views(tokens@)),
        ensures
            p.wf(),
            p.token_seq() == token_views(tokens@),
            p.position() == 0,
            p.message_seq() == Seq::<Seq<char>>::empty(),
    {
        let p = Parser { tokens, current: 0, messages: Vec::new() };
        assert(p.message_seq() =~= Seq::<Seq<char>>::empty());
        p
    }

    /// Hands over the diagnostics recorded so far.
    pub fn take_messages(&mut self) -> (r: Vec<String>)
        ensures
            r@.map_values(|m: String| m@) == old(self).message_seq(),
            final(self).message_seq() == Seq::<Seq<char>>::empty(),
            final(self).token_seq() == old(self).token_seq(),
            final(self).position() == old(self).position(),
            old(self).wf() ==> final(self).wf(),
    {
        let mut out: Vec<String> = Vec::new();
        std::mem::swap(&mut out, &mut self.messages);
        assert(self.message_seq() =~= Seq::<Seq<char>>::empty());
        out
    }

    // -----------------------------------------------------------------------
    // Cursor primitives

    fn peek_type(&self) -> (t: TokenType)
        requires
            self.wf(),
        ensures
            t == token_views(self.tokens@)[self.current as int].token_type,
    {
        self.tokens[self.current].token_type
    }

    fn is_at_end(&self) -> (r: bool)
        requires
            self.wf(),
        ensures
            r == self.at_end_spec(),
    {
        self.tokens[self.current].token_type == TokenType::EOF
    }

    fn check(&self, t: TokenType) -> (r: bool)
        requires
            self.wf(),
        ensures
            r == (!self.at_end_spec() && token_views(self.tokens@)[self.current as int].token_type == t),
    {
        if self.is_at_end() {
            return false;
        }
        self.peek_type() == t
    }

    proof fn lemma_not_at_end_room(&self)
        requires
            self.wf(),
            !self.at_end_spec(),
        ensures
            self.current + 1 < self.tokens@.len(),
    {
        if self.current + 1 >= self.tokens@.len() {
            assert(self.current == self.tokens@.len() - 1);
            assert(token_views(self.tokens@)[self.current as int] == token_views(self.tokens@).last());
        }
    }

    fn advance(&mut self)
        requires
            old(self).wf(),
        ensures
            final(self).moved_from(old(self)),
            final(self).current == if old(self).at_end_spec() { old(self).current as int } else { old(self).current + 1 },
            final(self).messages@ == old(self).messages@,
    {
        if !self.is_at_end() {
            proof { self.lemma_not_at_end_room(); }
            let n = self.tokens.len();
            assert(self.current + 1 < n);
            self.current = self.current + 1;
        }
    }

    fn match_type(&mut self, t: TokenType) -> (r: bool)
        requires
            old(self).wf(),
        ensures
            final(self).moved_from(old(self)),
            r == (!old(self).at_end_spec() && token_views(old(self).tokens@)[old(self).current as int].token_type == t),
            r ==> final(self).current == old(self).current + 1,
            !r ==> final(self).current == old(self).current,
            final(self).messages@ == old(self).messages@,
    {
        if self.check(t) {
            self.advance();
            true
        } else {
            false
        }
    }

    fn previous_lexeme(&self) -> (s: String)
        requires
            self.wf(),
            self.current >= 1,
        ensures
            s@ == token_views(self.tokens@)[self.current - 1].lexeme,
    {
        copy_string(&self.tokens[self.current - 1].lexeme)
    }

    fn previous_literal(&self) -> (s: String)
        requires
            self.wf(),
            self.current >= 1,
        ensures
            s@ == token_views(self.tokens@)[self.current - 1].literal,
    {
        copy_string(&self.tokens[self.current - 1].literal)
    }

    fn previous_line(&self) -> (l: usize)
        requires
            self.wf(),
            self.current >= 1,
        ensures
            l == token_views(self.tokens@)[self.current - 1].line,
    {
        self.tokens[self.current - 1].line
    }

    fn peek_line(&self) -> (l: usize)
        requires
            self.wf(),
        ensures
            l == token_views(self.tokens@)[self.current as int].line,
    {
        self.tokens[self.current].line
    }

    fn peek_lexeme(&self) -> (s: String)
        requires
            self.wf(),
        ensures
            s@ == token_views(self.tokens@)[self.current as int].lexeme,
    {
        copy_string(&self.tokens[self.current].lexeme)
    }

    // -----------------------------------------------------------------------
    // Diagnostics

    fn push_message(&mut self, m: Vec<char>)
        ensures
            final(self).tokens@ == old(self).tokens@,
            final(self).current == old(self).current,
            final(self).message_seq() == old(self).message_seq().push(m@),
            final(self).messages@.len() == old(self).messages@.len() + 1,
    {
        let ghost before = self.message_seq();
        self.messages.push(string_from_chars(m));
        assert(self.message_seq() =~= before.push(m@));
    }

    /// Records `[line N] Error at 'lexeme': message` (or `at end` at `EOF`)
    /// for the next token.
    fn error_at_current(&mut self, message: &str)
        requires
            old(self).wf(),
        ensures
            final(self).tokens@ == old(self).tokens@,
            final(self).current == old(self).current,
            final(self).message_seq().len() == old(self).message_seq().len() + 1,
            final(self).messages@.len() == old(self).messages@.len() + 1,
    {
        let line = self.peek_line();
        let mut m = line_prefix(line);
        if self.is_at_end() {
            append_str(&mut m, "Error at end: ");
        } else {
            append_str(&mut m, "Error at '");
            let lex = string_chars(&self.tokens[self.current].lexeme);
            append_chars(&mut m, &lex);
            append_str(&mut m, "': ");
        }
        append_str(&mut m, message);
        self.push_message(m);
    }

    /// Records `[line N] text`.
    fn error_line(&mut self, line: usize, text: &str)
        ensures
            final(self).tokens@ == old(self).tokens@,
            final(self).current == old(self).current,
            final(self).message_seq().len() == old(self).message_seq().len() + 1,
            final(self).messages@.len() == old(self).messages@.len() + 1,
    {
        let mut m = line_prefix(line);
        append_str(&mut m, text);
        self.push_message(m);
    }

    fn consume(&mut self, t: TokenType, message: &str) -> (r: Result<(), ()>)
        requires
            old(self).wf(),
        ensures
            r is Err ==> final(self).messages@.len() > old(self).messages@.len(),
            final(self).moved_from(old(self)),
            r is Ok == (!old(self).at_end_spec() && token_views(old(self).tokens@)[old(self).current as int].token_type == t),
            r is Ok ==> final(self).current == old(self).current + 1,
            r is Err ==> final(self).current == old(self).current,
    {
        if self.check(t) {
            self.advance();
            return Ok(());
        }
        self.error_at_current(message);
        Err(())
    }

    fn skip_newlines(&mut self)
        requires
            old(self).wf(),
        ensures
            final(self).moved_from(old(self)),
            final(self).messages@ == old(self).messages@,
            final(self).current as int == skip_nl(old(self).token_seq(), old(self).current as int),
    {
        while self.check(TokenType::Newline)
            invariant
                self.moved_from(old(self)),
                self.messages@ == old(self).messages@,
                skip_nl(self.token_seq(), self.current as int) == skip_nl(old(self).token_seq(), old(self).current as int),
            decreases self.tokens@.len() - self.current,
        {
            self.advance();
        }
    }

    // -----------------------------------------------------------------------
    // Expressions

    /// Parses one expression and requires that only line breaks follow it.
    pub fn parse(&mut self) -> (r: Result<Expr, ()>)
        requires
            old(self).wf(),
        ensures
            r is Err ==> final(self).message_seq().len() > old(self).message_seq().len(),
            final(self).moved_from(old(self)),
            r is Ok ==> final(self).at_end_spec(),
            yields_expr(r, final(self).position() as int,
                single_expression_spec(old(self).token_seq(), old(self).position() as int)),
    {
        let result = self.expression()?;
        self.skip_newlines();
        if !self.is_at_end() {
            let line = self.peek_line();
            let mut m = line_prefix(line);
            append_str(&mut m, "Error at '");
            let lex = string_chars(&self.tokens[self.current].lexeme);
            append_chars(&mut m, &lex);
            append_str(&mut m, "': Expect expression.");
            self.push_message(m);
            return Err(());
        }
        Ok(result)
    }

    pub fn expression(&mut self) -> (r: Result<Expr, ()>)
        requires
            old(self).wf(),
        ensures
            r is Err ==> final(self).message_seq().len() > old(self).message_seq().len(),
            final(self).moved_from(old(self)),
            r is Ok ==> final(self).position() > old(self).position(),
            yields_expr(r, final(self).position() as int,
                expression_spec(old(self).token_seq(), old(self).position() as int)),
        decreases fstring_bound(old(self).token_seq()), old(self).token_seq().len() - old(self).position(), 40int,
    {
        self.assignment()
    }

    fn assignment(&mut self) -> (r: Result<Expr, ()>)
        requires
            old(self).wf(),
        ensures
            r is Err ==> final(self).messages@.len() > old(self).messages@.len(),
            final(self).moved_from(old(self)),
            r is Ok ==> final(self).current > old(self).current,
            yields_expr(r, final(self).current as int, assignment_spec(old(self).token_seq(), old(self).current as int)),
        decreases fstring_bound(old(self).token_seq()), old(self).token_seq().len() - old(self).position(), 39int,
    {
        let expr = self.ternary()?;
        if self.match_type(TokenType::Equal) {
            let value = self.assignment()?;
            match expr {
                Expr::Variable { name, .. } => {
                    return Ok(Expr::Assign { name, value: Box::new(value) });
                },
                Expr::GetField { object, field } => {
                    return Ok(Expr::SetField { object, field, value: Box::new(value) });
                },
                Expr::Index { object, index } => {
                    return Ok(Expr::IndexSet { object, index, value: Box::new(value) });
                },
                _ => {
                    let line = self.previous_line();
                    self.error_line(line, "Error: Invalid assignment target.");
                    return Err(());
                },
            }
        }
        Ok(expr)
    }

    fn ternary(&mut self) -> (r: Result<Expr, ()>)
        requires
            old(self).wf(),
        ensures
            r is Err ==> final(self).messages@.len() > old(self).messages@.len(),
            final(self).moved_from(old(self)),
            r is Ok ==> final(self).current > old(self).current,
            yields_expr(r, final(self).current as int, ternary_spec(old(self).token_seq(), old(self).current as int)),
        decreases fstring_bound(old(self).token_seq()), old(self).token_seq().len() - old(self).position(), 38int,
    {
        let expr = self.binary_level(6)?;
        if self.match_type(TokenType::If) {
            let condition = self.binary_level(6)?;
            if !self.match_type(TokenType::Else) {
                let line = self.peek_line();
                self.error_line(line, "Error: Expected 'else' in ternary expression.");
                return Err(());
            }
            let else_expr = self.ternary()?;
            return Ok(Expr::Ternary {
                condition: Box::new(condition),
                then_branch: Box::new(expr),
                else_branch: Box::new(else_expr),
            });
        }
        Ok(expr)
    }

    /// The operator of binding level `lvl` that the next token stands for,
    /// consumed if there is one.
    fn match_binary_op(&mut self, lvl: u8) -> (r: Option<BinOp>)
        requires
            old(self).wf(),
        ensures
            final(self).moved_from(old(self)),
            final(self).messages@ == old(self).messages@,
            r == bin_op(lvl as nat, token_views(old(self).tokens@)[old(self).current as int].token_type),
            r is Some ==> final(self).current == old(self).current + 1,
            r is None ==> final(self).current == old(self).current,
    {
        let op = binary_op_for(lvl, self.peek_type());
        if op.is_some() {
            self.advance();
        }
        op
    }

    /// A left-associative chain of the operators of level `lvl`, each operand
    /// one level tighter (`unary` below level 0).
    fn binary_level(&mut self, lvl: u8) -> (r: Result<Expr, ()>)
        requires
            old(self).wf(),
            lvl <= 6,
        ensures
            r is Err ==> final(self).messages@.len() > old(self).messages@.len(),
            final(self).moved_from(old(self)),
            r is Ok ==> final(self).current > old(self).current,
            yields_expr(r, final(self).current as int,
                binary_spec(old(self).token_seq(), old(self).current as int, lvl as nat)),
        decreases fstring_bound(old(self).token_seq()), old(self).token_seq().len() - old(self).position(),
            2 * lvl + 20,
    {
        let ghost ts = self.token_seq();
        let ghost p0 = self.current as int;
        let mut expr = if lvl == 0 { self.unary()? } else { self.binary_level(lvl - 1)? };
        loop
            invariant_except_break
                binary_spec(ts, p0, lvl as nat) == binary_loop(ts, self.current as int, lvl as nat, expr_v(expr)),
            invariant
                self.moved_from(old(self)),
                self.current > old(self).current,
                ts == self.token_seq(),
                p0 == old(self).current,
                lvl <= 6,
            ensures
                binary_spec(ts, p0, lvl as nat) == Some((self.current as int, expr_v(expr))),
            decreases self.tokens@.len() - self.current,
        {
            let op = match self.match_binary_op(lvl) {
                Some(op) => op,
                None => {
                    break;
                },
            };
            let right = if lvl == 0 { self.unary()? } else { self.binary_level(lvl - 1)? };
            expr = Expr::Binary { op, left: Box::new(expr), right: Box::new(right) };
        }
        Ok(expr)
    }

    fn unary(&mut self) -> (r: Result<Expr, ()>)
        requires
            old(self).wf(),
        ensures
            r is Err ==> final(self).messages@.len() > old(self).messages@.len(),
            final(self).moved_from(old(self)),
            r is Ok ==> final(self).current > old(self).current,
            yields_expr(r, final(self).current as int, unary_spec(old(self).token_seq(), old(self).current as int)),
        decreases fstring_bound(old(self).token_seq()), old(self).token_seq().len() - old(self).position(), 18int,
    {
        let t = self.peek_type();
        if let Some(op) = unary_op_for(t) {
            self.advance();
            let right = self.unary()?;
            return Ok(Expr::Unary { op, right: Box::new(right) });
        }
        self.postfix()
    }

    fn postfix(&mut self) -> (r: Result<Expr, ()>)
        requires
            old(self).wf(),
        ensures
            r is Err ==> final(self).messages@.len() > old(self).messages@.len(),
            final(self).moved_from(old(self)),
            r is Ok ==> final(self).current > old(self).current,
            yields_expr(r, final(self).current as int, postfix_spec(old(self).token_seq(), old(self).current as int)),
        decreases fstring_bound(old(self).token_seq()), old(self).token_seq().len() - old(self).position(), 17int,
    {
        let ghost ts = self.token_seq();
        let ghost p0 = self.current as int;
        let mut expr = self.primary()?;
        loop
            invariant_except_break
                postfix_spec(ts, p0) == postfix_loop(ts, self.current as int, expr_v(expr)),
            invariant
                self.moved_from(old(self)),
                self.current > old(self).current,
                ts == self.token_seq(),
                p0 == old(self).current,
            ensures
                postfix_spec(ts, p0) == Some((self.current as int, expr_v(expr))),
            decreases self.tokens@.len() - self.current,
        {
            if !self.match_type(TokenType::LeftBracket) {
                break;
            }
            let index = self.expression()?;
            self.consume(TokenType::RightBracket, "Expect ']' after index.")?;
            expr = Expr::Index { object: Box::new(expr), index: Box::new(index) };
        }
        Ok(expr)
    }

    #[verifier::rlimit(80)]
    #[verifier::spinoff_prover]
    fn parse_collection_after_open(&mut self, close: TokenType, close_msg: &str) -> (r: Result<Expr, ()>)
        requires
            old(self).wf(),
        ensures
            r is Err ==> final(self).messages@.len() > old(self).messages@.len(),
            final(self).moved_from(old(self)),
            r is Ok ==> final(self).current > old(self).current,
            yields_expr(r, final(self).current as int,
                collection_spec(old(self).token_seq(), old(self).current as int, close)),
        decreases fstring_bound(old(self).token_seq()), old(self).token_seq().len() - old(self).position(), 41int,
    {
        let ghost ts = self.token_seq();
        let ghost p0 = self.current as int;
        if self.check(close) {
            self.advance();
            let empty: Vec<Expr> = Vec::new();
            assert(exprs_v(empty@) =~= Seq::<ExprV>::empty());
            return Ok(Expr::List(empty));
        }
        let first_key = self.expression()?;
        if self.match_type(TokenType::Colon) {
            let first_val = self.expression()?;
            let mut entries: Vec<(Expr, Expr)> = Vec::new();
            proof {
                lemma_pairs_v_push(entries@, (first_key, first_val));
                assert(pairs_v(entries@) =~= Seq::<(ExprV, ExprV)>::empty());
            }
            entries.push((first_key, first_val));
            loop
                invariant_except_break
                    collection_spec(ts, p0, close) == dict_loop(ts, self.current as int, close, pairs_v(entries@)),
                invariant
                    self.moved_from(old(self)),
                    self.current > old(self).current,
                    ts == self.token_seq(),
                    p0 == old(self).current,
                ensures
                    collection_spec(ts, p0, close) == (if is_tok(ts, self.current as int, close) {
                        Some((self.current + 1, ExprV::Dict(pairs_v(entries@))))
                    } else {
                        None
                    }),
                decreases self.tokens@.len() - self.current,
            {
                if !self.match_type(TokenType::Comma) {
                    break;
                }
                if self.check(close) {
                    break;
                }
                let key = self.expression()?;
                self.consume(TokenType::Colon, "Expect ':' after dictionary key.")?;
                let value = self.expression()?;
                proof {
                    lemma_pairs_v_push(entries@, (key, value));
                }
                entries.push((key, value));
            }
            self.consume(close, close_msg)?;
            return Ok(Expr::Dict(entries));
        }
        let mut elements: Vec<Expr> = Vec::new();
        proof {
            lemma_exprs_v_push(elements@, first_key);
            assert(exprs_v(elements@) =~= Seq::<ExprV>::empty());
        }
        elements.push(first_key);
        loop
            invariant_except_break
                collection_spec(ts, p0, close) == list_loop(ts, self.current as int, close, exprs_v(elements@)),
            invariant
                self.moved_from(old(self)),
                self.current > old(self).current,
                ts == self.token_seq(),
                p0 == old(self).current,
            ensures
                collection_spec(ts, p0, close) == (if is_tok(ts, self.current as int, close) {
                    Some((self.current + 1, ExprV::List(exprs_v(elements@))))
                } else {
                    None
                }),
            decreases self.tokens@.len() - self.current,
        {
            if !self.match_type(TokenType::Comma) {
                break;
            }
            if self.check(close) {
                break;
            }
            let e = self.expression()?;
            proof {
                lemma_exprs_v_push(elements@, e);
            }
            elements.push(e);
        }
        self.consume(close, close_msg)?;
        Ok(Expr::List(elements))
    }

    fn parse_call_argument(&mut self) -> (r: Result<CallArg, ()>)
        requires
            old(self).wf(),
        ensures
            r is Err ==> final(self).messages@.len() > old(self).messages@.len(),
            final(self).moved_from(old(self)),
            r is Ok ==> final(self).current > old(self).current,
            match r {
                Ok(a) => call_arg_spec(old(self).token_seq(), old(self).current as int)
                    == Some((final(self).current as int, arg_v(a))),
                Err(_) => call_arg_spec(old(self).token_seq(), old(self).current as int) is None,
            },
        decreases fstring_bound(old(self).token_seq()), old(self).token_seq().len() - old(self).position(), 41int,
    {
        if self.check(TokenType::Identifier) {
            let n = self.tokens.len();
            assert(self.current < n);
            let next_idx = self.current + 1;
            if next_idx < self.tokens.len() && self.tokens[next_idx].token_type == TokenType::Colon {
                assert(token_views(self.tokens@)[next_idx as int].token_type == TokenType::Colon);
                self.advance();
                let name = self.previous_lexeme();
                self.advance();
                let value = self.expression()?;
                return Ok(CallArg::Named { name, value });
            }
            assert(!(next_idx < self.tokens@.len()
                && token_views(self.tokens@)[next_idx as int].token_type == TokenType::Colon));
        }
        let e = self.expression()?;
        Ok(CallArg::Positional(e))
    }

    /// Parses comma-separated call arguments up to the closing parenthesis
    /// (which is left for the caller).
    fn call_arguments(&mut self) -> (r: Result<Vec<CallArg>, ()>)
        requires
            old(self).wf(),
        ensures
            r is Err ==> final(self).messages@.len() > old(self).messages@.len(),
            final(self).moved_from(old(self)),
            match r {
                Ok(a) => call_args_spec(old(self).token_seq(), old(self).current as int)
                    == Some((final(self).current as int, args_v(a@))),
                Err(_) => call_args_spec(old(self).token_seq(), old(self).current as int) is None,
            },
        decreases fstring_bound(old(self).token_seq()), old(self).token_seq().len() - old(self).position(), 43int,
    {
        let ghost ts = self.token_seq();
        let ghost p0 = self.current as int;
        let mut args: Vec<CallArg> = Vec::new();
        assert(args_v(args@) =~= Seq::<CallArgV>::empty());
        if !self.check(TokenType::RightParen) {
            loop
                invariant_except_break
                    call_args_spec(ts, p0) == call_args_loop(ts, self.current as int, args_v(args@)),
                invariant
                    self.moved_from(old(self)),
                    ts == self.token_seq(),
                    p0 == old(self).current,
                ensures
                    call_args_spec(ts, p0) == Some((self.current as int, args_v(args@))),
                decreases self.tokens@.len() - self.current,
            {
                let a = self.parse_call_argument()?;
                proof {
                    lemma_args_v_push(args@, a);
                }
                args.push(a);
                if !self.match_type(TokenType::Comma) {
                    break;
                }
            }
        }
        Ok(args)
    }

    /// Parses comma-separated method arguments up to the closing parenthesis.
    fn method_arguments(&mut self) -> (r: Result<Vec<Expr>, ()>)
        requires
            old(self).wf(),
        ensures
            r is Err ==> final(self).messages@.len() > old(self).messages@.len(),
            final(self).moved_from(old(self)),
            match r {
                Ok(a) => method_args_spec(old(self).token_seq(), old(self).current as int)
                    == Some((final(self).current as int, exprs_v(a@))),
                Err(_) => method_args_spec(old(self).token_seq(), old(self).current as int) is None,
            },
        decreases fstring_bound(old(self).token_seq()), old(self).token_seq().len() - old(self).position(), 43int,
    {
        let ghost ts = self.token_seq();
        let ghost p0 = self.current as int;
        let mut args: Vec<Expr> = Vec::new();
        assert(exprs_v(args@) =~= Seq::<ExprV>::empty());
        if !self.check(TokenType::RightParen) {
            loop
                invariant_except_break
                    method_args_spec(ts, p0) == method_args_loop(ts, self.current as int, exprs_v(args@)),
                invariant
                    self.moved_from(old(self)),
                    ts == self.token_seq(),
                    p0 == old(self).current,
                ensures
                    method_args_spec(ts, p0) == Some((self.current as int, exprs_v(args@))),
                decreases self.tokens@.len() - self.current,
            {
                let a = self.expression()?;
                proof {
                    lemma_exprs_v_push(args@, a);
                }
                args.push(a);
                if !self.match_type(TokenType::Comma) {
                    break;
                }
            }
        }
        Ok(args)
    }

    fn primary(&mut self) -> (r: Result<Expr, ()>)
        requires
            old(self).wf(),
        ensures
            r is Err ==> final(self).messages@.len() > old(self).messages@.len(),
            final(self).moved_from(old(self)),
            r is Ok ==> final(self).current > old(self).current,
            yields_expr(r, final(self).current as int, primary_spec(old(self).token_seq(), old(self).current as int)),
        decreases fstring_bound(old(self).token_seq()), old(self).token_seq().len() - old(self).position(), 16int,
    {
        if self.match_type(TokenType::False) {
            return Ok(Expr::Literal(Literal::Bool(false)));
        }
        if self.match_type(TokenType::True) {
            return Ok(Expr::Literal(Literal::Bool(true)));
        }
        if self.match_type(TokenType::NoneKeyword) {
            return Ok(Expr::Literal(Literal::NoneValue));
        }
        if self.match_type(TokenType::LeftBrace) {
            return self.parse_collection_after_open(TokenType::RightBrace, "Expect '}' after collection.");
        }
        if self.match_type(TokenType::LeftBracket) {
            return self.parse_collection_after_open(TokenType::RightBracket, "Expect ']' after collection.");
        }
        if self.check(TokenType::Input) {
            return self.input_call();
        }
        if self.match_type(TokenType::FString) {
            let content = self.previous_literal();
            let line = self.previous_line();
            proof {
                lemma_fstring_bound_above(token_views(self.tokens@), self.current - 1);
            }
            let chars = string_chars(&content);
            return self.parse_f_string(&chars, line);
        }
        if self.check(TokenType::Identifier) {
            return self.identifier_expr();
        }
        if self.match_type(TokenType::String) {
            let lit = self.previous_literal();
            return Ok(Expr::Literal(Literal::String(lit)));
        }
        if self.match_type(TokenType::Number) {
            let lit = self.previous_literal();
            return Ok(Expr::Literal(Literal::Number(lit)));
        }
        if self.match_type(TokenType::LeftParen) {
            let expr = self.expression()?;
            self.consume(TokenType::RightParen, "Expect ')' after expression.")?;
            return Ok(Expr::Group(Box::new(expr)));
        }
        self.error_at_current("Expect expression.");
        Err(())
    }

    /// `input(...)`, the cursor on the `input` word.
    #[verifier::rlimit(80)]
    #[verifier::spinoff_prover]
    fn input_call(&mut self) -> (r: Result<Expr, ()>)
        requires
            old(self).wf(),
            is_tok(old(self).token_seq(), old(self).current as int, TokenType::Input),
        ensures
            r is Err ==> final(self).messages@.len() > old(self).messages@.len(),
            final(self).moved_from(old(self)),
            r is Ok ==> final(self).current > old(self).current,
            yields_expr(r, final(self).current as int, input_spec(old(self).token_seq(), old(self).current as int)),
        decreases fstring_bound(old(self).token_seq()), old(self).token_seq().len() - old(self).position(), 15int,
    {
        let ghost ts = self.token_seq();
        let ghost p0 = self.current as int;
        self.advance();
        let line = self.previous_line() as u32;
        assert(line == ts[p0].line as u32);
        self.consume(TokenType::LeftParen, "Expect '(' after input.")?;
        if self.check(TokenType::RightParen) {
            self.advance();
            let args: Vec<CallArg> = Vec::new();
            assert(args_v(args@) =~= Seq::<CallArgV>::empty());
            let callee = Expr::Variable { name: to_string("input"), line };
            assert(expr_v(callee) == ExprV::Variable("input"@, line));
            return Ok(Expr::Call { callee: Box::new(callee), args });
        }
        let e = self.expression()?;
        self.consume(TokenType::RightParen, "Expect ')' after input argument.")?;
        let mut args: Vec<CallArg> = Vec::new();
        proof {
            lemma_args_v_push(args@, CallArg::Positional(e));
            assert(args_v(args@) =~= Seq::<CallArgV>::empty());
        }
        args.push(CallArg::Positional(e));
        assert(args_v(args@) =~= seq![CallArgV::Positional(expr_v(e))]);
        let callee = Expr::Variable { name: to_string("input"), line };
        assert(expr_v(callee) == ExprV::Variable("input"@, line));
        Ok(Expr::Call { callee: Box::new(callee), args })
    }

    /// A call, method call, field or variable, the cursor on its first name.
    fn identifier_expr(&mut self) -> (r: Result<Expr, ()>)
        requires
            old(self).wf(),
            is_tok(old(self).token_seq(), old(self).current as int, TokenType::Identifier),
        ensures
            r is Err ==> final(self).messages@.len() > old(self).messages@.len(),
            final(self).moved_from(old(self)),
            r is Ok ==> final(self).current > old(self).current,
            yields_expr(r, final(self).current as int, identifier_spec(old(self).token_seq(), old(self).current as int)),
        decreases fstring_bound(old(self).token_seq()), old(self).token_seq().len() - old(self).position(), 15int,
    {
        let ghost ts = self.token_seq();
        let ghost p0 = self.current as int;
        let n = self.tokens.len();
        let next_idx = self.current + 1;
        assert(next_idx < n) by {
            self.lemma_not_at_end_room();
        }
        let next = self.tokens[next_idx].token_type;
        assert(next == ts[p0 + 1].token_type);
        if next == TokenType::Dot {
            return self.member_expr();
        }
        if next == TokenType::LeftParen {
            return self.call_expr();
        }
        self.advance();
        let name = self.previous_lexeme();
        let line = self.previous_line() as u32;
        Ok(Expr::Variable { name, line })
    }

    /// `a.m(...)` or `a.f`, the cursor on `a`.
    #[verifier::rlimit(80)]
    #[verifier::spinoff_prover]
    fn member_expr(&mut self) -> (r: Result<Expr, ()>)
        requires
            old(self).wf(),
            is_tok(old(self).token_seq(), old(self).current as int, TokenType::Identifier),
            is_tok(old(self).token_seq(), old(self).current + 1, TokenType::Dot),
        ensures
            r is Err ==> final(self).messages@.len() > old(self).messages@.len(),
            final(self).moved_from(old(self)),
            r is Ok ==> final(self).current > old(self).current,
            yields_expr(r, final(self).current as int, member_spec(old(self).token_seq(), old(self).current as int)),
        decreases fstring_bound(old(self).token_seq()), old(self).token_seq().len() - old(self).position(), 14int,
    {
        self.advance();
        let name = self.previous_lexeme();
        self.advance();
        let member_name = self.consume_member_name("Expect property or method name after '.'")?;
        if self.match_type(TokenType::LeftParen) {
            let args = self.method_arguments()?;
            self.consume(TokenType::RightParen, "Expect ')' after arguments.")?;
            return Ok(Expr::CallMethod { object: name, method: member_name, args });
        }
        Ok(Expr::GetField { object: name, field: member_name })
    }

    /// `f(args...)`, the cursor on `f`.
    #[verifier::rlimit(80)]
    #[verifier::spinoff_prover]
    fn call_expr(&mut self) -> (r: Result<Expr, ()>)
        requires
            old(self).wf(),
            is_tok(old(self).token_seq(), old(self).current as int, TokenType::Identifier),
            is_tok(old(self).token_seq(), old(self).current + 1, TokenType::LeftParen),
        ensures
            r is Err ==> final(self).messages@.len() > old(self).messages@.len(),
            final(self).moved_from(old(self)),
            r is Ok ==> final(self).current > old(self).current,
            yields_expr(r, final(self).current as int, call_spec(old(self).token_seq(), old(self).current as int)),
        decreases fstring_bound(old(self).token_seq()), old(self).token_seq().len() - old(self).position(), 14int,
    {
        self.advance();
        let name = self.previous_lexeme();
        let line = self.previous_line() as u32;
        self.advance();
        let args = self.call_arguments()?;
        self.consume(TokenType::RightParen, "Expect ')' after arguments.")?;
        let callee = Expr::Variable { name, line };
        assert(expr_v(callee) == ExprV::Variable(name@, line));
        Ok(Expr::Call { callee: Box::new(callee), args })
    }

    /// Splits the text of an f-string into literal runs and `{expression}`
    /// parts; `{{` and `}}` stand for braces, and a backslash keeps the next
    /// character as written.  Each embedded expression is scanned and parsed
    /// on its own.
    fn parse_f_string(&mut self, content: &Vec<char>, line: usize) -> (r: Result<Expr, ()>)
        requires
            old(self).wf(),
            content@.len() < fstring_bound(token_views(old(self).tokens@)),
        ensures
            r is Err ==> final(self).messages@.len() > old(self).messages@.len(),
            final(self).moved_from(old(self)),
            final(self).current == old(self).current,
            yields_expr(r, final(self).current as int, fstr_loop(old(self).token_seq(), old(self).current as int,
                content@, line as nat, 0, Seq::empty(), Seq::empty())),
        decreases fstring_bound(old(self).token_seq()), old(self).token_seq().len() - old(self).position(), 21int,
    {
        let ghost ts = self.token_seq();
        let ghost p = self.current as int;
        let ghost whole = fstr_loop(ts, p, content@, line as nat, 0, Seq::empty(), Seq::empty());
        let mut parts: Vec<FStringPart> = Vec::new();
        let mut current_text: Vec<char> = Vec::new();
        let mut i: usize = 0;
        let n = content.len();
        assert(parts_v(parts@) =~= Seq::<FStringPartV>::empty());
        assert(current_text@ =~= Seq::<char>::empty());
        while i < n
            invariant
                n == content@.len(),
                content@.len() < fstring_bound(token_views(old(self).tokens@)),
                i <= n,
                self.wf(),
                self.messages@.len() >= old(self).messages@.len(),
                self.tokens@ == old(self).tokens@,
                self.current == old(self).current,
                ts == self.token_seq(),
                p == self.current as int,
                whole == fstr_loop(ts, p, content@, line as nat, 0, Seq::empty(), Seq::empty()),
                whole == fstr_loop(ts, p, content@, line as nat, i as int, current_text@, parts_v(parts@)),
            decreases n - i,
        {
            let ghost i0 = i as int;
            let ghost text0 = current_text@;
            let ghost parts0 = parts_v(parts@);
            let ch = content[i];
            i = i + 1;
            if ch == '\\' {
                if i < n {
                    let next_ch = content[i];
                    i = i + 1;
                    current_text.push('\\');
                    current_text.push(next_ch);
                } else {
                    current_text.push('\\');
                }
            } else if ch == '{' {
                if i < n && content[i] == '{' {
                    i = i + 1;
                    current_text.push('{');
                    continue;
                }
                if current_text.len() > 0 {
                    let mut text: Vec<char> = Vec::new();
                    std::mem::swap(&mut text, &mut current_text);
                    let lit = string_from_chars(text);
                    proof {
                        lemma_parts_v_push(parts@, FStringPart::Literal(lit));
                    }
                    parts.push(FStringPart::Literal(lit));
                }
                assert(parts_v(parts@) == flush(text0, parts0));
                let mut expr_str: Vec<char> = Vec::new();
                let mut brace_depth: usize = 1;
                let mut in_string = false;
                let mut string_char = ' ';
                let ghost start = i;
                let ghost scanned = brace_scan(content@, start as int, 1, false, ' ', Seq::empty());
                assert(expr_str@ =~= Seq::<char>::empty());
                while i < n
                    invariant_except_break
                        brace_depth >= 1,
                        scanned == brace_scan(content@, i as int, brace_depth as nat, in_string, string_char, expr_str@),
                    invariant
                        n == content@.len(),
                        start <= i <= n,
                        start >= 1,
                        expr_str@.len() <= i - start,
                        brace_depth <= i - start + 1,
                        scanned == brace_scan(content@, start as int, 1, false, ' ', Seq::empty()),
                    ensures
                        scanned == (i as int, brace_depth as nat, expr_str@),
                    decreases n - i,
                {
                    let c = content[i];
                    i = i + 1;
                    if in_string {
                        expr_str.push(c);
                        if c == string_char {
                            in_string = false;
                        }
                    } else if c == '"' || c == '\'' {
                        in_string = true;
                        string_char = c;
                        expr_str.push(c);
                    } else if c == '{' {
                        brace_depth = brace_depth + 1;
                        expr_str.push(c);
                    } else if c == '}' {
                        if brace_depth == 1 {
                            brace_depth = 0;
                            break;
                        } else {
                            brace_depth = brace_depth - 1;
                            expr_str.push(c);
                        }
                    } else {
                        expr_str.push(c);
                    }
                }
                if brace_depth > 0 {
                    self.error_line(line, "Error: Unterminated expression in f-string.");
                    return Err(());
                }
                if expr_str.len() >= usize::MAX / 8 {
                    self.error_line(line, "Error: Unterminated expression in f-string.");
                    return Err(());
                }
                let ghost expr_len = expr_str@.len();
                let ghost e_view = expr_str@;
                let mut expr_text: Vec<char> = Vec::new();
                append_chars(&mut expr_text, &expr_str);
                let (sub_tokens, diagnostic) = scan_chars(expr_str);
                if let Some(d) = diagnostic {
                    let dm = string_chars(&d);
                    self.push_message(dm);
                    let mut m = line_prefix(line);
                    append_str(&mut m, "Error: Failed to parse expression inside f-string: '");
                    append_chars(&mut m, &expr_text);
                    append_str(&mut m, "'.");
                    self.push_message(m);
                    return Err(());
                }
                proof {
                    lemma_fstring_bound_within(token_views(sub_tokens@), expr_len);
                }
                let mut sub_parser = Parser::new(sub_tokens);
                let sub = sub_parser.expression();
                let mut sub_messages = sub_parser.take_messages();
                self.messages.append(&mut sub_messages);
                assert(self.token_seq() == ts);
                match sub {
                    Ok(sub_ast) => {
                        proof {
                            lemma_parts_v_push(parts@, FStringPart::Expr(sub_ast));
                        }
                        parts.push(FStringPart::Expr(sub_ast));
                        assert(current_text@ =~= Seq::<char>::empty());
                    },
                    Err(()) => {
                        return Err(());
                    },
                }
            } else if ch == '}' {
                if i < n && content[i] == '}' {
                    i = i + 1;
                    current_text.push('}');
                    continue;
                }
                current_text.push('}');
            } else {
                current_text.push(ch);
            }
        }
        if current_text.len() > 0 {
            let lit = string_from_chars(current_text);
            proof {
                lemma_parts_v_push(parts@, FStringPart::Literal(lit));
            }
            parts.push(FStringPart::Literal(lit));
        }
        Ok(Expr::FString { line: line as u32, parts })
    }

    fn is_type_token(t: TokenType) -> (r: bool)
        ensures
            r == is_type_token_spec(t),
    {
        match t {
            TokenType::Identifier | TokenType::TypeI8 | TokenType::TypeI16 | TokenType::TypeI32
            | TokenType::TypeI64 | TokenType::TypeU8 | TokenType::TypeU16 | TokenType::TypeU32
            | TokenType::TypeU64 | TokenType::TypeF32 | TokenType::TypeF64 | TokenType::TypeString
            | TokenType::TypeBool | TokenType::Array | TokenType::Dict => true,
            _ => false,
        }
    }

    fn consume_type_name(&mut self, message: &str) -> (r: Result<String, ()>)
        requires
            old(self).wf(),
        ensures
            r is Err ==> final(self).messages@.len() > old(self).messages@.len(),
            final(self).moved_from(old(self)),
            r is Ok ==> final(self).current == old(self).current + 1,
            r matches Ok(s) ==> s@ == token_views(old(self).tokens@)[old(self).current as int].lexeme
                && is_type_token_spec(token_views(old(self).tokens@)[old(self).current as int].token_type),
            r is Ok == is_type_token_spec(token_views(old(self).tokens@)[old(self).current as int].token_type),
    {
        let t = self.peek_type();
        if Self::is_type_token(t) {
            let lex = self.peek_lexeme();
            self.advance();
            return Ok(lex);
        }
        self.error_at_current(message);
        Err(())
    }

    fn consume_member_name(&mut self, message: &str) -> (r: Result<String, ()>)
        requires
            old(self).wf(),
        ensures
            r is Err ==> final(self).messages@.len() > old(self).messages@.len(),
            final(self).moved_from(old(self)),
            r is Ok ==> final(self).current == old(self).current + 1,
            r matches Ok(s) ==> s@ == token_views(old(self).tokens@)[old(self).current as int].lexeme,
            r is Ok == is_member_token(token_views(old(self).tokens@)[old(self).current as int].token_type),
    {
        let t = self.peek_type();
        match t {
            TokenType::Identifier | TokenType::ReadChunk | TokenType::Input | TokenType::Print
            | TokenType::OpenMmap => {
                let lex = self.peek_lexeme();
                self.advance();
                Ok(lex)
            },
            _ => {
                self.error_at_current(message);
                Err(())
            },
        }
    }
}

impl Parser {
    // -----------------------------------------------------------------------
    // Statements

    /// Parses statements up to the `EOF` token.
    pub fn parse_statements(&mut self) -> (r: Result<Vec<Stmt>, ()>)
        requires
            old(self).wf(),
        ensures
            r is Err ==> final(self).message_seq().len() > old(self).message_seq().len(),
            final(self).moved_from(old(self)),
            r is Ok ==> final(self).at_end_spec(),
            match r {
                Ok(ss) => statements_spec(old(self).token_seq(), old(self).position() as int, Seq::empty())
                    == Some((final(self).position() as int, stmts_v(ss@))),
                Err(_) => statements_spec(old(self).token_seq(), old(self).position() as int, Seq::empty()) is None,
            },
    {
        let ghost ts = self.token_seq();
        let ghost p0 = self.current as int;
        let mut statements: Vec<Stmt> = Vec::new();
        assert(stmts_v(statements@) =~= Seq::<StmtV>::empty());
        while !self.is_at_end() && self.peek_type() != TokenType::EOF
            invariant_except_break
                statements_spec(ts, p0, Seq::empty()) == statements_spec(ts, self.current as int, stmts_v(statements@)),
            invariant
                self.moved_from(old(self)),
                ts == self.token_seq(),
                p0 == old(self).current,
            ensures
                self.moved_from(old(self)),
                self.at_end_spec(),
                statements_spec(ts, p0, Seq::empty()) == Some((self.current as int, stmts_v(statements@))),
            decreases self.tokens@.len() - self.current,
        {
            self.skip_newlines();
            if self.is_at_end() || self.peek_type() == TokenType::EOF {
                break;
            }
            let d = self.declaration()?;
            proof {
                lemma_stmts_v_push(statements@, d);
            }
            statements.push(d);
        }
        Ok(statements)
    }

    /// Moves past an optional `:` and any line breaks, to a statement body.
    fn skip_to_body(&mut self)
        requires
            old(self).wf(),
        ensures
            final(self).moved_from(old(self)),
            final(self).messages@ == old(self).messages@,
            final(self).current as int == body_start(old(self).token_seq(), old(self).current as int),
    {
        if self.check(TokenType::Colon) {
            self.advance();
        }
        self.skip_newlines();
    }

    /// The decorators before a declaration: whether `@parallel` and
    /// `@vectorize` were given.
    fn decorators(&mut self) -> (r: Result<(bool, bool), ()>)
        requires
            old(self).wf(),
        ensures
            r is Err ==> final(self).messages@.len() > old(self).messages@.len(),
            final(self).moved_from(old(self)),
            match r {
                Ok((par, vec)) => deco_loop(old(self).token_seq(), old(self).current as int, false, false)
                    == Some((final(self).current as int, par, vec)),
                Err(_) => deco_loop(old(self).token_seq(), old(self).current as int, false, false) is None,
            },
    {
        let ghost ts = self.token_seq();
        let ghost p0 = self.current as int;
        let mut is_parallel = false;
        let mut is_vectorized = false;
        loop
            invariant_except_break
                deco_loop(ts, p0, false, false) == deco_loop(ts, self.current as int, is_parallel, is_vectorized),
            invariant
                self.moved_from(old(self)),
                ts == self.token_seq(),
                p0 == old(self).current,
            ensures
                deco_loop(ts, p0, false, false) == Some((self.current as int, is_parallel, is_vectorized)),
            decreases self.tokens@.len() - self.current,
        {
            let ghost c0 = self.current as int;
            if !self.match_type(TokenType::At) {
                break;
            }
            self.consume(TokenType::Identifier, "Expect decorator name after '@'.")?;
            let name = self.previous_lexeme();
            assert(name@ == ts[c0 + 1].lexeme);
            if crate::text::string_is(&name, "parallel") {
                is_parallel = true;
            } else if crate::text::string_is(&name, "vectorize") {
                is_vectorized = true;
            } else {
                let line = self.previous_line();
                let mut m = line_prefix(line);
                append_str(&mut m, "Unknown decorator '@");
                let lex = string_chars(&name);
                append_chars(&mut m, &lex);
                append_str(&mut m, "'.");
                self.push_message(m);
                return Err(());
            }
            if self.check(TokenType::Newline) {
                self.advance();
            }
        }
        Ok((is_parallel, is_vectorized))
    }

    fn declaration(&mut self) -> (r: Result<Stmt, ()>)
        requires
            old(self).wf(),
        ensures
            r is Err ==> final(self).messages@.len() > old(self).messages@.len(),
            final(self).moved_from(old(self)),
            r is Ok ==> final(self).current > old(self).current,
            yields_stmt(r, final(self).current as int, declaration_spec(old(self).token_seq(), old(self).current as int)),
        decreases old(self).token_seq().len() - old(self).position(), 3int,
    {
        let ghost ts = self.token_seq();
        let ghost p0 = self.current as int;
        let (is_parallel, is_vectorized) = self.decorators()?;
        if self.match_type(TokenType::Import) {
            return self.import_statement();
        }
        if self.match_type(TokenType::From) {
            return self.import_from_statement();
        }
        if self.match_type(TokenType::Struct) {
            return self.struct_declaration();
        }
        if self.match_type(TokenType::Trait) {
            return self.trait_declaration();
        }
        if self.match_type(TokenType::Fn) {
            let f = self.function_declaration(true)?;
            return Ok(Stmt::Function(f));
        }
        if self.match_type(TokenType::Def) {
            let f = self.function_declaration(false)?;
            return Ok(Stmt::Function(f));
        }
        if self.match_type(TokenType::Let) {
            return self.let_declaration();
        }
        if self.match_type(TokenType::For) {
            return self.for_statement(is_parallel, is_vectorized);
        }
        self.statement()
    }

    fn import_statement(&mut self) -> (r: Result<Stmt, ()>)
        requires
            old(self).wf(),
            old(self).current >= 1,
        ensures
            r is Err ==> final(self).messages@.len() > old(self).messages@.len(),
            final(self).moved_from(old(self)),
            yields_stmt(r, final(self).current as int, import_spec(old(self).token_seq(), old(self).current as int)),
    {
        let line = self.previous_line() as u32;
        self.consume(TokenType::Identifier, "Expect module name after 'import'.")?;
        let module = self.previous_lexeme();
        let alias = if self.match_type(TokenType::As) {
            self.consume(TokenType::Identifier, "Expect alias after 'as'.")?;
            Some(self.previous_lexeme())
        } else {
            Option::None
        };
        if self.check(TokenType::Newline) {
            self.advance();
        }
        Ok(Stmt::Import { line, module, alias })
    }

    fn import_from_statement(&mut self) -> (r: Result<Stmt, ()>)
        requires
            old(self).wf(),
            old(self).current >= 1,
        ensures
            r is Err ==> final(self).messages@.len() > old(self).messages@.len(),
            final(self).moved_from(old(self)),
            yields_stmt(r, final(self).current as int, import_from_spec(old(self).token_seq(), old(self).current as int)),
    {
        let ghost ts = self.token_seq();
        let ghost p0 = self.current as int;
        let line = self.previous_line() as u32;
        self.consume(TokenType::Identifier, "Expect module name after 'from'.")?;
        let module = self.previous_lexeme();
        self.consume(TokenType::Import, "Expect 'import' after module name.")?;
        let mut names: Vec<ImportName> = Vec::new();
        assert(import_names_v(names@) =~= Seq::<ImportNameV>::empty());
        loop
            invariant_except_break
                names_loop(ts, p0 + 2, Seq::empty()) == names_loop(ts, self.current as int, import_names_v(names@)),
            invariant
                self.moved_from(old(self)),
                ts == self.token_seq(),
                p0 == old(self).current,
            ensures
                names_loop(ts, p0 + 2, Seq::empty()) == Some((self.current as int, import_names_v(names@))),
            decreases self.tokens@.len() - self.current,
        {
            self.consume(TokenType::Identifier, "Expect name to import.")?;
            let name = self.previous_lexeme();
            let alias = if self.match_type(TokenType::As) {
                self.consume(TokenType::Identifier, "Expect alias after 'as'.")?;
                Some(self.previous_lexeme())
            } else {
                Option::None
            };
            let ghost before = import_names_v(names@);
            let item = ImportName { name, alias };
            names.push(item);
            assert(import_names_v(names@) =~= before.push(import_name_v(item)));
            if !self.match_type(TokenType::Comma) {
                break;
            }
        }
        if names.len() == 0 {
            self.error_line(line as usize, "Error: Expected at least one name after 'import'.");
            return Err(());
        }
        if self.check(TokenType::Newline) {
            self.advance();
        }
        Ok(Stmt::ImportFrom { line, module, names })
    }

    #[verifier::rlimit(80)]
    #[verifier::spinoff_prover]
    fn struct_declaration(&mut self) -> (r: Result<Stmt, ()>)
        requires
            old(self).wf(),
        ensures
            r is Err ==> final(self).messages@.len() > old(self).messages@.len(),
            final(self).moved_from(old(self)),
            yields_stmt(r, final(self).current as int, struct_spec(old(self).token_seq(), old(self).current as int)),
        decreases old(self).token_seq().len() - old(self).position(), 0int,
    {
        self.consume(TokenType::Identifier, "Expect struct name.")?;
        let struct_name = self.previous_lexeme();
        let mut implemented_trait: Option<String> = Option::None;
        if self.match_type(TokenType::LeftParen) {
            self.consume(TokenType::Identifier, "Expect trait name inside parentheses.")?;
            let trait_name = self.previous_lexeme();
            self.consume(TokenType::RightParen, "Expect ')' after trait name.")?;
            implemented_trait = Some(trait_name);
        }
        self.consume(TokenType::Colon, "Expect ':' before struct body.")?;
        self.skip_newlines();
        self.consume(TokenType::Indent, "Expect indented block for struct body.")?;
        let (fields, methods) = self.struct_members()?;
        Ok(Stmt::Struct { name: struct_name, implemented_trait, fields, methods })
    }

    /// The fields and methods of a struct body, up to and over its `Dedent`.
    #[verifier::rlimit(80)]
    #[verifier::spinoff_prover]
    fn struct_members(&mut self) -> (r: Result<(Vec<StructField>, Vec<MethodDecl>), ()>)
        requires
            old(self).wf(),
        ensures
            r is Err ==> final(self).messages@.len() > old(self).messages@.len(),
            final(self).moved_from(old(self)),
            match r {
                Ok((fs, ms)) => struct_loop(old(self).token_seq(), old(self).current as int, Seq::empty(), Seq::empty())
                    == Some((final(self).current as int, fields_v(fs@), methods_v(ms@))),
                Err(_) => struct_loop(old(self).token_seq(), old(self).current as int, Seq::empty(), Seq::empty())
                    is None,
            },
        decreases old(self).token_seq().len() - old(self).position(), 0int,
    {
        let ghost ts = self.token_seq();
        let ghost p0 = self.current as int;
        let mut fields: Vec<StructField> = Vec::new();
        let mut methods: Vec<MethodDecl> = Vec::new();
        assert(fields_v(fields@) =~= Seq::<StructFieldV>::empty());
        assert(methods_v(methods@) =~= Seq::<MethodDeclV>::empty());
        while !self.check(TokenType::Dedent) && !self.is_at_end()
            invariant_except_break
                struct_loop(ts, p0, Seq::empty(), Seq::empty())
                    == struct_loop(ts, self.current as int, fields_v(fields@), methods_v(methods@)),
            invariant
                self.moved_from(old(self)),
                ts == self.token_seq(),
                p0 == old(self).current,
            ensures
                self.moved_from(old(self)),
                struct_loop(ts, p0, Seq::empty(), Seq::empty()) == (if is_tok(ts, self.current as int, TokenType::Dedent) {
                    Some((self.current + 1, fields_v(fields@), methods_v(methods@)))
                } else {
                    None
                }),
            decreases self.tokens@.len() - self.current,
        {
            self.skip_newlines();
            if self.check(TokenType::Dedent) || self.is_at_end() {
                break;
            }
            if self.match_type(TokenType::Let) {
                let f = self.struct_field()?;
                let ghost before = fields_v(fields@);
                fields.push(f);
                assert(fields_v(fields@) =~= before.push(field_v(f)));
            } else if self.match_type(TokenType::Fn) {
                let m = self.struct_method(true)?;
                proof {
                    lemma_methods_v_push(methods@, m);
                }
                methods.push(m);
            } else if self.match_type(TokenType::Def) {
                let m = self.struct_method(false)?;
                proof {
                    lemma_methods_v_push(methods@, m);
                }
                methods.push(m);
            } else {
                self.advance();
            }
        }
        self.consume(TokenType::Dedent, "Expect dedent after struct body.")?;
        Ok((fields, methods))
    }

    /// A struct field after `let`.
    fn struct_field(&mut self) -> (r: Result<StructField, ()>)
        requires
            old(self).wf(),
        ensures
            r is Err ==> final(self).messages@.len() > old(self).messages@.len(),
            final(self).moved_from(old(self)),
            match r {
                Ok(f) => field_spec(old(self).token_seq(), old(self).current as int)
                    == Some((final(self).current as int, field_v(f))),
                Err(_) => field_spec(old(self).token_seq(), old(self).current as int) is None,
            },
    {
        let is_pub = self.match_type(TokenType::Pub);
        let is_mutable = self.match_type(TokenType::Mut);
        self.consume(TokenType::Identifier, "Expect field name.")?;
        let field_name = self.previous_lexeme();
        self.consume(TokenType::Colon, "Expect ':' after field name.")?;
        let field_type = self.consume_type_name("Expect field type.")?;
        if self.check(TokenType::Newline) {
            self.advance();
        }
        Ok(StructField { name: field_name, field_type, is_pub, is_mut: is_mutable })
    }

    /// A struct method after `fn` (strict) or `def`.
    fn struct_method(&mut self, is_strict: bool) -> (r: Result<MethodDecl, ()>)
        requires
            old(self).wf(),
        ensures
            r is Err ==> final(self).messages@.len() > old(self).messages@.len(),
            final(self).moved_from(old(self)),
            r is Ok ==> final(self).current > old(self).current,
            match r {
                Ok(m) => method_spec(old(self).token_seq(), old(self).current as int, is_strict)
                    == Some((final(self).current as int, MethodDeclV { is_pub: m.is_pub, function: fn_v(m.function) })),
                Err(_) => method_spec(old(self).token_seq(), old(self).current as int, is_strict) is None,
            },
        decreases old(self).token_seq().len() - old(self).position(), 1int,
    {
        let is_pub = self.match_type(TokenType::Pub);
        let function = self.function_declaration(is_strict)?;
        Ok(MethodDecl { is_pub, function })
    }

    fn trait_declaration(&mut self) -> (r: Result<Stmt, ()>)
        requires
            old(self).wf(),
        ensures
            r is Err ==> final(self).messages@.len() > old(self).messages@.len(),
            final(self).moved_from(old(self)),
            yields_stmt(r, final(self).current as int, trait_spec(old(self).token_seq(), old(self).current as int)),
        decreases old(self).token_seq().len() - old(self).position(), 0int,
    {
        self.consume(TokenType::Identifier, "Expect trait name.")?;
        let trait_name = self.previous_lexeme();
        self.consume(TokenType::Colon, "Expect ':' before trait body.")?;
        self.skip_newlines();
        self.consume(TokenType::Indent, "Expect indented block for trait body.")?;
        let methods = self.trait_members()?;
        Ok(Stmt::Trait { name: trait_name, methods })
    }

    /// The method declarations of a trait body, up to and over its `Dedent`.
    fn trait_members(&mut self) -> (r: Result<Vec<FunctionDecl>, ()>)
        requires
            old(self).wf(),
        ensures
            r is Err ==> final(self).messages@.len() > old(self).messages@.len(),
            final(self).moved_from(old(self)),
            match r {
                Ok(ms) => trait_loop(old(self).token_seq(), old(self).current as int, Seq::empty())
                    == Some((final(self).current as int, fns_v(ms@))),
                Err(_) => trait_loop(old(self).token_seq(), old(self).current as int, Seq::empty()) is None,
            },
        decreases old(self).token_seq().len() - old(self).position(), 0int,
    {
        let ghost ts = self.token_seq();
        let ghost p0 = self.current as int;
        let mut methods: Vec<FunctionDecl> = Vec::new();
        assert(fns_v(methods@) =~= Seq::<FunctionDeclV>::empty());
        while !self.check(TokenType::Dedent) && !self.is_at_end()
            invariant_except_break
                trait_loop(ts, p0, Seq::empty()) == trait_loop(ts, self.current as int, fns_v(methods@)),
            invariant
                self.moved_from(old(self)),
                ts == self.token_seq(),
                p0 == old(self).current,
            ensures
                self.moved_from(old(self)),
                trait_loop(ts, p0, Seq::empty()) == (if is_tok(ts, self.current as int, TokenType::Dedent) {
                    Some((self.current + 1, fns_v(methods@)))
                } else {
                    None
                }),
            decreases self.tokens@.len() - self.current,
        {
            self.skip_newlines();
            if self.check(TokenType::Dedent) || self.is_at_end() {
                break;
            }
            if self.match_type(TokenType::Fn) {
                let f = self.function_declaration(true)?;
                proof {
                    lemma_fns_v_push(methods@, f);
                }
                methods.push(f);
            } else if self.match_type(TokenType::Def) {
                let f = self.function_declaration(false)?;
                proof {
                    lemma_fns_v_push(methods@, f);
                }
                methods.push(f);
            } else {
                self.advance();
            }
        }
        self.consume(TokenType::Dedent, "Expect dedent after trait body.")?;
        Ok(methods)
    }

    #[verifier::rlimit(80)]
    #[verifier::spinoff_prover]
    fn function_declaration(&mut self, is_strict: bool) -> (r: Result<FunctionDecl, ()>)
        requires
            old(self).wf(),
        ensures
            r is Err ==> final(self).messages@.len() > old(self).messages@.len(),
            final(self).moved_from(old(self)),
            r is Ok ==> final(self).current > old(self).current,
            match r {
                Ok(f) => function_spec(old(self).token_seq(), old(self).current as int, is_strict)
                    == Some((final(self).current as int, fn_v(f))),
                Err(_) => function_spec(old(self).token_seq(), old(self).current as int, is_strict) is None,
            },
        decreases old(self).token_seq().len() - old(self).position(), 0int,
    {
        let ghost ts = self.token_seq();
        let ghost p0 = self.current as int;
        self.consume(TokenType::Identifier, "Expect function name.")?;
        let fn_name = self.previous_lexeme();
        self.consume(TokenType::LeftParen, "Expect '(' after function name.")?;
        let params = self.parameters()?;
        self.consume(TokenType::RightParen, "Expect ')' after parameters.")?;
        let return_type = if self.match_type(TokenType::Arrow) {
            Some(self.consume_type_name("Expect return type after '->'.")?)
        } else {
            Option::None
        };
        let body = if self.match_type(TokenType::Colon) {
            self.skip_newlines();
            if self.check(TokenType::Dedent) || self.check(TokenType::EOF) || self.check(TokenType::Fn)
                || self.check(TokenType::Def) {
                let empty: Vec<Stmt> = Vec::new();
                assert(stmts_v(empty@) =~= Seq::<StmtV>::empty());
                assert(stmt_v(Stmt::Block(empty)) == StmtV::Block(Seq::empty()));
                Stmt::Block(empty)
            } else {
                self.statement()?
            }
        } else {
            let empty: Vec<Stmt> = Vec::new();
            assert(stmts_v(empty@) =~= Seq::<StmtV>::empty());
            assert(stmt_v(Stmt::Block(empty)) == StmtV::Block(Seq::empty()));
            Stmt::Block(empty)
        };
        Ok(FunctionDecl { name: fn_name, is_strict, params, return_type, body: Box::new(body) })
    }

    /// The parameter list after `(`, up to (not over) the `)`.
    fn parameters(&mut self) -> (r: Result<Vec<Param>, ()>)
        requires
            old(self).wf(),
        ensures
            r is Err ==> final(self).messages@.len() > old(self).messages@.len(),
            final(self).moved_from(old(self)),
            match r {
                Ok(ps) => (if is_tok(old(self).token_seq(), old(self).current as int, TokenType::RightParen) {
                    Some((old(self).current as int, Seq::<ParamV>::empty()))
                } else {
                    params_loop(old(self).token_seq(), old(self).current as int, Seq::empty())
                }) == Some((final(self).current as int, params_v(ps@))),
                Err(_) => !is_tok(old(self).token_seq(), old(self).current as int, TokenType::RightParen)
                    && params_loop(old(self).token_seq(), old(self).current as int, Seq::empty()) is None,
            },
    {
        let ghost ts = self.token_seq();
        let ghost p0 = self.current as int;
        let mut params: Vec<Param> = Vec::new();
        assert(params_v(params@) =~= Seq::<ParamV>::empty());
        if !self.check(TokenType::RightParen) {
            loop
                invariant_except_break
                    params_loop(ts, p0, Seq::empty()) == params_loop(ts, self.current as int, params_v(params@)),
                invariant
                    !is_tok(ts, p0, TokenType::RightParen),
                    self.moved_from(old(self)),
                    ts == self.token_seq(),
                    p0 == old(self).current,
                ensures
                    params_loop(ts, p0, Seq::empty()) == Some((self.current as int, params_v(params@))),
                decreases self.tokens@.len() - self.current,
            {
                let ghost c0 = self.current as int;
                let is_ref = self.match_type(TokenType::Ref);
                self.consume(TokenType::Identifier, "Expect parameter name.")?;
                let param_name = self.previous_lexeme();
                let type_ann = if self.match_type(TokenType::Colon) {
                    Some(self.consume_type_name("Expect parameter type.")?)
                } else {
                    Option::None
                };
                let ghost before = params_v(params@);
                let item = Param { name: param_name, is_ref, type_ann };
                params.push(item);
                assert(params_v(params@) =~= before.push(param_v(item)));
                assert(c0 < self.current);
                if !self.match_type(TokenType::Comma) {
                    break;
                }
            }
        }
        Ok(params)
    }

    /// Reads the name inside `Array[...]` / `Dict[...]`: the next token's
    /// text, whatever it is.
    fn any_type_word(&mut self) -> (r: String)
        requires
            old(self).wf(),
        ensures
            final(self).moved_from(old(self)),
            r@ == token_views(old(self).tokens@)[old(self).current as int].lexeme,
            final(self).messages@ == old(self).messages@,
            final(self).current as int == step(old(self).token_seq(), old(self).current as int),
    {
        let t = self.peek_lexeme();
        self.advance();
        t
    }

    /// A type annotation after `name:` in a `let`.
    fn let_type(&mut self) -> (r: Result<TypeAnn, ()>)
        requires
            old(self).wf(),
        ensures
            r is Err ==> final(self).messages@.len() > old(self).messages@.len(),
            final(self).moved_from(old(self)),
            match r {
                Ok(t) => let_type_spec(old(self).token_seq(), old(self).current as int)
                    == Some((final(self).current as int, type_ann_v(t))),
                Err(_) => let_type_spec(old(self).token_seq(), old(self).current as int) is None,
            },
    {
        if self.match_type(TokenType::Array) {
            self.consume(TokenType::LeftBracket, "Expect '[' after 'Array'.")?;
            let inner_type = self.any_type_word();
            self.consume(TokenType::RightBracket, "Expect ']' after array type.")?;
            Ok(TypeAnn::Array { inner: inner_type })
        } else if self.match_type(TokenType::Dict) {
            self.consume(TokenType::LeftBracket, "Expect '[' after 'Dict'.")?;
            let key_type = self.any_type_word();
            self.consume(TokenType::Comma, "Expect ',' between dictionary key and value types.")?;
            let val_type = self.any_type_word();
            self.consume(TokenType::RightBracket, "Expect ']' after dictionary types.")?;
            Ok(TypeAnn::Dict { key: key_type, value: val_type })
        } else {
            let name = self.any_type_word();
            Ok(TypeAnn::Named(name))
        }
    }

    fn let_declaration(&mut self) -> (r: Result<Stmt, ()>)
        requires
            old(self).wf(),
        ensures
            r is Err ==> final(self).messages@.len() > old(self).messages@.len(),
            final(self).moved_from(old(self)),
            yields_stmt(r, final(self).current as int, let_spec(old(self).token_seq(), old(self).current as int)),
    {
        let line = self.peek_line() as u32;
        let is_mutable = self.match_type(TokenType::Mut);
        self.consume(TokenType::Identifier, "Expect variable name.")?;
        let let_name = self.previous_lexeme();
        let type_ann = if self.match_type(TokenType::Colon) {
            self.let_type()?
        } else {
            TypeAnn::Unannotated
        };
        let initializer = if self.match_type(TokenType::Equal) {
            self.expression()?
        } else {
            Expr::Literal(Literal::NoneValue)
        };
        Ok(Stmt::Let { line, is_mutable, name: let_name, type_ann, initializer })
    }

    fn statement(&mut self) -> (r: Result<Stmt, ()>)
        requires
            old(self).wf(),
        ensures
            r is Err ==> final(self).messages@.len() > old(self).messages@.len(),
            final(self).moved_from(old(self)),
            r is Ok ==> final(self).current > old(self).current,
            yields_stmt(r, final(self).current as int, statement_spec(old(self).token_seq(), old(self).current as int)),
        decreases old(self).token_seq().len() - old(self).position(), 2int,
    {
        if self.match_type(TokenType::With) {
            return self.with_mmap_statement();
        }
        if self.match_type(TokenType::Return) {
            return self.return_statement();
        }
        if self.match_type(TokenType::Print) {
            return self.print_statement();
        }
        if self.check(TokenType::Indent) {
            return self.block();
        }
        if self.match_type(TokenType::If) {
            return self.if_statement();
        }
        if self.match_type(TokenType::While) {
            return self.while_statement();
        }
        if self.match_type(TokenType::For) {
            return self.for_statement(false, false);
        }
        self.expression_statement()
    }

    #[verifier::rlimit(80)]
    #[verifier::spinoff_prover]
    fn with_mmap_statement(&mut self) -> (r: Result<Stmt, ()>)
        requires
            old(self).wf(),
            old(self).current >= 1,
        ensures
            r is Err ==> final(self).messages@.len() > old(self).messages@.len(),
            final(self).moved_from(old(self)),
            r is Ok ==> final(self).current > old(self).current,
            yields_stmt(r, final(self).current as int, with_spec(old(self).token_seq(), old(self).current as int)),
        decreases old(self).token_seq().len() - old(self).position(), 0int,
    {
        let line = self.previous_line() as u32;
        self.consume(TokenType::OpenMmap, "Expect 'open_mmap after 'with'.")?;
        self.consume(TokenType::LeftParen, "Expect '(' after open_mmap.")?;
        let path_expr = self.expression()?;
        self.consume(TokenType::RightParen, "Expect ')' after path.")?;
        self.consume(TokenType::As, "Expect 'as' in mmap block.")?;
        self.consume(TokenType::Identifier, "Expect variable name after 'as'.")?;
        let var_name = self.previous_lexeme();
        self.skip_to_body();
        let body = self.statement()?;
        Ok(Stmt::WithMmap { line, path: path_expr, var: var_name, body: Box::new(body) })
    }

    #[verifier::rlimit(100)]
    #[verifier::spinoff_prover]
    fn if_statement(&mut self) -> (r: Result<Stmt, ()>)
        requires
            old(self).wf(),
        ensures
            r is Err ==> final(self).messages@.len() > old(self).messages@.len(),
            final(self).moved_from(old(self)),
            r is Ok ==> final(self).current > old(self).current,
            yields_stmt(r, final(self).current as int, if_spec(old(self).token_seq(), old(self).current as int)),
        decreases old(self).token_seq().len() - old(self).position(), 0int,
    {
        let condition = self.expression()?;
        self.skip_to_body();
        let then_branch = self.statement()?;
        if self.match_type(TokenType::Elif) {
            let else_branch = self.if_statement()?;
            Ok(Stmt::If { condition, then_branch: Box::new(then_branch), else_branch: Some(Box::new(else_branch)) })
        } else if self.match_type(TokenType::Else) {
            self.skip_to_body();
            let else_branch = self.statement()?;
            Ok(Stmt::If { condition, then_branch: Box::new(then_branch), else_branch: Some(Box::new(else_branch)) })
        } else {
            Ok(Stmt::If { condition, then_branch: Box::new(then_branch), else_branch: Option::None })
        }
    }

    fn while_statement(&mut self) -> (r: Result<Stmt, ()>)
        requires
            old(self).wf(),
            old(self).current >= 1,
        ensures
            r is Err ==> final(self).messages@.len() > old(self).messages@.len(),
            final(self).moved_from(old(self)),
            r is Ok ==> final(self).current > old(self).current,
            yields_stmt(r, final(self).current as int, while_spec(old(self).token_seq(), old(self).current as int)),
        decreases old(self).token_seq().len() - old(self).position(), 0int,
    {
        let line = self.previous_line() as u32;
        let condition = self.expression()?;
        self.skip_to_body();
        let body = self.statement()?;
        Ok(Stmt::While { line, condition, body: Box::new(body) })
    }

    /// What a `for` loop runs over.
    fn for_iter(&mut self) -> (r: Result<ForIter, ()>)
        requires
            old(self).wf(),
        ensures
            r is Err ==> final(self).messages@.len() > old(self).messages@.len(),
            final(self).moved_from(old(self)),
            r is Ok ==> final(self).current > old(self).current,
            match r {
                Ok(it) => for_iter_spec(old(self).token_seq(), old(self).current as int)
                    == Some((final(self).current as int, for_iter_v(it))),
                Err(_) => for_iter_spec(old(self).token_seq(), old(self).current as int) is None,
            },
    {
        if self.match_type(TokenType::Range) {
            self.consume(TokenType::LeftParen, "Expect '(' after 'range'.")?;
            let first_arg = self.expression()?;
            let (start_expr, end_expr) = if self.match_type(TokenType::Comma) {
                let e = self.expression()?;
                (first_arg, e)
            } else {
                (Expr::Literal(Literal::Number(to_string("0"))), first_arg)
            };
            self.consume(TokenType::RightParen, "Expect ')' after range arguments.")?;
            Ok(ForIter::Range { start: start_expr, end: end_expr })
        } else {
            let e = self.expression()?;
            Ok(ForIter::Iterable(e))
        }
    }

    fn for_statement(&mut self, is_parallel: bool, is_vectorized: bool) -> (r: Result<Stmt, ()>)
        requires
            old(self).wf(),
            old(self).current >= 1,
        ensures
            r is Err ==> final(self).messages@.len() > old(self).messages@.len(),
            final(self).moved_from(old(self)),
            r is Ok ==> final(self).current > old(self).current,
            yields_stmt(r, final(self).current as int,
                for_spec(old(self).token_seq(), old(self).current as int, is_parallel, is_vectorized)),
        decreases old(self).token_seq().len() - old(self).position(), 0int,
    {
        let line = self.previous_line() as u32;
        self.consume(TokenType::Identifier, "Expect variable name after 'for'.")?;
        let var_name = self.previous_lexeme();
        self.consume(TokenType::In, "Expect 'in' after loop variable.")?;
        let iter = self.for_iter()?;
        self.skip_to_body();
        let body = self.statement()?;
        let kind = if is_parallel && is_vectorized {
            ForKind::ParallelVectorized
        } else if is_parallel {
            ForKind::Parallel
        } else if is_vectorized {
            ForKind::Vectorized
        } else {
            ForKind::Sequential
        };
        Ok(Stmt::For { kind, line, var: var_name, iter, body: Box::new(body) })
    }

    fn return_statement(&mut self) -> (r: Result<Stmt, ()>)
        requires
            old(self).wf(),
            old(self).current >= 1,
        ensures
            r is Err ==> final(self).messages@.len() > old(self).messages@.len(),
            final(self).moved_from(old(self)),
            yields_stmt(r, final(self).current as int, return_spec(old(self).token_seq(), old(self).current as int)),
    {
        let line = self.previous_line() as u32;
        let value = if !self.check(TokenType::EOF) && !self.check(TokenType::Newline)
            && !self.check(TokenType::Dedent) && !self.check(TokenType::RightBrace) {
            self.expression()?
        } else {
            Expr::Literal(Literal::NoneValue)
        };
        Ok(Stmt::Return { line, value })
    }

    fn print_statement(&mut self) -> (r: Result<Stmt, ()>)
        requires
            old(self).wf(),
            old(self).current >= 1,
        ensures
            r is Err ==> final(self).messages@.len() > old(self).messages@.len(),
            final(self).moved_from(old(self)),
            yields_stmt(r, final(self).current as int, print_spec(old(self).token_seq(), old(self).current as int)),
    {
        let line = self.previous_line() as u32;
        self.consume(TokenType::LeftParen, "Expect '(' after 'print'.")?;
        let values = self.method_arguments()?;
        self.consume(TokenType::RightParen, "Expect ')' after print arguments.")?;
        Ok(Stmt::Print { line, values })
    }

    fn block(&mut self) -> (r: Result<Stmt, ()>)
        requires
            old(self).wf(),
        ensures
            r is Err ==> final(self).messages@.len() > old(self).messages@.len(),
            final(self).moved_from(old(self)),
            r is Ok ==> final(self).current > old(self).current,
            yields_stmt(r, final(self).current as int, block_spec(old(self).token_seq(), old(self).current as int)),
        decreases old(self).token_seq().len() - old(self).position(), 1int,
    {
        let ghost ts = self.token_seq();
        let mut statements: Vec<Stmt> = Vec::new();
        assert(stmts_v(statements@) =~= Seq::<StmtV>::empty());
        self.consume(TokenType::Indent, "Expect indentation at start of block.")?;
        let ghost p1 = self.current as int;
        while !self.check(TokenType::Dedent) && !self.is_at_end()
            invariant_except_break
                block_loop(ts, p1, Seq::empty()) == block_loop(ts, self.current as int, stmts_v(statements@)),
            invariant
                self.moved_from(old(self)),
                self.current > old(self).current,
                ts == self.token_seq(),
                p1 == old(self).current + 1,
            ensures
                self.moved_from(old(self)),
                self.current > old(self).current,
                block_loop(ts, p1, Seq::empty()) == (if is_tok(ts, self.current as int, TokenType::Dedent) {
                    Some((self.current + 1, StmtV::Block(stmts_v(statements@))))
                } else {
                    None
                }),
            decreases self.tokens@.len() - self.current,
        {
            self.skip_newlines();
            if self.check(TokenType::Dedent) || self.is_at_end() {
                break;
            }
            let d = self.declaration()?;
            proof {
                lemma_stmts_v_push(statements@, d);
            }
            statements.push(d);
        }
        self.consume(TokenType::Dedent, "Expect dedent at end of block.")?;
        Ok(Stmt::Block(statements))
    }

    fn expression_statement(&mut self) -> (r: Result<Stmt, ()>)
        requires
            old(self).wf(),
        ensures
            r is Err ==> final(self).messages@.len() > old(self).messages@.len(),
            final(self).moved_from(old(self)),
            r is Ok ==> final(self).current > old(self).current,
            yields_stmt(r, final(self).current as int, expr_stmt_spec(old(self).token_seq(), old(self).current as int)),
    {
        let line = self.peek_line() as u32;
        let expr = self.expression()?;
        Ok(Stmt::Expr { line, expr })
    }
}

/// The token types that can name a type in an annotation.
pub open spec fn is_type_token_spec(t: TokenType) -> bool {
    match t {
        TokenType::Identifier | TokenType::TypeI8 | TokenType::TypeI16 | TokenType::TypeI32
        | TokenType::TypeI64 | TokenType::TypeU8 | TokenType::TypeU16 | TokenType::TypeU32
        | TokenType::TypeU64 | TokenType::TypeF32 | TokenType::TypeF64 | TokenType::TypeString
        | TokenType::TypeBool | TokenType::Array | TokenType::Dict => true,
        _ => false,
    }
}

/// `[line N] `
fn line_prefix(line: usize) -> (r: Vec<char>)
    ensures
        r@ == "[line "@ + crate::text::decimal(line as nat) + "] "@,
{
    let mut m = chars_of("[line ");
    let digits = u64_decimal(line as u64);
    append_chars(&mut m, &digits);
    append_str(&mut m, "] ");
    m
}

/// `r` is what the rule `s` gives: on success the expression built (by its
/// view) with the cursor at `after`; on failure, the rule's `None`.
pub open spec fn yields_expr(r: Result<Expr, ()>, after: int, s: Parsed<ExprV>) -> bool {
    match r {
        Ok(e) => s == Some((after, expr_v(e))),
        Err(_) => s is None,
    }
}

/// `r` is what the rule `s` gives: on success the statement built (by its
/// view) with the cursor at `after`; on failure, the rule's `None`.
pub open spec fn yields_stmt(r: Result<Stmt, ()>, after: int, s: Parsed<StmtV>) -> bool {
    match r {
        Ok(x) => s == Some((after, stmt_v(x))),
        Err(_) => s is None,
    }
}

fn binary_op_for(lvl: u8, t: TokenType) -> (r: Option<BinOp>)
    ensures
        r == bin_op(lvl as nat, t),
{
    if lvl == 0 {
        if t == TokenType::StarStar { Some(BinOp::Pow) } else { None }
    } else if lvl == 1 {
        if t == TokenType::Slash {
            Some(BinOp::Div)
        } else if t == TokenType::Star {
            Some(BinOp::Mul)
        } else if t == TokenType::Percent {
            Some(BinOp::Rem)
        } else {
            None
        }
    } else if lvl == 2 {
        if t == TokenType::Minus { Some(BinOp::Sub) } else if t == TokenType::Plus { Some(BinOp::Add) } else { None }
    } else if lvl == 3 {
        if t == TokenType::Greater {
            Some(BinOp::Gt)
        } else if t == TokenType::GreaterEqual {
            Some(BinOp::Ge)
        } else if t == TokenType::Less {
            Some(BinOp::Lt)
        } else if t == TokenType::LessEqual {
            Some(BinOp::Le)
        } else {
            None
        }
    } else if lvl == 4 {
        if t == TokenType::BangEqual { Some(BinOp::Ne) } else if t == TokenType::EqualEqual { Some(BinOp::Eq) } else { None }
    } else if lvl == 5 {
        if t == TokenType::And { Some(BinOp::And) } else { None }
    } else if lvl == 6 {
        if t == TokenType::Or { Some(BinOp::Or) } else { None }
    } else {
        None
    }
}

fn unary_op_for(t: TokenType) -> (r: Option<UnaryOp>)
    ensures
        r == un_op(t),
{
    if t == TokenType::Bang || t == TokenType::Not {
        Some(UnaryOp::Not)
    } else if t == TokenType::Minus {
        Some(UnaryOp::Neg)
    } else {
        None
    }
}

} // verus!
