//! The printed form of syntax trees that `hyper parse` shows: every node as a
//! parenthesised form, `(op left right)` for a binary expression.

use vstd::prelude::*;
use crate::ast::{
    BinOp, UnaryOp, CallArg, FStringPart, Literal, TypeAnn, Expr, Param, FunctionDecl, StructField,
    MethodDecl, ForKind, ForIter, ImportName, Stmt,
};
use crate::text::{decimal, u64_decimal, append_str, append_chars, chars_of, string_from_chars};
use crate::semantic::binop_text;

verus! {

// ---------------------------------------------------------------------------
// Small pieces

/// A string with its backslashes and double quotes escaped by a backslash.
pub open spec fn quote_escape(s: Seq<char>) -> Seq<char>
    decreases s.len(),
{
    if s.len() == 0 {
        Seq::empty()
    } else {
        quote_escape(s.drop_last()) + (if s.last() == '\\' {
            seq!['\\', '\\']
        } else if s.last() == '"' {
            seq!['\\', '"']
        } else {
            seq![s.last()]
        })
    }
}

/// A string literal as printed: in double quotes, escaped.
pub open spec fn quoted_text(s: Seq<char>) -> Seq<char> {
    seq!['"'] + quote_escape(s) + seq!['"']
}

pub open spec fn bool_text(b: bool) -> Seq<char> {
    if b { "true"@ } else { "false"@ }
}

pub open spec fn line_text(line: u32) -> Seq<char> {
    "line:"@ + decimal(line as nat)
}

pub open spec fn literal_text(lit: Literal) -> Seq<char> {
    match lit {
        Literal::NoneValue => "None"@,
        Literal::Bool(b) => bool_text(b),
        Literal::Number(n) => n@,
        Literal::String(s) => quoted_text(s@),
    }
}

pub open spec fn unary_text(op: UnaryOp) -> Seq<char> {
    match op {
        UnaryOp::Neg => "-"@,
        UnaryOp::Not => "not"@,
    }
}

pub open spec fn type_ann_text(t: TypeAnn) -> Seq<char> {
    match t {
        TypeAnn::Unannotated => "None"@,
        TypeAnn::Named(n) => n@,
        TypeAnn::Array { inner } => "Array["@ + inner@ + "]"@,
        TypeAnn::Dict { key, value } => "Dict["@ + key@ + ", "@ + value@ + "]"@,
    }
}

pub open spec fn for_kind_text(k: ForKind) -> Seq<char> {
    match k {
        ForKind::Sequential => "for_seq"@,
        ForKind::Parallel => "for_par"@,
        ForKind::Vectorized => "for_vec"@,
        ForKind::ParallelVectorized => "for_par_vec"@,
    }
}

// ---------------------------------------------------------------------------
// Expressions

/// The printed form of an expression.
pub open spec fn expr_text(e: Expr) -> Seq<char>
    decreases e,
{
    match e {
        Expr::Literal(lit) => literal_text(lit),
        Expr::Variable { name, .. } => "let_ref:"@ + name@,
        Expr::Group(inner) => "(group "@ + expr_text(*inner) + ")"@,
        Expr::Unary { op, right } => "("@ + unary_text(op) + " "@ + expr_text(*right) + ")"@,
        Expr::Binary { op, left, right } => "("@ + binop_text(op) + " "@ + expr_text(*left) + " "@
            + expr_text(*right) + ")"@,
        Expr::Assign { name, value } => "(assign "@ + name@ + " "@ + expr_text(*value) + ")"@,
        Expr::GetField { object, field } => "(get_field "@ + object@ + " "@ + field@ + ")"@,
        Expr::SetField { object, field, value } => "(set_field "@ + object@ + " "@ + field@ + " "@
            + expr_text(*value) + ")"@,
        Expr::Call { callee, args } => if args.len() == 0 {
            "(call "@ + expr_text(*callee) + ")"@
        } else {
            "(call "@ + expr_text(*callee) + " "@ + args_text(args@) + ")"@
        },
        Expr::CallMethod { object, method, args } => "(call_method "@ + object@ + " "@ + method@
            + " ["@ + exprs_text(args@, " "@) + "])"@,
        Expr::List(items) => if items.len() == 0 {
            "(list)"@
        } else {
            "(list "@ + exprs_text(items@, " "@) + ")"@
        },
        Expr::Dict(entries) => "(dict "@ + pairs_text(entries@) + ")"@,
        Expr::Index { object, index } => "(index "@ + expr_text(*object) + " "@ + expr_text(*index) + ")"@,
        Expr::IndexSet { object, index, value } => "(index_set "@ + expr_text(*object) + " "@
            + expr_text(*index) + " "@ + expr_text(*value) + ")"@,
        Expr::FString { line, parts } => "(f_string "@ + line_text(line) + " ["@ + parts_text(parts@)
            + "])"@,
        Expr::Ternary { condition, then_branch, else_branch } => "(if "@ + expr_text(*condition) + " "@
            + expr_text(*then_branch) + " "@ + expr_text(*else_branch) + ")"@,
    }
}

/// Expressions printed one after another with `sep` between them.
pub open spec fn exprs_text(es: Seq<Expr>, sep: Seq<char>) -> Seq<char>
    decreases es,
{
    if es.len() == 0 {
        Seq::empty()
    } else if es.len() == 1 {
        expr_text(es[0])
    } else {
        exprs_text(es.drop_last(), sep) + sep + expr_text(es.last())
    }
}

/// Call arguments, space-separated; a named one as `name=value`.
pub open spec fn args_text(args: Seq<CallArg>) -> Seq<char>
    decreases args,
{
    if args.len() == 0 {
        Seq::empty()
    } else {
        let last = match args.last() {
            CallArg::Positional(e) => expr_text(e),
            CallArg::Named { name, value } => name@ + "="@ + expr_text(value),
        };
        if args.len() == 1 { last } else { args_text(args.drop_last()) + " "@ + last }
    }
}

/// Dictionary entries as `key:value`, space-separated.
pub open spec fn pairs_text(ps: Seq<(Expr, Expr)>) -> Seq<char>
    decreases ps,
{
    if ps.len() == 0 {
        Seq::empty()
    } else {
        let last = expr_text(ps.last().0) + ":"@ + expr_text(ps.last().1);
        if ps.len() == 1 { last } else { pairs_text(ps.drop_last()) + " "@ + last }
    }
}

/// The parts of an f-string, space-separated: text parts quoted.
pub open spec fn parts_text(ps: Seq<FStringPart>) -> Seq<char>
    decreases ps,
{
    if ps.len() == 0 {
        Seq::empty()
    } else {
        let last = match ps.last() {
            FStringPart::Literal(s) => quoted_text(s@),
            FStringPart::Expr(e) => expr_text(e),
        };
        if ps.len() == 1 { last } else { parts_text(ps.drop_last()) + " "@ + last }
    }
}

// ---------------------------------------------------------------------------
// Statements

/// The printed form of a statement.
pub open spec fn stmt_text(s: Stmt) -> Seq<char>
    decreases s,
{
    match s {
        Stmt::Let { line, is_mutable, name, type_ann, initializer } => "(let "@ + line_text(line) + " "@
            + (if is_mutable { "mut"@ } else { "immut"@ }) + " "@ + name@ + " type:"@
            + type_ann_text(type_ann) + " "@ + expr_text(initializer) + ")"@,
        Stmt::Print { line, values } => "(print "@ + line_text(line) + " "@ + exprs_text(values@, " "@)
            + ")"@,
        Stmt::Expr { line, expr } => "(expr "@ + line_text(line) + " "@ + expr_text(expr) + ")"@,
        Stmt::Block(stmts) => if stmts.len() == 0 {
            "(block)"@
        } else {
            "(block "@ + stmts_text(stmts@) + ")"@
        },
        Stmt::If { condition, then_branch, else_branch } => match else_branch {
            Some(e) => "(if "@ + expr_text(condition) + " "@ + stmt_text(*then_branch) + " "@
                + stmt_text(*e) + ")"@,
            None => "(if "@ + expr_text(condition) + " "@ + stmt_text(*then_branch) + ")"@,
        },
        Stmt::While { line, condition, body } => "(while "@ + line_text(line) + " "@
            + expr_text(condition) + " "@ + stmt_text(*body) + ")"@,
        Stmt::For { kind, line, var, iter, body } => "("@ + for_kind_text(kind) + " "@ + line_text(line)
            + " "@ + var@ + " in "@ + for_iter_text(iter) + " "@ + stmt_text(*body) + ")"@,
        Stmt::Function(decl) => function_text(decl),
        Stmt::Return { line, value } => "(return "@ + line_text(line) + " "@ + expr_text(value) + ")"@,
        Stmt::Struct { name, implemented_trait, fields, methods } => "(struct "@ + name@ + " trait:"@
            + (match implemented_trait {
                Some(t) => t@,
                None => Seq::empty(),
            }) + " fields:["@ + fields_text(fields@) + "] methods:["@ + methods_text(methods@) + "])"@,
        Stmt::Trait { name, methods } => "(trait "@ + name@ + " methods:["@ + functions_text(methods@)
            + "])"@,
        Stmt::WithMmap { line, path, var, body } => "(with_mmap "@ + line_text(line) + " "@
            + expr_text(path) + " "@ + var@ + " "@ + stmt_text(*body) + ")"@,
        Stmt::Import { line, module, alias } => "(import "@ + line_text(line) + " "@ + module@
            + (match alias {
                Some(a) => " as "@ + a@,
                None => Seq::empty(),
            }) + ")"@,
        Stmt::ImportFrom { line, module, names } => "(from_import "@ + line_text(line) + " "@ + module@
            + " ["@ + names_text(names@) + "])"@,
    }
}

/// What a `for` loop runs over: `range(start, end)` or the iterable.
pub open spec fn for_iter_text(it: ForIter) -> Seq<char> {
    match it {
        ForIter::Range { start, end } => "range("@ + expr_text(start) + ", "@ + expr_text(end) + ")"@,
        ForIter::Iterable(e) => expr_text(e),
    }
}

/// Statements, space-separated.
pub open spec fn stmts_text(ss: Seq<Stmt>) -> Seq<char>
    decreases ss,
{
    if ss.len() == 0 {
        Seq::empty()
    } else if ss.len() == 1 {
        stmt_text(ss[0])
    } else {
        stmts_text(ss.drop_last()) + " "@ + stmt_text(ss.last())
    }
}

/// `(fn name strict:b (params p q) body)`.
pub open spec fn function_text(d: FunctionDecl) -> Seq<char>
    decreases d,
{
    "(fn "@ + d.name@ + " strict:"@ + bool_text(d.is_strict) + " (params "@ + params_text(d.params@)
        + ") "@ + stmt_text(*d.body) + ")"@
}

/// Parameter names, space-separated.
pub open spec fn params_text(ps: Seq<Param>) -> Seq<char>
    decreases ps.len(),
{
    if ps.len() == 0 {
        Seq::empty()
    } else if ps.len() == 1 {
        ps[0].name@
    } else {
        params_text(ps.drop_last()) + " "@ + ps.last().name@
    }
}

/// Struct fields as `name:type (pub:b, mut:b)`, comma-separated.
pub open spec fn fields_text(fs: Seq<StructField>) -> Seq<char>
    decreases fs.len(),
{
    if fs.len() == 0 {
        Seq::empty()
    } else if fs.len() == 1 {
        field_text(fs.last())
    } else {
        fields_text(fs.drop_last()) + ", "@ + field_text(fs.last())
    }
}

/// `name:type (pub:b, mut:b)`.
pub open spec fn field_text(f: StructField) -> Seq<char> {
    f.name@ + ":"@ + f.field_type@ + " (pub:"@ + bool_text(f.is_pub) + ", mut:"@ + bool_text(f.is_mut) + ")"@
}

/// Methods as `(pub:b function)`, space-separated.
pub open spec fn methods_text(ms: Seq<MethodDecl>) -> Seq<char>
    decreases ms,
{
    if ms.len() == 0 {
        Seq::empty()
    } else if ms.len() == 1 {
        method_text(ms.last())
    } else {
        methods_text(ms.drop_last()) + " "@ + method_text(ms.last())
    }
}

/// `(pub:b function)`.
pub open spec fn method_text(m: MethodDecl) -> Seq<char>
    decreases m,
{
    "(pub:"@ + bool_text(m.is_pub) + " "@ + function_text(m.function) + ")"@
}

/// Functions, space-separated.
pub open spec fn functions_text(ds: Seq<FunctionDecl>) -> Seq<char>
    decreases ds,
{
    if ds.len() == 0 {
        Seq::empty()
    } else if ds.len() == 1 {
        function_text(ds[0])
    } else {
        functions_text(ds.drop_last()) + " "@ + function_text(ds.last())
    }
}

/// Imported names as `name` or `name as alias`, comma-separated.
pub open spec fn names_text(ns: Seq<ImportName>) -> Seq<char>
    decreases ns.len(),
{
    if ns.len() == 0 {
        Seq::empty()
    } else {
        let n = ns.last();
        let last = n.name@ + (match n.alias {
            Some(a) => " as "@ + a@,
            None => Seq::empty(),
        });
        if ns.len() == 1 { last } else { names_text(ns.drop_last()) + ", "@ + last }
    }
}

// ---------------------------------------------------------------------------
// Printing

fn push_string(out: &mut Vec<char>, s: &String)
    ensures
        final(out)@ == old(out)@ + s@,
{
    append_str(out, s.as_str());
}

fn push_bool(out: &mut Vec<char>, b: bool)
    ensures
        final(out)@ == old(out)@ + bool_text(b),
{
    if b { append_str(out, "true"); } else { append_str(out, "false"); }
}

fn push_line(out: &mut Vec<char>, line: u32)
    ensures
        final(out)@ == old(out)@ + line_text(line),
{
    append_str(out, "line:");
    let d = u64_decimal(line as u64);
    append_chars(out, &d);
    assert(final(out)@ =~= old(out)@ + line_text(line));
}

fn push_quoted(out: &mut Vec<char>, s: &String)
    ensures
        final(out)@ == old(out)@ + quoted_text(s@),
{
    let t = chars_of(s.as_str());
    out.push('"');
    let ghost start = out@;
    let mut i: usize = 0;
    assert(t@.take(0) =~= Seq::<char>::empty());
    while i < t.len()
        invariant
            i <= t@.len(),
            out@ == start + quote_escape(t@.take(i as int)),
        decreases t@.len() - i,
    {
        let c = t[i];
        if c == '\\' {
            out.push('\\');
            out.push('\\');
        } else if c == '"' {
            out.push('\\');
            out.push('"');
        } else {
            out.push(c);
        }
        i = i + 1;
        assert(t@.take(i as int).drop_last() =~= t@.take(i - 1));
        assert(out@ =~= start + quote_escape(t@.take(i as int)));
    }
    assert(t@.take(t@.len() as int) =~= t@);
    out.push('"');
    assert(final(out)@ =~= old(out)@ + quoted_text(s@));
}

fn push_literal(out: &mut Vec<char>, lit: &Literal)
    ensures
        final(out)@ == old(out)@ + literal_text(*lit),
{
    match lit {
        Literal::NoneValue => append_str(out, "None"),
        Literal::Bool(b) => push_bool(out, *b),
        Literal::Number(n) => push_string(out, n),
        Literal::String(t) => push_quoted(out, t),
    }
}

fn push_type_ann(out: &mut Vec<char>, t: &TypeAnn)
    ensures
        final(out)@ == old(out)@ + type_ann_text(*t),
{
    match t {
        TypeAnn::Unannotated => append_str(out, "None"),
        TypeAnn::Named(n) => push_string(out, n),
        TypeAnn::Array { inner } => {
            append_str(out, "Array[");
            push_string(out, inner);
            append_str(out, "]");
            assert(final(out)@ =~= old(out)@ + type_ann_text(*t));
        },
        TypeAnn::Dict { key, value } => {
            append_str(out, "Dict[");
            push_string(out, key);
            append_str(out, ", ");
            push_string(out, value);
            append_str(out, "]");
            assert(final(out)@ =~= old(out)@ + type_ann_text(*t));
        },
    }
}

fn push_binop(out: &mut Vec<char>, op: BinOp)
    ensures
        final(out)@ == old(out)@ + binop_text(op),
{
    let t = crate::semantic::binop_str(op);
    append_str(out, t);
}

fn push_exprs(out: &mut Vec<char>, items: &Vec<Expr>)
    ensures
        final(out)@ == old(out)@ + exprs_text(items@, " "@),
    decreases items, 0int,
{
    let ghost start = out@;
    let mut i: usize = 0;
    assert(items@.take(0) =~= Seq::<Expr>::empty());
    while i < items.len()
        invariant
            i <= items@.len(),
            out@ == start + exprs_text(items@.take(i as int), " "@),
        decreases items@.len() - i,
    {
        let ghost prev = items@.take(i as int);
        if i > 0 {
            append_str(out, " ");
        }
        assert(decreases_to!(items => items@[i as int]));
        push_expr(out, &items[i]);
        i = i + 1;
        assert(items@.take(i as int).drop_last() =~= prev);
        assert(out@ =~= start + exprs_text(items@.take(i as int), " "@));
    }
    assert(items@.take(items@.len() as int) =~= items@);
}

fn push_args(out: &mut Vec<char>, args: &Vec<CallArg>)
    ensures
        final(out)@ == old(out)@ + args_text(args@),
    decreases args, 0int,
{
    let ghost start = out@;
    let mut i: usize = 0;
    assert(args@.take(0) =~= Seq::<CallArg>::empty());
    while i < args.len()
        invariant
            i <= args@.len(),
            out@ == start + args_text(args@.take(i as int)),
        decreases args@.len() - i,
    {
        let ghost prev = args@.take(i as int);
        if i > 0 {
            append_str(out, " ");
        }
        assert(decreases_to!(args => args@[i as int]));
        match &args[i] {
            CallArg::Positional(x) => {
                push_expr(out, x);
            },
            CallArg::Named { name, value } => {
                push_string(out, name);
                append_str(out, "=");
                push_expr(out, value);
            },
        }
        i = i + 1;
        assert(args@.take(i as int).drop_last() =~= prev);
        assert(out@ =~= start + args_text(args@.take(i as int)));
    }
    assert(args@.take(args@.len() as int) =~= args@);
}

fn push_pairs(out: &mut Vec<char>, entries: &Vec<(Expr, Expr)>)
    ensures
        final(out)@ == old(out)@ + pairs_text(entries@),
    decreases entries, 0int,
{
    let ghost start = out@;
    let mut i: usize = 0;
    assert(entries@.take(0) =~= Seq::<(Expr, Expr)>::empty());
    while i < entries.len()
        invariant
            i <= entries@.len(),
            out@ == start + pairs_text(entries@.take(i as int)),
        decreases entries@.len() - i,
    {
        let ghost prev = entries@.take(i as int);
        if i > 0 {
            append_str(out, " ");
        }
        assert(decreases_to!(entries => entries@[i as int]));
        assert(decreases_to!(entries@[i as int] => entries@[i as int].0));
        assert(decreases_to!(entries@[i as int] => entries@[i as int].1));
        push_expr(out, &entries[i].0);
        append_str(out, ":");
        push_expr(out, &entries[i].1);
        i = i + 1;
        assert(entries@.take(i as int).drop_last() =~= prev);
        assert(out@ =~= start + pairs_text(entries@.take(i as int)));
    }
    assert(entries@.take(entries@.len() as int) =~= entries@);
}

fn push_parts(out: &mut Vec<char>, parts: &Vec<FStringPart>)
    ensures
        final(out)@ == old(out)@ + parts_text(parts@),
    decreases parts, 0int,
{
    let ghost start = out@;
    let mut i: usize = 0;
    assert(parts@.take(0) =~= Seq::<FStringPart>::empty());
    while i < parts.len()
        invariant
            i <= parts@.len(),
            out@ == start + parts_text(parts@.take(i as int)),
        decreases parts@.len() - i,
    {
        let ghost prev = parts@.take(i as int);
        if i > 0 {
            append_str(out, " ");
        }
        assert(decreases_to!(parts => parts@[i as int]));
        match &parts[i] {
            FStringPart::Literal(t) => push_quoted(out, t),
            FStringPart::Expr(x) => push_expr(out, x),
        }
        i = i + 1;
        assert(parts@.take(i as int).drop_last() =~= prev);
        assert(out@ =~= start + parts_text(parts@.take(i as int)));
    }
    assert(parts@.take(parts@.len() as int) =~= parts@);
}

/// Prints an expression.
pub fn push_expr(out: &mut Vec<char>, e: &Expr)
    ensures
        final(out)@ == old(out)@ + expr_text(*e),
    decreases e, 1int,
{
    match e {
        Expr::Literal(lit) => push_literal(out, lit),
        Expr::Variable { .. } => push_variable_expr(out, e),
        Expr::Group(..) => push_group_expr(out, e),
        Expr::Unary { .. } => push_unary_expr(out, e),
        Expr::Binary { .. } => push_binary_expr(out, e),
        Expr::Assign { .. } => push_assign_expr(out, e),
        Expr::GetField { .. } => push_get_field_expr(out, e),
        Expr::SetField { .. } => push_set_field_expr(out, e),
        Expr::Call { .. } => push_call_expr(out, e),
        Expr::CallMethod { .. } => push_call_method_expr(out, e),
        Expr::List(..) => push_list_expr(out, e),
        Expr::Dict(..) => push_dict_expr(out, e),
        Expr::Index { .. } => push_index_expr(out, e),
        Expr::IndexSet { .. } => push_index_set_expr(out, e),
        Expr::FString { .. } => push_f_string_expr(out, e),
        Expr::Ternary { .. } => push_ternary_expr(out, e),
    }
}

fn push_variable_expr(out: &mut Vec<char>, e: &Expr)
    requires
        *e is Variable,
    ensures
        final(out)@ == old(out)@ + expr_text(*e),
    decreases e, 0int,
{
    match e {
        Expr::Variable { name, .. } => {
            append_str(out, "let_ref:");
            push_string(out, name);
            assert(final(out)@ =~= old(out)@ + expr_text(*e));
        },
        _ => {},
    }
}

fn push_group_expr(out: &mut Vec<char>, e: &Expr)
    requires
        *e is Group,
    ensures
        final(out)@ == old(out)@ + expr_text(*e),
    decreases e, 0int,
{
    match e {
        Expr::Group(inner) => {
            append_str(out, "(group ");
            push_expr(out, &**inner);
            append_str(out, ")");
            assert(final(out)@ =~= old(out)@ + expr_text(*e));
        },
        _ => {},
    }
}

fn push_unary_expr(out: &mut Vec<char>, e: &Expr)
    requires
        *e is Unary,
    ensures
        final(out)@ == old(out)@ + expr_text(*e),
    decreases e, 0int,
{
    match e {
        Expr::Unary { op, right } => {
            append_str(out, "(");
            match op {
                UnaryOp::Neg => append_str(out, "-"),
                UnaryOp::Not => append_str(out, "not"),
            }
            append_str(out, " ");
            push_expr(out, &**right);
            append_str(out, ")");
            assert(final(out)@ =~= old(out)@ + expr_text(*e));
        },
        _ => {},
    }
}

fn push_binary_expr(out: &mut Vec<char>, e: &Expr)
    requires
        *e is Binary,
    ensures
        final(out)@ == old(out)@ + expr_text(*e),
    decreases e, 0int,
{
    match e {
        Expr::Binary { op, left, right } => {
            append_str(out, "(");
            push_binop(out, *op);
            append_str(out, " ");
            push_expr(out, &**left);
            append_str(out, " ");
            push_expr(out, &**right);
            append_str(out, ")");
            assert(final(out)@ =~= old(out)@ + expr_text(*e));
        },
        _ => {},
    }
}

fn push_assign_expr(out: &mut Vec<char>, e: &Expr)
    requires
        *e is Assign,
    ensures
        final(out)@ == old(out)@ + expr_text(*e),
    decreases e, 0int,
{
    match e {
        Expr::Assign { name, value } => {
            append_str(out, "(assign ");
            push_string(out, name);
            append_str(out, " ");
            push_expr(out, &**value);
            append_str(out, ")");
            assert(final(out)@ =~= old(out)@ + expr_text(*e));
        },
        _ => {},
    }
}

fn push_get_field_expr(out: &mut Vec<char>, e: &Expr)
    requires
        *e is GetField,
    ensures
        final(out)@ == old(out)@ + expr_text(*e),
    decreases e, 0int,
{
    match e {
        Expr::GetField { object, field } => {
            append_str(out, "(get_field ");
            push_string(out, object);
            append_str(out, " ");
            push_string(out, field);
            append_str(out, ")");
            assert(final(out)@ =~= old(out)@ + expr_text(*e));
        },
        _ => {},
    }
}

fn push_set_field_expr(out: &mut Vec<char>, e: &Expr)
    requires
        *e is SetField,
    ensures
        final(out)@ == old(out)@ + expr_text(*e),
    decreases e, 0int,
{
    match e {
        Expr::SetField { object, field, value } => {
            append_str(out, "(set_field ");
            push_string(out, object);
            append_str(out, " ");
            push_string(out, field);
            append_str(out, " ");
            push_expr(out, &**value);
            append_str(out, ")");
            assert(final(out)@ =~= old(out)@ + expr_text(*e));
        },
        _ => {},
    }
}

fn push_call_expr(out: &mut Vec<char>, e: &Expr)
    requires
        *e is Call,
    ensures
        final(out)@ == old(out)@ + expr_text(*e),
    decreases e, 0int,
{
    match e {
        Expr::Call { callee, args } => {
            append_str(out, "(call ");
            push_expr(out, &**callee);
            if args.len() > 0 {
                append_str(out, " ");
                push_args(out, args);
            }
            append_str(out, ")");
            assert(final(out)@ =~= old(out)@ + expr_text(*e));
        },
        _ => {},
    }
}

fn push_call_method_expr(out: &mut Vec<char>, e: &Expr)
    requires
        *e is CallMethod,
    ensures
        final(out)@ == old(out)@ + expr_text(*e),
    decreases e, 0int,
{
    match e {
        Expr::CallMethod { object, method, args } => {
            append_str(out, "(call_method ");
            push_string(out, object);
            append_str(out, " ");
            push_string(out, method);
            append_str(out, " [");
            push_exprs(out, args);
            append_str(out, "])");
            assert(final(out)@ =~= old(out)@ + expr_text(*e));
        },
        _ => {},
    }
}

fn push_list_expr(out: &mut Vec<char>, e: &Expr)
    requires
        *e is List,
    ensures
        final(out)@ == old(out)@ + expr_text(*e),
    decreases e, 0int,
{
    match e {
        Expr::List(items) => {
            if items.len() == 0 {
                append_str(out, "(list)");
            } else {
                append_str(out, "(list ");
                push_exprs(out, items);
                append_str(out, ")");
            }
            assert(final(out)@ =~= old(out)@ + expr_text(*e));
        },
        _ => {},
    }
}

fn push_dict_expr(out: &mut Vec<char>, e: &Expr)
    requires
        *e is Dict,
    ensures
        final(out)@ == old(out)@ + expr_text(*e),
    decreases e, 0int,
{
    match e {
        Expr::Dict(entries) => {
            append_str(out, "(dict ");
            push_pairs(out, entries);
            append_str(out, ")");
            assert(final(out)@ =~= old(out)@ + expr_text(*e));
        },
        _ => {},
    }
}

fn push_index_expr(out: &mut Vec<char>, e: &Expr)
    requires
        *e is Index,
    ensures
        final(out)@ == old(out)@ + expr_text(*e),
    decreases e, 0int,
{
    match e {
        Expr::Index { object, index } => {
            append_str(out, "(index ");
            push_expr(out, &**object);
            append_str(out, " ");
            push_expr(out, &**index);
            append_str(out, ")");
            assert(final(out)@ =~= old(out)@ + expr_text(*e));
        },
        _ => {},
    }
}

fn push_index_set_expr(out: &mut Vec<char>, e: &Expr)
    requires
        *e is IndexSet,
    ensures
        final(out)@ == old(out)@ + expr_text(*e),
    decreases e, 0int,
{
    match e {
        Expr::IndexSet { object, index, value } => {
            append_str(out, "(index_set ");
            push_expr(out, &**object);
            append_str(out, " ");
            push_expr(out, &**index);
            append_str(out, " ");
            push_expr(out, &**value);
            append_str(out, ")");
            assert(final(out)@ =~= old(out)@ + expr_text(*e));
        },
        _ => {},
    }
}

fn push_f_string_expr(out: &mut Vec<char>, e: &Expr)
    requires
        *e is FString,
    ensures
        final(out)@ == old(out)@ + expr_text(*e),
    decreases e, 0int,
{
    match e {
        Expr::FString { line, parts } => {
            append_str(out, "(f_string ");
            push_line(out, *line);
            append_str(out, " [");
            push_parts(out, parts);
            append_str(out, "])");
            assert(final(out)@ =~= old(out)@ + expr_text(*e));
        },
        _ => {},
    }
}

fn push_ternary_expr(out: &mut Vec<char>, e: &Expr)
    requires
        *e is Ternary,
    ensures
        final(out)@ == old(out)@ + expr_text(*e),
    decreases e, 0int,
{
    match e {
        Expr::Ternary { condition, then_branch, else_branch } => {
            append_str(out, "(if ");
            push_expr(out, &**condition);
            append_str(out, " ");
            push_expr(out, &**then_branch);
            append_str(out, " ");
            push_expr(out, &**else_branch);
            append_str(out, ")");
            assert(final(out)@ =~= old(out)@ + expr_text(*e));
        },
        _ => {},
    }
}

fn push_stmts(out: &mut Vec<char>, items: &Vec<Stmt>)
    ensures
        final(out)@ == old(out)@ + stmts_text(items@),
    decreases items, 0int,
{
    let ghost start = out@;
    let mut i: usize = 0;
    assert(items@.take(0) =~= Seq::<Stmt>::empty());
    while i < items.len()
        invariant
            i <= items@.len(),
            out@ == start + stmts_text(items@.take(i as int)),
        decreases items@.len() - i,
    {
        let ghost prev = items@.take(i as int);
        if i > 0 {
            append_str(out, " ");
        }
        assert(decreases_to!(items => items@[i as int]));
        push_stmt(out, &items[i]);
        i = i + 1;
        assert(items@.take(i as int).drop_last() =~= prev);
        assert(out@ =~= start + stmts_text(items@.take(i as int)));
    }
    assert(items@.take(items@.len() as int) =~= items@);
}

fn push_params(out: &mut Vec<char>, ps: &Vec<Param>)
    ensures
        final(out)@ == old(out)@ + params_text(ps@),
{
    let ghost start = out@;
    let mut i: usize = 0;
    assert(ps@.take(0) =~= Seq::<Param>::empty());
    while i < ps.len()
        invariant
            i <= ps@.len(),
            out@ == start + params_text(ps@.take(i as int)),
        decreases ps@.len() - i,
    {
        let ghost prev = ps@.take(i as int);
        if i > 0 {
            append_str(out, " ");
        }
        push_string(out, &ps[i].name);
        i = i + 1;
        assert(ps@.take(i as int).drop_last() =~= prev);
        assert(out@ =~= start + params_text(ps@.take(i as int)));
    }
    assert(ps@.take(ps@.len() as int) =~= ps@);
}

fn push_fields(out: &mut Vec<char>, fs: &Vec<StructField>)
    ensures
        final(out)@ == old(out)@ + fields_text(fs@),
{
    let ghost start = out@;
    let mut i: usize = 0;
    assert(fs@.take(0) =~= Seq::<StructField>::empty());
    while i < fs.len()
        invariant
            i <= fs@.len(),
            out@ == start + fields_text(fs@.take(i as int)),
        decreases fs@.len() - i,
    {
        let ghost prev = fs@.take(i as int);
        if i > 0 {
            append_str(out, ", ");
        }
        push_field(out, &fs[i]);
        i = i + 1;
        assert(fs@.take(i as int).drop_last() =~= prev);
        assert(out@ =~= start + fields_text(fs@.take(i as int)));
    }
    assert(fs@.take(fs@.len() as int) =~= fs@);
}

fn push_for_kind(out: &mut Vec<char>, k: ForKind)
    ensures
        final(out)@ == old(out)@ + for_kind_text(k),
{
    match k {
        ForKind::Sequential => append_str(out, "for_seq"),
        ForKind::Parallel => append_str(out, "for_par"),
        ForKind::Vectorized => append_str(out, "for_vec"),
        ForKind::ParallelVectorized => append_str(out, "for_par_vec"),
    }
}

fn push_for_iter(out: &mut Vec<char>, it: &ForIter)
    ensures
        final(out)@ == old(out)@ + for_iter_text(*it),
{
    match it {
        ForIter::Range { start, end } => {
            append_str(out, "range(");
            push_expr(out, start);
            append_str(out, ", ");
            push_expr(out, end);
            append_str(out, ")");
            assert(final(out)@ =~= old(out)@ + for_iter_text(*it));
        },
        ForIter::Iterable(x) => push_expr(out, x),
    }
}

fn push_field(out: &mut Vec<char>, f: &StructField)
    ensures
        final(out)@ == old(out)@ + field_text(*f),
{
    push_string(out, &f.name);
    append_str(out, ":");
    push_string(out, &f.field_type);
    append_str(out, " (pub:");
    push_bool(out, f.is_pub);
    append_str(out, ", mut:");
    push_bool(out, f.is_mut);
    append_str(out, ")");
    assert(final(out)@ =~= old(out)@ + field_text(*f));
}

fn push_method(out: &mut Vec<char>, m: &MethodDecl)
    ensures
        final(out)@ == old(out)@ + method_text(*m),
    decreases m, 0int,
{
    append_str(out, "(pub:");
    push_bool(out, m.is_pub);
    append_str(out, " ");
    push_function(out, &m.function);
    append_str(out, ")");
    assert(final(out)@ =~= old(out)@ + method_text(*m));
}

fn push_names(out: &mut Vec<char>, ns: &Vec<ImportName>)
    ensures
        final(out)@ == old(out)@ + names_text(ns@),
{
    let ghost start = out@;
    let mut i: usize = 0;
    assert(ns@.take(0) =~= Seq::<ImportName>::empty());
    while i < ns.len()
        invariant
            i <= ns@.len(),
            out@ == start + names_text(ns@.take(i as int)),
        decreases ns@.len() - i,
    {
        let ghost prev = ns@.take(i as int);
        if i > 0 {
            append_str(out, ", ");
        }
        push_string(out, &ns[i].name);
        match &ns[i].alias {
            Some(a) => {
                append_str(out, " as ");
                push_string(out, a);
            },
            None => {},
        }
        i = i + 1;
        assert(ns@.take(i as int).drop_last() =~= prev);
        assert(out@ =~= start + names_text(ns@.take(i as int)));
    }
    assert(ns@.take(ns@.len() as int) =~= ns@);
}

fn push_function(out: &mut Vec<char>, d: &FunctionDecl)
    ensures
        final(out)@ == old(out)@ + function_text(*d),
    decreases d, 0int,
{
    append_str(out, "(fn ");
    push_string(out, &d.name);
    append_str(out, " strict:");
    push_bool(out, d.is_strict);
    append_str(out, " (params ");
    push_params(out, &d.params);
    append_str(out, ") ");
    push_stmt(out, &*d.body);
    append_str(out, ")");
    assert(final(out)@ =~= old(out)@ + function_text(*d));
}

fn push_methods(out: &mut Vec<char>, ms: &Vec<MethodDecl>)
    ensures
        final(out)@ == old(out)@ + methods_text(ms@),
    decreases ms, 0int,
{
    let ghost start = out@;
    let mut i: usize = 0;
    assert(ms@.take(0) =~= Seq::<MethodDecl>::empty());
    while i < ms.len()
        invariant
            i <= ms@.len(),
            out@ == start + methods_text(ms@.take(i as int)),
        decreases ms@.len() - i,
    {
        let ghost prev = ms@.take(i as int);
        if i > 0 {
            append_str(out, " ");
        }
        assert(decreases_to!(ms => ms@[i as int]));
        push_method(out, &ms[i]);
        i = i + 1;
        assert(ms@.take(i as int).drop_last() =~= prev);
        assert(out@ =~= start + methods_text(ms@.take(i as int)));
    }
    assert(ms@.take(ms@.len() as int) =~= ms@);
}

fn push_functions(out: &mut Vec<char>, ds: &Vec<FunctionDecl>)
    ensures
        final(out)@ == old(out)@ + functions_text(ds@),
    decreases ds, 0int,
{
    let ghost start = out@;
    let mut i: usize = 0;
    assert(ds@.take(0) =~= Seq::<FunctionDecl>::empty());
    while i < ds.len()
        invariant
            i <= ds@.len(),
            out@ == start + functions_text(ds@.take(i as int)),
        decreases ds@.len() - i,
    {
        let ghost prev = ds@.take(i as int);
        if i > 0 {
            append_str(out, " ");
        }
        assert(decreases_to!(ds => ds@[i as int]));
        push_function(out, &ds[i]);
        i = i + 1;
        assert(ds@.take(i as int).drop_last() =~= prev);
        assert(out@ =~= start + functions_text(ds@.take(i as int)));
    }
    assert(ds@.take(ds@.len() as int) =~= ds@);
}

/// Prints a statement.
pub fn push_stmt(out: &mut Vec<char>, s: &Stmt)
    ensures
        final(out)@ == old(out)@ + stmt_text(*s),
    decreases s, 1int,
{
    match s {
        Stmt::Let { .. } => push_let_stmt(out, s),
        Stmt::Print { .. } => push_print_stmt(out, s),
        Stmt::Expr { .. } => push_expr_stmt(out, s),
        Stmt::Block(..) => push_block_stmt(out, s),
        Stmt::If { .. } => push_if_stmt(out, s),
        Stmt::While { .. } => push_while_stmt(out, s),
        Stmt::For { .. } => push_for_stmt(out, s),
        Stmt::Function(..) => push_function_stmt(out, s),
        Stmt::Return { .. } => push_return_stmt(out, s),
        Stmt::Struct { .. } => push_struct_stmt(out, s),
        Stmt::Trait { .. } => push_trait_stmt(out, s),
        Stmt::WithMmap { .. } => push_with_mmap_stmt(out, s),
        Stmt::Import { .. } => push_import_stmt(out, s),
        Stmt::ImportFrom { .. } => push_import_from_stmt(out, s),
    }
}

fn push_let_stmt(out: &mut Vec<char>, s: &Stmt)
    requires
        *s is Let,
    ensures
        final(out)@ == old(out)@ + stmt_text(*s),
    decreases s, 0int,
{
    match s {
        Stmt::Let { line, is_mutable, name, type_ann, initializer } =>  {
            append_str(out, "(let ");
            push_line(out, *line);
            append_str(out, " ");
            if *is_mutable { append_str(out, "mut"); } else { append_str(out, "immut"); }
            append_str(out, " ");
            push_string(out, name);
            append_str(out, " type:");
            push_type_ann(out, type_ann);
            append_str(out, " ");
            push_expr(out, initializer);
            append_str(out, ")");
            assert(final(out)@ =~= old(out)@ + stmt_text(*s));
        },
        _ => {},
    }
}

fn push_print_stmt(out: &mut Vec<char>, s: &Stmt)
    requires
        *s is Print,
    ensures
        final(out)@ == old(out)@ + stmt_text(*s),
    decreases s, 0int,
{
    match s {
        Stmt::Print { line, values } =>  {
            append_str(out, "(print ");
            push_line(out, *line);
            append_str(out, " ");
            push_exprs(out, values);
            append_str(out, ")");
            assert(final(out)@ =~= old(out)@ + stmt_text(*s));
        },
        _ => {},
    }
}

fn push_expr_stmt(out: &mut Vec<char>, s: &Stmt)
    requires
        *s is Expr,
    ensures
        final(out)@ == old(out)@ + stmt_text(*s),
    decreases s, 0int,
{
    match s {
        Stmt::Expr { line, expr } =>  {
            append_str(out, "(expr ");
            push_line(out, *line);
            append_str(out, " ");
            push_expr(out, expr);
            append_str(out, ")");
            assert(final(out)@ =~= old(out)@ + stmt_text(*s));
        },
        _ => {},
    }
}

fn push_block_stmt(out: &mut Vec<char>, s: &Stmt)
    requires
        *s is Block,
    ensures
        final(out)@ == old(out)@ + stmt_text(*s),
    decreases s, 0int,
{
    match s {
        Stmt::Block(stmts) =>  {
            if stmts.len() == 0 {
                append_str(out, "(block)");
            } else {
                append_str(out, "(block ");
                push_stmts(out, stmts);
                append_str(out, ")");
            }
            assert(final(out)@ =~= old(out)@ + stmt_text(*s));
        },
        _ => {},
    }
}

fn push_if_stmt(out: &mut Vec<char>, s: &Stmt)
    requires
        *s is If,
    ensures
        final(out)@ == old(out)@ + stmt_text(*s),
    decreases s, 0int,
{
    match s {
        Stmt::If { condition, then_branch, else_branch } =>  {
            append_str(out, "(if ");
            push_expr(out, condition);
            append_str(out, " ");
            push_stmt(out, &**then_branch);
            match else_branch {
                Some(b) => {
                    append_str(out, " ");
                    push_stmt(out, &**b);
                },
                None => {},
            }
            append_str(out, ")");
            assert(final(out)@ =~= old(out)@ + stmt_text(*s));
        },
        _ => {},
    }
}

fn push_while_stmt(out: &mut Vec<char>, s: &Stmt)
    requires
        *s is While,
    ensures
        final(out)@ == old(out)@ + stmt_text(*s),
    decreases s, 0int,
{
    match s {
        Stmt::While { line, condition, body } =>  {
            append_str(out, "(while ");
            push_line(out, *line);
            append_str(out, " ");
            push_expr(out, condition);
            append_str(out, " ");
            push_stmt(out, &**body);
            append_str(out, ")");
            assert(final(out)@ =~= old(out)@ + stmt_text(*s));
        },
        _ => {},
    }
}

fn push_for_stmt(out: &mut Vec<char>, s: &Stmt)
    requires
        *s is For,
    ensures
        final(out)@ == old(out)@ + stmt_text(*s),
    decreases s, 0int,
{
    match s {
        Stmt::For { kind, line, var, iter, body } =>  {
            append_str(out, "(");
            push_for_kind(out, *kind);
            append_str(out, " ");
            push_line(out, *line);
            append_str(out, " ");
            push_string(out, var);
            append_str(out, " in ");
            push_for_iter(out, iter);
            append_str(out, " ");
            push_stmt(out, &**body);
            append_str(out, ")");
            assert(final(out)@ =~= old(out)@ + stmt_text(*s));
        },
        _ => {},
    }
}

fn push_function_stmt(out: &mut Vec<char>, s: &Stmt)
    requires
        *s is Function,
    ensures
        final(out)@ == old(out)@ + stmt_text(*s),
    decreases s, 0int,
{
    match s {
        Stmt::Function(decl) =>  push_function(out, decl),
        _ => {},
    }
}

fn push_return_stmt(out: &mut Vec<char>, s: &Stmt)
    requires
        *s is Return,
    ensures
        final(out)@ == old(out)@ + stmt_text(*s),
    decreases s, 0int,
{
    match s {
        Stmt::Return { line, value } =>  {
            append_str(out, "(return ");
            push_line(out, *line);
            append_str(out, " ");
            push_expr(out, value);
            append_str(out, ")");
            assert(final(out)@ =~= old(out)@ + stmt_text(*s));
        },
        _ => {},
    }
}

fn push_struct_stmt(out: &mut Vec<char>, s: &Stmt)
    requires
        *s is Struct,
    ensures
        final(out)@ == old(out)@ + stmt_text(*s),
    decreases s, 0int,
{
    match s {
        Stmt::Struct { name, implemented_trait, fields, methods } =>  {
            append_str(out, "(struct ");
            push_string(out, name);
            append_str(out, " trait:");
            match implemented_trait {
                Some(t) => push_string(out, t),
                None => {},
            }
            append_str(out, " fields:[");
            push_fields(out, fields);
            append_str(out, "] methods:[");
            push_methods(out, methods);
            append_str(out, "])");
            assert(final(out)@ =~= old(out)@ + stmt_text(*s));
        },
        _ => {},
    }
}

fn push_trait_stmt(out: &mut Vec<char>, s: &Stmt)
    requires
        *s is Trait,
    ensures
        final(out)@ == old(out)@ + stmt_text(*s),
    decreases s, 0int,
{
    match s {
        Stmt::Trait { name, methods } =>  {
            append_str(out, "(trait ");
            push_string(out, name);
            append_str(out, " methods:[");
            push_functions(out, methods);
            append_str(out, "])");
            assert(final(out)@ =~= old(out)@ + stmt_text(*s));
        },
        _ => {},
    }
}

fn push_with_mmap_stmt(out: &mut Vec<char>, s: &Stmt)
    requires
        *s is WithMmap,
    ensures
        final(out)@ == old(out)@ + stmt_text(*s),
    decreases s, 0int,
{
    match s {
        Stmt::WithMmap { line, path, var, body } =>  {
            append_str(out, "(with_mmap ");
            push_line(out, *line);
            append_str(out, " ");
            push_expr(out, path);
            append_str(out, " ");
            push_string(out, var);
            append_str(out, " ");
            push_stmt(out, &**body);
            append_str(out, ")");
            assert(final(out)@ =~= old(out)@ + stmt_text(*s));
        },
        _ => {},
    }
}

fn push_import_stmt(out: &mut Vec<char>, s: &Stmt)
    requires
        *s is Import,
    ensures
        final(out)@ == old(out)@ + stmt_text(*s),
    decreases s, 0int,
{
    match s {
        Stmt::Import { line, module, alias } =>  {
            append_str(out, "(import ");
            push_line(out, *line);
            append_str(out, " ");
            push_string(out, module);
            match alias {
                Some(a) => {
                    append_str(out, " as ");
                    push_string(out, a);
                },
                None => {},
            }
            append_str(out, ")");
            assert(final(out)@ =~= old(out)@ + stmt_text(*s));
        },
        _ => {},
    }
}

fn push_import_from_stmt(out: &mut Vec<char>, s: &Stmt)
    requires
        *s is ImportFrom,
    ensures
        final(out)@ == old(out)@ + stmt_text(*s),
    decreases s, 0int,
{
    match s {
        Stmt::ImportFrom { line, module, names } =>  {
            append_str(out, "(from_import ");
            push_line(out, *line);
            append_str(out, " ");
            push_string(out, module);
            append_str(out, " [");
            push_names(out, names);
            append_str(out, "])");
            assert(final(out)@ =~= old(out)@ + stmt_text(*s));
        },
        _ => {},
    }
}

impl Stmt {
    /// The printed form of this statement.
    pub fn render(&self) -> (r: String)
        ensures
            r@ == stmt_text(*self),
    {
        let mut out: Vec<char> = Vec::new();
        push_stmt(&mut out, self);
        assert(out@ =~= stmt_text(*self));
        string_from_chars(out)
    }
}

impl Expr {
    /// The printed form of this expression.
    pub fn render(&self) -> (r: String)
        ensures
            r@ == expr_text(*self),
    {
        let mut out: Vec<char> = Vec::new();
        push_expr(&mut out, self);
        assert(out@ =~= expr_text(*self));
        string_from_chars(out)
    }
}

} // verus!
