//! What checking an expression or a statement may change in the checker's
//! state, and what it leaves alone: findings are only ever appended, the
//! return type a function expects is given back, and the names bound in the
//! enclosing scopes stay as they were.

use vstd::prelude::*;
use crate::ast::{CallArg, Expr, FStringPart, ForIter, FunctionDecl, ImportName, MethodDecl, Param, Stmt};
use crate::semantic::{
    CheckView, ScopeView, binding_scope, bind_params, c_arguments, c_binary, c_call_result, c_define, c_error,
    c_lookup, c_mark_inferred, c_pop_scope, c_push_scope, c_widen, check_args_spec, check_entries_spec,
    check_expr_spec, check_exprs_spec, check_function_spec, check_items_spec, check_methods_spec,
    check_parts_spec, check_stmt_spec, check_stmts_spec, declare_sigs_spec, fn_ty, hoist_spec,
    import_names_spec, last_binding, lookup_in, lookup_scopes, opt_ty, param_tys, ty_debug, ann_ty,
    expr_fits_type_spec,
};
use crate::types::{Ty, is_any, is_compatible, is_numeric};
use crate::text::decimal;

verus! {

/// The names of bindings, in order.
pub open spec fn names_in(bs: Seq<(Seq<char>, Ty, bool)>) -> Seq<Seq<char>> {
    bs.map_values(|b: (Seq<char>, Ty, bool)| b.0)
}

/// The names a scope binds, in the order they were bound.
pub open spec fn binding_names(sc: ScopeView) -> Seq<Seq<char>> {
    names_in(sc.bindings)
}

/// The names bound in each of `ss`, innermost last.
pub open spec fn names_of(ss: Seq<ScopeView>) -> Seq<Seq<Seq<char>>> {
    ss.map_values(|sc: ScopeView| binding_names(sc))
}

pub open spec fn scope_names(c: CheckView) -> Seq<Seq<Seq<char>>> {
    names_of(c.scopes)
}

/// `a` is a prefix of `b`.
pub open spec fn is_prefix<T>(a: Seq<T>, b: Seq<T>) -> bool {
    a.len() <= b.len() && b.take(a.len() as int) == a
}

/// From `a` to `b`: the same names in every scope, findings only appended,
/// the expected return type kept.
pub open spec fn expr_kept(a: CheckView, b: CheckView) -> bool {
    &&& scope_names(b) == scope_names(a)
    &&& is_prefix(a.errors, b.errors)
    &&& b.expected_return == a.expected_return
}

/// From `a` to `b`: as many scopes, the same names in the enclosing ones,
/// names only added to the innermost one, findings only appended, the
/// expected return type kept.
pub open spec fn stmt_kept(a: CheckView, b: CheckView) -> bool {
    &&& a.scopes.len() >= 1
    &&& b.scopes.len() == a.scopes.len()
    &&& scope_names(b).drop_last() == scope_names(a).drop_last()
    &&& is_prefix(scope_names(a).last(), scope_names(b).last())
    &&& is_prefix(a.errors, b.errors)
    &&& b.expected_return == a.expected_return
}

proof fn lemma_prefix_refl<T>(a: Seq<T>)
    ensures
        is_prefix(a, a),
{
    assert(a.take(a.len() as int) =~= a);
}

proof fn lemma_prefix_push<T>(a: Seq<T>, x: T)
    ensures
        is_prefix(a, a.push(x)),
{
    assert(a.push(x).take(a.len() as int) =~= a);
}

proof fn lemma_prefix_trans<T>(a: Seq<T>, b: Seq<T>, c: Seq<T>)
    requires
        is_prefix(a, b),
        is_prefix(b, c),
    ensures
        is_prefix(a, c),
{
    assert(c.take(a.len() as int) =~= c.take(b.len() as int).take(a.len() as int));
}

proof fn lemma_expr_refl(a: CheckView)
    ensures
        expr_kept(a, a),
{
    lemma_prefix_refl(a.errors);
}

proof fn lemma_expr_trans(a: CheckView, b: CheckView, c: CheckView)
    requires
        expr_kept(a, b),
        expr_kept(b, c),
    ensures
        expr_kept(a, c),
{
    lemma_prefix_trans(a.errors, b.errors, c.errors);
}

proof fn lemma_stmt_trans(a: CheckView, b: CheckView, c: CheckView)
    requires
        stmt_kept(a, b),
        stmt_kept(b, c),
    ensures
        stmt_kept(a, c),
{
    lemma_prefix_trans(a.errors, b.errors, c.errors);
    lemma_prefix_trans(scope_names(a).last(), scope_names(b).last(), scope_names(c).last());
}

proof fn lemma_expr_stmt(a: CheckView, b: CheckView)
    requires
        a.scopes.len() >= 1,
        expr_kept(a, b),
    ensures
        stmt_kept(a, b),
{
    assert(b.scopes.len() == scope_names(b).len());
    lemma_prefix_refl(scope_names(a).last());
}

proof fn lemma_error(c: CheckView)
    ensures
        forall|m: Seq<char>| expr_kept(c, #[trigger] c_error(c, m)),
{
    assert forall|m: Seq<char>| expr_kept(c, #[trigger] c_error(c, m)) by {
        lemma_prefix_push(c.errors, c_error(c, m).errors.last());
        assert(c_error(c, m).errors =~= c.errors.push(c_error(c, m).errors.last()));
    }
}

proof fn lemma_last_binding_range(bs: Seq<(Seq<char>, Ty, bool)>, name: Seq<char>)
    ensures
        last_binding(bs, name) matches Some(h) ==> 0 <= h < bs.len() && bs[h].0 == name,
    decreases bs.len(),
{
    if bs.len() > 0 && bs.last().0 != name {
        lemma_last_binding_range(bs.drop_last(), name);
    }
}

proof fn lemma_binding_scope_range(ss: Seq<ScopeView>, name: Seq<char>)
    ensures
        binding_scope(ss, name) matches Some(i) ==> 0 <= i < ss.len() && last_binding(ss[i].bindings, name) is Some,
    decreases ss.len(),
{
    if ss.len() > 0 && last_binding(ss.last().bindings, name) is None {
        lemma_binding_scope_range(ss.drop_last(), name);
    }
}

proof fn lemma_widen(c: CheckView, name: Seq<char>, ty: Ty)
    ensures
        expr_kept(c, c_widen(c, name, ty).0),
{
    lemma_expr_refl(c);
    lemma_binding_scope_range(c.scopes, name);
    if let Some(si) = binding_scope(c.scopes, name) {
        let sc = c.scopes[si];
        lemma_last_binding_range(sc.bindings, name);
        if sc.inferred.contains(name) {
            let h = last_binding(sc.bindings, name)->0;
            let b = sc.bindings[h];
            let nb = sc.bindings.update(h, (b.0, ty, b.2));
            let nsc = ScopeView { bindings: nb, ..sc };
            assert(binding_names(nsc) =~= binding_names(sc));
            assert(names_of(c.scopes.update(si, nsc)) =~= names_of(c.scopes));
        }
    }
}

proof fn lemma_binary(c: CheckView, op: crate::ast::BinOp, l: Ty, r: Ty)
    ensures
        expr_kept(c, c_binary(c, op, l, r).0),
{
    lemma_expr_refl(c);
    lemma_error(c);
}

proof fn lemma_arguments(c: CheckView, ps: Seq<Ty>, args: Seq<Ty>, n: int)
    ensures
        expr_kept(c, c_arguments(c, ps, args, n)),
    decreases n,
{
    if n <= 0 {
        lemma_expr_refl(c);
    } else {
        let c1 = c_arguments(c, ps, args, n - 1);
        lemma_arguments(c, ps, args, n - 1);
        lemma_error(c1);
        lemma_expr_refl(c1);
        lemma_expr_trans(c, c1, c_arguments(c, ps, args, n));
    }
}

proof fn lemma_call_result(c: CheckView, callee: Ty, args: Seq<Ty>)
    ensures
        expr_kept(c, c_call_result(c, callee, args).0),
{
    lemma_expr_refl(c);
    if let Ty::Function(ps, ret) = callee {
        lemma_error(c);
        lemma_arguments(c, ps, args, ps.len() as int);
    }
}

/// Checking an expression only appends findings, keeps the expected return
/// type and the names bound in every scope (it may retype a binding, never
/// add or drop one).
pub proof fn lemma_check_expr_scoping(c: CheckView, e: Expr)
    ensures
        expr_kept(c, check_expr_spec(c, e).0),
    decreases e,
{
    let r = check_expr_spec(c, e).0;
    match e {
        Expr::Literal(_) => lemma_expr_refl(c),
        Expr::Variable { name, line } => {
            lemma_expr_refl(c);
            lemma_error(c);
        },
        Expr::Group(inner) => lemma_check_expr_scoping(c, *inner),
        Expr::Unary { op, right } => {
            let (c1, rt) = check_expr_spec(c, *right);
            lemma_check_expr_scoping(c, *right);
            lemma_error(c1);
            lemma_expr_refl(c1);
            lemma_expr_trans(c, c1, r);
        },
        Expr::Binary { op, left, right } => {
            let (c1, lt) = check_expr_spec(c, *left);
            let (c2, rt) = check_expr_spec(c1, *right);
            lemma_check_expr_scoping(c, *left);
            lemma_check_expr_scoping(c1, *right);
            lemma_binary(c2, op, lt, rt);
            lemma_expr_trans(c, c1, c2);
            lemma_expr_trans(c, c2, r);
        },
        Expr::Assign { name, value } => {
            let (c1, vt) = check_expr_spec(c, *value);
            lemma_check_expr_scoping(c, *value);
            lemma_expr_refl(c1);
            lemma_error(c1);
            lemma_error(c1);
            lemma_widen(c1, name@, vt);
            let w0 = c_widen(c1, name@, vt).0;
            if let Some((bt, bmut)) = c_lookup(c1, name@) {
                lemma_error(w0);
                lemma_expr_trans(c1, w0, r);
            }
            lemma_expr_trans(c, c1, r);
        },
        Expr::GetField { object, .. } => {
            lemma_expr_refl(c);
            lemma_error(c);
        },
        Expr::SetField { object, value, .. } => {
            let c1 = if c_lookup(c, object@) is None { c_error(c, crate::semantic::undefined_text(object@)) } else { c };
            lemma_expr_refl(c);
            lemma_error(c);
            lemma_check_expr_scoping(c1, *value);
            lemma_expr_trans(c, c1, r);
        },
        Expr::Call { callee, args } => {
            let (c1, ct) = check_expr_spec(c, *callee);
            let (c2, tys) = check_args_spec(c1, args@);
            lemma_check_expr_scoping(c, *callee);
            lemma_check_args_scoping(c1, args@);
            lemma_call_result(c2, ct, tys);
            lemma_expr_trans(c, c1, c2);
            lemma_expr_trans(c, c2, r);
        },
        Expr::CallMethod { object, args, .. } => {
            let c1 = if c_lookup(c, object@) is None { c_error(c, crate::semantic::undefined_text(object@)) } else { c };
            lemma_expr_refl(c);
            lemma_error(c);
            lemma_check_exprs_scoping(c1, args@);
            lemma_expr_trans(c, c1, r);
        },
        Expr::List(items) => lemma_check_items_scoping(c, items@),
        Expr::Dict(entries) => lemma_check_entries_scoping(c, entries@),
        Expr::Index { object, index } => {
            let (c1, ot) = check_expr_spec(c, *object);
            let c2 = check_expr_spec(c1, *index).0;
            lemma_check_expr_scoping(c, *object);
            lemma_check_expr_scoping(c1, *index);
            lemma_expr_trans(c, c1, c2);
            lemma_expr_refl(c2);
            lemma_error(c2);
            lemma_expr_trans(c, c2, r);
        },
        Expr::IndexSet { object, index, value } => {
            let c1 = check_expr_spec(c, *object).0;
            let c2 = check_expr_spec(c1, *index).0;
            lemma_check_expr_scoping(c, *object);
            lemma_check_expr_scoping(c1, *index);
            lemma_check_expr_scoping(c2, *value);
            lemma_expr_trans(c, c1, c2);
            lemma_expr_trans(c, c2, r);
        },
        Expr::FString { parts, .. } => lemma_check_parts_scoping(c, parts@),
        Expr::Ternary { condition, then_branch, else_branch } => {
            let c1 = check_expr_spec(c, *condition).0;
            let c2 = check_expr_spec(c1, *then_branch).0;
            lemma_check_expr_scoping(c, *condition);
            lemma_check_expr_scoping(c1, *then_branch);
            lemma_check_expr_scoping(c2, *else_branch);
            lemma_expr_trans(c, c1, c2);
            lemma_expr_trans(c, c2, r);
        },
    }
}

proof fn lemma_check_exprs_scoping(c: CheckView, es: Seq<Expr>)
    ensures
        expr_kept(c, check_exprs_spec(c, es)),
    decreases es,
{
    if es.len() == 0 {
        lemma_expr_refl(c);
    } else {
        let c1 = check_exprs_spec(c, es.drop_last());
        lemma_check_exprs_scoping(c, es.drop_last());
        lemma_check_expr_scoping(c1, es.last());
        lemma_expr_trans(c, c1, check_exprs_spec(c, es));
    }
}

proof fn lemma_check_items_scoping(c: CheckView, es: Seq<Expr>)
    ensures
        expr_kept(c, check_items_spec(c, es).0),
    decreases es,
{
    if es.len() == 0 {
        lemma_expr_refl(c);
    } else {
        let c1 = check_items_spec(c, es.drop_last()).0;
        lemma_check_items_scoping(c, es.drop_last());
        lemma_check_expr_scoping(c1, es.last());
        lemma_expr_trans(c, c1, check_items_spec(c, es).0);
    }
}

proof fn lemma_check_entries_scoping(c: CheckView, es: Seq<(Expr, Expr)>)
    ensures
        expr_kept(c, check_entries_spec(c, es)),
    decreases es,
{
    if es.len() == 0 {
        lemma_expr_refl(c);
    } else {
        let c1 = check_entries_spec(c, es.drop_last());
        let c2 = check_expr_spec(c1, es.last().0).0;
        lemma_check_entries_scoping(c, es.drop_last());
        lemma_check_expr_scoping(c1, es.last().0);
        lemma_check_expr_scoping(c2, es.last().1);
        lemma_expr_trans(c, c1, c2);
        lemma_expr_trans(c, c2, check_entries_spec(c, es));
    }
}

proof fn lemma_check_parts_scoping(c: CheckView, ps: Seq<FStringPart>)
    ensures
        expr_kept(c, check_parts_spec(c, ps)),
    decreases ps,
{
    if ps.len() == 0 {
        lemma_expr_refl(c);
    } else {
        let c1 = check_parts_spec(c, ps.drop_last());
        lemma_check_parts_scoping(c, ps.drop_last());
        lemma_expr_refl(c1);
        if let FStringPart::Expr(e) = ps.last() {
            lemma_check_expr_scoping(c1, e);
        }
        lemma_expr_trans(c, c1, check_parts_spec(c, ps));
    }
}

proof fn lemma_check_args_scoping(c: CheckView, args: Seq<CallArg>)
    ensures
        expr_kept(c, check_args_spec(c, args).0),
    decreases args,
{
    if args.len() == 0 {
        lemma_expr_refl(c);
    } else {
        let c1 = check_args_spec(c, args.drop_last()).0;
        lemma_check_args_scoping(c, args.drop_last());
        match args.last() {
            CallArg::Positional(e) => lemma_check_expr_scoping(c1, e),
            CallArg::Named { value, .. } => lemma_check_expr_scoping(c1, value),
        }
        lemma_expr_trans(c, c1, check_args_spec(c, args).0);
    }
}

// ---------------------------------------------------------------------------
// Statements

proof fn lemma_stmt_refl(c: CheckView)
    requires
        c.scopes.len() >= 1,
    ensures
        stmt_kept(c, c),
{
    lemma_expr_refl(c);
    lemma_expr_stmt(c, c);
}

proof fn lemma_define(c: CheckView, name: Seq<char>, ty: Ty, m: bool)
    requires
        c.scopes.len() >= 1,
    ensures
        stmt_kept(c, c_define(c, name, ty, m)),
{
    let d = c_define(c, name, ty, m);
    let n = c.scopes.len() - 1;
    assert(binding_names(d.scopes[n]) =~= binding_names(c.scopes[n]).push(name));
    assert(scope_names(d).drop_last() =~= scope_names(c).drop_last());
    assert(scope_names(d).last() == binding_names(d.scopes[n]));
    lemma_prefix_push(scope_names(c).last(), name);
    lemma_prefix_refl(c.errors);
}

proof fn lemma_mark(c: CheckView, name: Seq<char>, inferred: bool)
    requires
        c.scopes.len() >= 1,
    ensures
        expr_kept(c, c_mark_inferred(c, name, inferred)),
{
    let d = c_mark_inferred(c, name, inferred);
    let n = c.scopes.len() - 1;
    assert(binding_names(d.scopes[n]) == binding_names(c.scopes[n]));
    assert(scope_names(d) =~= scope_names(c));
    lemma_prefix_refl(c.errors);
}

proof fn lemma_push(c: CheckView)
    ensures
        scope_names(c_push_scope(c)) == scope_names(c).push(Seq::<Seq<char>>::empty()),
        scope_names(c_push_scope(c)).drop_last() == scope_names(c),
{
    let e = ScopeView { bindings: seq![], inferred: seq![] };
    assert(binding_names(e) =~= Seq::<Seq<char>>::empty());
    assert(scope_names(c_push_scope(c)) =~= scope_names(c).push(Seq::<Seq<char>>::empty()));
    assert(scope_names(c).push(Seq::<Seq<char>>::empty()).drop_last() =~= scope_names(c));
}

proof fn lemma_pop(c: CheckView)
    requires
        c.scopes.len() >= 1,
    ensures
        scope_names(c_pop_scope(c)) == scope_names(c).drop_last(),
{
    assert(scope_names(c_pop_scope(c)) =~= scope_names(c).drop_last());
}

proof fn lemma_hoist(c: CheckView, ss: Seq<Stmt>)
    requires
        c.scopes.len() >= 1,
    ensures
        stmt_kept(c, hoist_spec(c, ss)),
    decreases ss.len(),
{
    if ss.len() == 0 {
        lemma_stmt_refl(c);
    } else {
        let c1 = hoist_spec(c, ss.drop_last());
        lemma_hoist(c, ss.drop_last());
        if let Stmt::Function(d) = ss.last() {
            lemma_define(c1, d.name@, fn_ty(c1, d), false);
            lemma_stmt_trans(c, c1, hoist_spec(c, ss));
        }
    }
}

proof fn lemma_bind_params(c: CheckView, ps: Seq<Param>, tys: Seq<Ty>)
    requires
        c.scopes.len() >= 1,
    ensures
        stmt_kept(c, bind_params(c, ps, tys)),
    decreases ps.len(),
{
    if ps.len() == 0 {
        lemma_stmt_refl(c);
    } else {
        let c1 = bind_params(c, ps.drop_last(), tys);
        lemma_bind_params(c, ps.drop_last(), tys);
        lemma_define(c1, ps.last().name@, tys[ps.len() - 1], true);
        lemma_stmt_trans(c, c1, bind_params(c, ps, tys));
    }
}

proof fn lemma_sigs(c: CheckView, ds: Seq<FunctionDecl>)
    requires
        c.scopes.len() >= 1,
    ensures
        stmt_kept(c, declare_sigs_spec(c, ds)),
    decreases ds.len(),
{
    if ds.len() == 0 {
        lemma_stmt_refl(c);
    } else {
        let c1 = declare_sigs_spec(c, ds.drop_last());
        lemma_sigs(c, ds.drop_last());
        lemma_define(c1, ds.last().name@, fn_ty(c1, ds.last()), false);
        lemma_stmt_trans(c, c1, declare_sigs_spec(c, ds));
    }
}

proof fn lemma_imports(c: CheckView, ns: Seq<ImportName>)
    requires
        c.scopes.len() >= 1,
    ensures
        stmt_kept(c, import_names_spec(c, ns)),
    decreases ns.len(),
{
    if ns.len() == 0 {
        lemma_stmt_refl(c);
    } else {
        let c1 = import_names_spec(c, ns.drop_last());
        lemma_imports(c, ns.drop_last());
        let bind = match ns.last().alias {
            Some(a) => a@,
            None => ns.last().name@,
        };
        lemma_define(c1, bind, Ty::Any, false);
        lemma_stmt_trans(c, c1, import_names_spec(c, ns));
    }
}

/// Checking a statement only appends findings, gives back the return type
/// the enclosing function expects, keeps the number of scopes, leaves the
/// names bound in the enclosing scopes as they were and only adds names to
/// the innermost one.  A block, a `for` loop and a `with` statement leave
/// the names bound in every scope as they were.
pub proof fn lemma_check_stmt_scoping(c: CheckView, s: Stmt)
    requires
        c.scopes.len() >= 1,
    ensures
        stmt_kept(c, check_stmt_spec(c, s)),
        (s is Block || s is For || s is WithMmap) ==> expr_kept(c, check_stmt_spec(c, s)),
    decreases s,
{
    let r = check_stmt_spec(c, s);
    match s {
        Stmt::Let { line, is_mutable, name, type_ann, initializer } => {
            let (c1, it) = check_expr_spec(c, initializer);
            lemma_check_expr_scoping(c, initializer);
            lemma_expr_stmt(c, c1);
            let unannotated = type_ann is Unannotated;
            let ann = ann_ty(c1, type_ann);
            let c2 = if !unannotated && !is_compatible(ann, it) && !expr_fits_type_spec(initializer, ann) {
                c_error(c1, "[line "@ + decimal(line as nat) + "] Type error: cannot initialize '"@ + name@
                    + "' of type "@ + ty_debug(ann) + " with "@ + ty_debug(it) + "."@)
            } else {
                c1
            };
            lemma_error(c1);
            lemma_expr_refl(c1);
            lemma_expr_trans(c, c1, c2);
            lemma_expr_stmt(c, c2);
            let declared = if unannotated || is_any(ann) { it } else { ann };
            let c3 = c_define(c2, name@, declared, is_mutable);
            lemma_define(c2, name@, declared, is_mutable);
            lemma_stmt_trans(c, c2, c3);
            lemma_mark(c3, name@, unannotated);
            lemma_expr_stmt(c3, r);
            lemma_stmt_trans(c, c3, r);
        },
        Stmt::Print { values, .. } => {
            lemma_check_exprs_scoping(c, values@);
            lemma_expr_stmt(c, r);
        },
        Stmt::Expr { expr, .. } => {
            lemma_check_expr_scoping(c, expr);
            lemma_expr_stmt(c, r);
        },
        Stmt::Block(stmts) => {
            let c0 = c_push_scope(c);
            let c1 = hoist_spec(c0, stmts@);
            let c2 = check_stmts_spec(c1, stmts@);
            lemma_push(c);
            lemma_hoist(c0, stmts@);
            lemma_check_stmts_scoping(c1, stmts@);
            lemma_stmt_trans(c0, c1, c2);
            lemma_pop(c2);
            lemma_expr_stmt(c, r);
        },
        Stmt::If { condition, then_branch, else_branch } => {
            let c1 = check_expr_spec(c, condition).0;
            lemma_check_expr_scoping(c, condition);
            lemma_expr_stmt(c, c1);
            let c2 = check_stmt_spec(c1, *then_branch);
            lemma_check_stmt_scoping(c1, *then_branch);
            lemma_stmt_trans(c, c1, c2);
            if let Some(e) = else_branch {
                lemma_check_stmt_scoping(c2, *e);
                lemma_stmt_trans(c, c2, r);
            }
        },
        Stmt::While { condition, body, .. } => {
            let c1 = check_expr_spec(c, condition).0;
            lemma_check_expr_scoping(c, condition);
            lemma_expr_stmt(c, c1);
            lemma_check_stmt_scoping(c1, *body);
            lemma_stmt_trans(c, c1, r);
        },
        Stmt::For { var, iter, body, .. } => {
            let c1 = match iter {
                ForIter::Range { start, end } => {
                    let (ca, st) = check_expr_spec(c, start);
                    let (cb, et) = check_expr_spec(ca, end);
                    let cc = if !is_numeric(st) {
                        c_error(cb, "Type error: for-loop start must be numeric, got "@ + ty_debug(st) + "."@)
                    } else {
                        cb
                    };
                    let cd = if !is_numeric(et) {
                        c_error(cc, "Type error: for-loop end must be numeric, got "@ + ty_debug(et) + "."@)
                    } else {
                        cc
                    };
                    c_define(c_push_scope(cd), var@, Ty::I64, false)
                },
                ForIter::Iterable(it) => {
                    let (ca, t) = check_expr_spec(c, it);
                    let (cb, elem) = match t {
                        Ty::List(inner) => (ca, *inner),
                        Ty::Array(inner) => (ca, *inner),
                        Ty::Any => (ca, Ty::Any),
                        other => (c_error(ca, "Type error: for-in iterable must be a list, got "@ + ty_debug(other) + "."@), Ty::Any),
                    };
                    c_define(c_push_scope(cb), var@, elem, false)
                },
            };
            let pre = match iter {
                ForIter::Range { start, end } => {
                    let (ca, st) = check_expr_spec(c, start);
                    let (cb, et) = check_expr_spec(ca, end);
                    lemma_check_expr_scoping(c, start);
                    lemma_check_expr_scoping(ca, end);
                    lemma_expr_trans(c, ca, cb);
                    let cc = if !is_numeric(st) {
                        c_error(cb, "Type error: for-loop start must be numeric, got "@ + ty_debug(st) + "."@)
                    } else {
                        cb
                    };
                    lemma_error(cb);
                    lemma_expr_refl(cb);
                    lemma_expr_trans(c, cb, cc);
                    let cd = if !is_numeric(et) {
                        c_error(cc, "Type error: for-loop end must be numeric, got "@ + ty_debug(et) + "."@)
                    } else {
                        cc
                    };
                    lemma_error(cc);
                    lemma_expr_refl(cc);
                    lemma_expr_trans(c, cc, cd);
                    cd
                },
                ForIter::Iterable(it) => {
                    let (ca, t) = check_expr_spec(c, it);
                    lemma_check_expr_scoping(c, it);
                    lemma_error(ca);
                    lemma_expr_refl(ca);
                    let cb = match t {
                        Ty::List(inner) => ca,
                        Ty::Array(inner) => ca,
                        Ty::Any => ca,
                        other => c_error(ca, "Type error: for-in iterable must be a list, got "@ + ty_debug(other) + "."@),
                    };
                    lemma_expr_trans(c, ca, cb);
                    cb
                },
            };
            assert(expr_kept(c, pre));
            let elem = match iter {
                ForIter::Range { .. } => Ty::I64,
                ForIter::Iterable(it) => match check_expr_spec(c, it).1 {
                    Ty::List(inner) => *inner,
                    Ty::Array(inner) => *inner,
                    _ => Ty::Any,
                },
            };
            assert(c1 == c_define(c_push_scope(pre), var@, elem, false));
            lemma_push(pre);
            lemma_define(c_push_scope(pre), var@, elem, false);
            lemma_check_stmt_scoping(c1, *body);
            let cbody = check_stmt_spec(c1, *body);
            lemma_stmt_trans(c_push_scope(pre), c1, cbody);
            lemma_pop(cbody);
            assert(scope_names(r) == scope_names(pre));
            lemma_prefix_trans(c.errors, pre.errors, r.errors);
            lemma_expr_stmt(c, r);
        },
        Stmt::Function(d) => lemma_check_function_scoping(c, d),
        Stmt::Return { line, value } => {
            let (c1, vt) = check_expr_spec(c, value);
            lemma_check_expr_scoping(c, value);
            lemma_error(c1);
            lemma_expr_refl(c1);
            lemma_expr_trans(c, c1, r);
            lemma_expr_stmt(c, r);
        },
        Stmt::Struct { name, methods, .. } => {
            let c1 = if c.structs.contains(name@) { c } else { CheckView { structs: c.structs.push(name@), ..c } };
            lemma_stmt_refl(c);
            assert(stmt_kept(c, c1));
            let c2 = c_define(c1, name@, Ty::Struct(name@), false);
            lemma_define(c1, name@, Ty::Struct(name@), false);
            lemma_stmt_trans(c, c1, c2);
            lemma_check_methods_scoping(c2, methods@);
            lemma_stmt_trans(c, c2, r);
        },
        Stmt::Trait { name, methods } => {
            let c1 = if c.traits.contains(name@) { c } else { CheckView { traits: c.traits.push(name@), ..c } };
            lemma_stmt_refl(c);
            assert(stmt_kept(c, c1));
            let c2 = c_define(c1, name@, Ty::Trait(name@), false);
            lemma_define(c1, name@, Ty::Trait(name@), false);
            lemma_stmt_trans(c, c1, c2);
            lemma_sigs(c2, methods@);
            lemma_stmt_trans(c, c2, r);
        },
        Stmt::WithMmap { path, var, body, .. } => {
            let c1 = check_expr_spec(c, path).0;
            lemma_check_expr_scoping(c, path);
            let c2 = c_define(c_push_scope(c1), var@, Ty::Mmap, false);
            lemma_push(c1);
            lemma_define(c_push_scope(c1), var@, Ty::Mmap, false);
            lemma_check_stmt_scoping(c2, *body);
            let c3 = check_stmt_spec(c2, *body);
            lemma_stmt_trans(c_push_scope(c1), c2, c3);
            lemma_pop(c3);
            assert(scope_names(r) == scope_names(c1));
            lemma_prefix_trans(c.errors, c1.errors, r.errors);
            lemma_expr_stmt(c, r);
        },
        Stmt::Import { module, alias, .. } => {
            let bind = match alias {
                Some(a) => a@,
                None => module@,
            };
            lemma_define(c, bind, Ty::Any, false);
        },
        Stmt::ImportFrom { names, .. } => lemma_imports(c, names@),
    }
}

proof fn lemma_check_stmts_scoping(c: CheckView, ss: Seq<Stmt>)
    requires
        c.scopes.len() >= 1,
    ensures
        stmt_kept(c, check_stmts_spec(c, ss)),
    decreases ss,
{
    if ss.len() == 0 {
        lemma_stmt_refl(c);
    } else {
        let c1 = check_stmts_spec(c, ss.drop_last());
        lemma_check_stmts_scoping(c, ss.drop_last());
        lemma_check_stmt_scoping(c1, ss.last());
        lemma_stmt_trans(c, c1, check_stmts_spec(c, ss));
    }
}

proof fn lemma_check_function_scoping(c: CheckView, d: FunctionDecl)
    requires
        c.scopes.len() >= 1,
    ensures
        stmt_kept(c, check_function_spec(c, d)),
    decreases d,
{
    let cd = c_define(c, d.name@, fn_ty(c, d), false);
    let c1 = c_push_scope(cd);
    let c2 = bind_params(c1, d.params@, param_tys(c, d.params@));
    let c2x = CheckView { expected_return: Some(opt_ty(c, d.return_type)), ..c2 };
    let c3 = check_stmt_spec(c2x, *d.body);
    let c3x = CheckView { expected_return: c.expected_return, ..c3 };
    lemma_define(c, d.name@, fn_ty(c, d), false);
    lemma_push(cd);
    lemma_bind_params(c1, d.params@, param_tys(c, d.params@));
    lemma_check_stmt_scoping(c2x, *d.body);
    lemma_pop(c3x);
    assert(scope_names(c3x) == scope_names(c3));
    assert(scope_names(check_function_spec(c, d)) == scope_names(cd));
    lemma_prefix_trans(cd.errors, c2.errors, c3.errors);
    lemma_prefix_trans(c.errors, cd.errors, c3.errors);
}

proof fn lemma_check_methods_scoping(c: CheckView, ms: Seq<MethodDecl>)
    requires
        c.scopes.len() >= 1,
    ensures
        stmt_kept(c, check_methods_spec(c, ms)),
    decreases ms,
{
    if ms.len() == 0 {
        lemma_stmt_refl(c);
    } else {
        let c1 = check_methods_spec(c, ms.drop_last());
        lemma_check_methods_scoping(c, ms.drop_last());
        lemma_check_function_scoping(c1, ms.last().function);
        lemma_stmt_trans(c, c1, check_methods_spec(c, ms));
    }
}

// ---------------------------------------------------------------------------
// Lookups

proof fn lemma_lookup_in_names(a: Seq<(Seq<char>, Ty, bool)>, b: Seq<(Seq<char>, Ty, bool)>, name: Seq<char>)
    requires
        names_in(a) == names_in(b),
    ensures
        (lookup_in(a, name) is None) == (lookup_in(b, name) is None),
    decreases a.len(),
{
    assert(a.len() == names_in(a).len());
    if a.len() > 0 {
        assert(names_in(a)[a.len() - 1] == a.last().0);
        assert(names_in(b)[b.len() - 1] == b.last().0);
        assert(names_in(a.drop_last()) =~= names_in(a).drop_last());
        assert(names_in(b.drop_last()) =~= names_in(b).drop_last());
        lemma_lookup_in_names(a.drop_last(), b.drop_last(), name);
    }
}

proof fn lemma_lookup_names(a: Seq<ScopeView>, b: Seq<ScopeView>, name: Seq<char>)
    requires
        names_of(a) == names_of(b),
    ensures
        (lookup_scopes(a, name) is None) == (lookup_scopes(b, name) is None),
    decreases a.len(),
{
    assert(a.len() == names_of(a).len());
    if a.len() > 0 {
        assert(names_of(a)[a.len() - 1] == binding_names(a.last()));
        assert(names_of(b)[b.len() - 1] == binding_names(b.last()));
        lemma_lookup_in_names(a.last().bindings, b.last().bindings, name);
        assert(names_of(a.drop_last()) =~= names_of(a).drop_last());
        assert(names_of(b.drop_last()) =~= names_of(b).drop_last());
        lemma_lookup_names(a.drop_last(), b.drop_last(), name);
    }
}

/// A name that nothing bound before a block, a `for` loop or a `with`
/// statement is bound by nothing after it: the loop variable, and whatever
/// the body declares, are gone once the statement is checked.
pub proof fn lemma_scoped_names_unbound(c: CheckView, s: Stmt, name: Seq<char>)
    requires
        c.scopes.len() >= 1,
        s is Block || s is For || s is WithMmap,
        c_lookup(c, name) is None,
    ensures
        c_lookup(check_stmt_spec(c, s), name) is None,
{
    lemma_check_stmt_scoping(c, s);
    lemma_lookup_names(c.scopes, check_stmt_spec(c, s).scopes, name);
}

} // verus!
