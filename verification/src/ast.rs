//! The syntax tree the parser builds.

use vstd::prelude::*;

verus! {

#[derive(Debug, Clone, Copy, PartialEq, Eq, Structural)]
pub enum BinOp {
    Add,
    Sub,
    Mul,
    Div,
    Rem,
    Pow,
    Eq,
    Ne,
    Lt,
    Le,
    Gt,
    Ge,
    And,
    Or,
}

#[derive(Debug, Clone, Copy, PartialEq, Eq, Structural)]
pub enum UnaryOp {
    Neg,
    Not,
}

#[derive(Debug, PartialEq)]
pub enum CallArg {
    Positional(Expr),
    Named { name: String, value: Expr },
}

#[derive(Debug, PartialEq)]
pub enum FStringPart {
    Literal(String),
    Expr(Expr),
}

#[derive(Debug, PartialEq)]
pub enum Literal {
    NoneValue,
    Bool(bool),
    Number(String),
    String(String),
}

#[derive(Debug, PartialEq)]
pub enum TypeAnn {
    Unannotated,
    Named(String),
    Array { inner: String },
    Dict { key: String, value: String },
}

#[allow(inconsistent_fields)]
#[derive(Debug, PartialEq)]
pub enum Expr {
    Literal(Literal),
    Variable { name: String, line: u32 },
    Group(Box<Expr>),
    Unary { op: UnaryOp, right: Box<Expr> },
    Binary { op: BinOp, left: Box<Expr>, right: Box<Expr> },
    Assign { name: String, value: Box<Expr> },
    GetField { object: String, field: String },
    SetField { object: String, field: String, value: Box<Expr> },
    Call { callee: Box<Expr>, args: Vec<CallArg> },
    CallMethod { object: String, method: String, args: Vec<Expr> },
    List(Vec<Expr>),
    Dict(Vec<(Expr, Expr)>),
    Index { object: Box<Expr>, index: Box<Expr> },
    IndexSet { object: Box<Expr>, index: Box<Expr>, value: Box<Expr> },
    FString { line: u32, parts: Vec<FStringPart> },
    Ternary { condition: Box<Expr>, then_branch: Box<Expr>, else_branch: Box<Expr> },
}

#[derive(Debug, PartialEq)]
pub struct Param {
    pub name: String,
    pub is_ref: bool,
    pub type_ann: Option<String>,
}

#[derive(Debug, PartialEq)]
pub struct FunctionDecl {
    pub name: String,
    pub is_strict: bool,
    pub params: Vec<Param>,
    pub return_type: Option<String>,
    pub body: Box<Stmt>,
}

#[derive(Debug, PartialEq)]
pub struct StructField {
    pub name: String,
    pub field_type: String,
    pub is_pub: bool,
    pub is_mut: bool,
}

#[derive(Debug, PartialEq)]
pub struct MethodDecl {
    pub is_pub: bool,
    pub function: FunctionDecl,
}

#[derive(Debug, Clone, Copy, PartialEq, Eq, Structural)]
pub enum ForKind {
    Sequential,
    Parallel,
    Vectorized,
    ParallelVectorized,
}

#[derive(Debug, PartialEq)]
pub enum ForIter {
    Range { start: Expr, end: Expr },
    Iterable(Expr),
}

/// One name of a `from module import name [as alias], ...` statement.
#[derive(Debug, PartialEq)]
pub struct ImportName {
    pub name: String,
    pub alias: Option<String>,
}

#[allow(inconsistent_fields)]
#[derive(Debug, PartialEq)]
pub enum Stmt {
    Let { line: u32, is_mutable: bool, name: String, type_ann: TypeAnn, initializer: Expr },
    Print { line: u32, values: Vec<Expr> },
    Expr { line: u32, expr: Expr },
    Block(Vec<Stmt>),
    If { condition: Expr, then_branch: Box<Stmt>, else_branch: Option<Box<Stmt>> },
    While { line: u32, condition: Expr, body: Box<Stmt> },
    For { kind: ForKind, line: u32, var: String, iter: ForIter, body: Box<Stmt> },
    Function(FunctionDecl),
    Return { line: u32, value: Expr },
    Struct {
        name: String,
        implemented_trait: Option<String>,
        fields: Vec<StructField>,
        methods: Vec<MethodDecl>,
    },
    Trait { name: String, methods: Vec<FunctionDecl> },
    WithMmap { line: u32, path: Expr, var: String, body: Box<Stmt> },
    Import { line: u32, module: String, alias: Option<String> },
    ImportFrom { line: u32, module: String, names: Vec<ImportName> },
}

// ---------------------------------------------------------------------------
// Trees as plain values

pub enum LiteralV {
    NoneValue,
    Bool(bool),
    Number(Seq<char>),
    Str(Seq<char>),
}

pub enum TypeAnnV {
    Unannotated,
    Named(Seq<char>),
    Array(Seq<char>),
    Dict(Seq<char>, Seq<char>),
}

/// An expression as plain values (same variants and fields as `Expr`).
pub enum ExprV {
    Literal(LiteralV),
    Variable(Seq<char>, u32),
    Group(Box<ExprV>),
    Unary(UnaryOp, Box<ExprV>),
    Binary(BinOp, Box<ExprV>, Box<ExprV>),
    Assign(Seq<char>, Box<ExprV>),
    GetField(Seq<char>, Seq<char>),
    SetField(Seq<char>, Seq<char>, Box<ExprV>),
    Call(Box<ExprV>, Seq<CallArgV>),
    CallMethod(Seq<char>, Seq<char>, Seq<ExprV>),
    List(Seq<ExprV>),
    Dict(Seq<(ExprV, ExprV)>),
    Index(Box<ExprV>, Box<ExprV>),
    IndexSet(Box<ExprV>, Box<ExprV>, Box<ExprV>),
    FString(u32, Seq<FStringPartV>),
    Ternary(Box<ExprV>, Box<ExprV>, Box<ExprV>),
}

pub enum CallArgV {
    Positional(ExprV),
    Named(Seq<char>, ExprV),
}

pub enum FStringPartV {
    Literal(Seq<char>),
    Expr(ExprV),
}

pub struct ParamV {
    pub name: Seq<char>,
    pub is_ref: bool,
    pub type_ann: Option<Seq<char>>,
}

pub struct FunctionDeclV {
    pub name: Seq<char>,
    pub is_strict: bool,
    pub params: Seq<ParamV>,
    pub return_type: Option<Seq<char>>,
    pub body: Box<StmtV>,
}

pub struct StructFieldV {
    pub name: Seq<char>,
    pub field_type: Seq<char>,
    pub is_pub: bool,
    pub is_mut: bool,
}

pub struct MethodDeclV {
    pub is_pub: bool,
    pub function: FunctionDeclV,
}

pub enum ForIterV {
    Range(ExprV, ExprV),
    Iterable(ExprV),
}

pub struct ImportNameV {
    pub name: Seq<char>,
    pub alias: Option<Seq<char>>,
}

/// A statement as plain values (same variants and fields as `Stmt`).
pub enum StmtV {
    Let(u32, bool, Seq<char>, TypeAnnV, ExprV),
    Print(u32, Seq<ExprV>),
    Expr(u32, ExprV),
    Block(Seq<StmtV>),
    If(ExprV, Box<StmtV>, Option<Box<StmtV>>),
    While(u32, ExprV, Box<StmtV>),
    For(ForKind, u32, Seq<char>, ForIterV, Box<StmtV>),
    Function(FunctionDeclV),
    Return(u32, ExprV),
    Struct(Seq<char>, Option<Seq<char>>, Seq<StructFieldV>, Seq<MethodDeclV>),
    Trait(Seq<char>, Seq<FunctionDeclV>),
    WithMmap(u32, ExprV, Seq<char>, Box<StmtV>),
    Import(u32, Seq<char>, Option<Seq<char>>),
    ImportFrom(u32, Seq<char>, Seq<ImportNameV>),
}

pub open spec fn opt_text(o: Option<String>) -> Option<Seq<char>> {
    match o {
        Some(s) => Some(s@),
        None => None,
    }
}

pub open spec fn literal_v(l: Literal) -> LiteralV {
    match l {
        Literal::NoneValue => LiteralV::NoneValue,
        Literal::Bool(b) => LiteralV::Bool(b),
        Literal::Number(n) => LiteralV::Number(n@),
        Literal::String(t) => LiteralV::Str(t@),
    }
}

pub open spec fn type_ann_v(t: TypeAnn) -> TypeAnnV {
    match t {
        TypeAnn::Unannotated => TypeAnnV::Unannotated,
        TypeAnn::Named(n) => TypeAnnV::Named(n@),
        TypeAnn::Array { inner } => TypeAnnV::Array(inner@),
        TypeAnn::Dict { key, value } => TypeAnnV::Dict(key@, value@),
    }
}

pub open spec fn expr_v(e: Expr) -> ExprV
    decreases e,
{
    match e {
        Expr::Literal(l) => ExprV::Literal(literal_v(l)),
        Expr::Variable { name, line } => ExprV::Variable(name@, line),
        Expr::Group(inner) => ExprV::Group(Box::new(expr_v(*inner))),
        Expr::Unary { op, right } => ExprV::Unary(op, Box::new(expr_v(*right))),
        Expr::Binary { op, left, right } => ExprV::Binary(op, Box::new(expr_v(*left)), Box::new(expr_v(*right))),
        Expr::Assign { name, value } => ExprV::Assign(name@, Box::new(expr_v(*value))),
        Expr::GetField { object, field } => ExprV::GetField(object@, field@),
        Expr::SetField { object, field, value } => ExprV::SetField(object@, field@, Box::new(expr_v(*value))),
        Expr::Call { callee, args } => ExprV::Call(Box::new(expr_v(*callee)), args_v(args@)),
        Expr::CallMethod { object, method, args } => ExprV::CallMethod(object@, method@, exprs_v(args@)),
        Expr::List(items) => ExprV::List(exprs_v(items@)),
        Expr::Dict(entries) => ExprV::Dict(pairs_v(entries@)),
        Expr::Index { object, index } => ExprV::Index(Box::new(expr_v(*object)), Box::new(expr_v(*index))),
        Expr::IndexSet { object, index, value } => ExprV::IndexSet(Box::new(expr_v(*object)),
            Box::new(expr_v(*index)), Box::new(expr_v(*value))),
        Expr::FString { line, parts } => ExprV::FString(line, parts_v(parts@)),
        Expr::Ternary { condition, then_branch, else_branch } => ExprV::Ternary(Box::new(expr_v(*condition)),
            Box::new(expr_v(*then_branch)), Box::new(expr_v(*else_branch))),
    }
}

pub open spec fn exprs_v(es: Seq<Expr>) -> Seq<ExprV>
    decreases es,
{
    if es.len() == 0 { Seq::empty() } else { exprs_v(es.drop_last()).push(expr_v(es.last())) }
}

pub open spec fn pairs_v(es: Seq<(Expr, Expr)>) -> Seq<(ExprV, ExprV)>
    decreases es,
{
    if es.len() == 0 {
        Seq::empty()
    } else {
        pairs_v(es.drop_last()).push((expr_v(es.last().0), expr_v(es.last().1)))
    }
}

pub open spec fn arg_v(a: CallArg) -> CallArgV
    decreases a,
{
    match a {
        CallArg::Positional(e) => CallArgV::Positional(expr_v(e)),
        CallArg::Named { name, value } => CallArgV::Named(name@, expr_v(value)),
    }
}

pub open spec fn args_v(es: Seq<CallArg>) -> Seq<CallArgV>
    decreases es,
{
    if es.len() == 0 { Seq::empty() } else { args_v(es.drop_last()).push(arg_v(es.last())) }
}

pub open spec fn part_v(p: FStringPart) -> FStringPartV
    decreases p,
{
    match p {
        FStringPart::Literal(t) => FStringPartV::Literal(t@),
        FStringPart::Expr(e) => FStringPartV::Expr(expr_v(e)),
    }
}

pub open spec fn parts_v(ps: Seq<FStringPart>) -> Seq<FStringPartV>
    decreases ps,
{
    if ps.len() == 0 { Seq::empty() } else { parts_v(ps.drop_last()).push(part_v(ps.last())) }
}

pub open spec fn param_v(p: Param) -> ParamV {
    ParamV { name: p.name@, is_ref: p.is_ref, type_ann: opt_text(p.type_ann) }
}

pub open spec fn params_v(ps: Seq<Param>) -> Seq<ParamV> {
    ps.map_values(|p: Param| param_v(p))
}

pub open spec fn field_v(f: StructField) -> StructFieldV {
    StructFieldV { name: f.name@, field_type: f.field_type@, is_pub: f.is_pub, is_mut: f.is_mut }
}

pub open spec fn fields_v(fs: Seq<StructField>) -> Seq<StructFieldV> {
    fs.map_values(|f: StructField| field_v(f))
}

pub open spec fn import_name_v(n: ImportName) -> ImportNameV {
    ImportNameV { name: n.name@, alias: opt_text(n.alias) }
}

pub open spec fn import_names_v(ns: Seq<ImportName>) -> Seq<ImportNameV> {
    ns.map_values(|n: ImportName| import_name_v(n))
}

pub open spec fn fn_v(d: FunctionDecl) -> FunctionDeclV
    decreases d,
{
    FunctionDeclV {
        name: d.name@,
        is_strict: d.is_strict,
        params: params_v(d.params@),
        return_type: opt_text(d.return_type),
        body: Box::new(stmt_v(*d.body)),
    }
}

pub open spec fn fns_v(ds: Seq<FunctionDecl>) -> Seq<FunctionDeclV>
    decreases ds,
{
    if ds.len() == 0 { Seq::empty() } else { fns_v(ds.drop_last()).push(fn_v(ds.last())) }
}

pub open spec fn methods_v(ms: Seq<MethodDecl>) -> Seq<MethodDeclV>
    decreases ms,
{
    if ms.len() == 0 {
        Seq::empty()
    } else {
        methods_v(ms.drop_last()).push(MethodDeclV { is_pub: ms.last().is_pub, function: fn_v(ms.last().function) })
    }
}

pub open spec fn for_iter_v(f: ForIter) -> ForIterV
    decreases f,
{
    match f {
        ForIter::Range { start, end } => ForIterV::Range(expr_v(start), expr_v(end)),
        ForIter::Iterable(e) => ForIterV::Iterable(expr_v(e)),
    }
}

pub open spec fn stmt_v(s: Stmt) -> StmtV
    decreases s,
{
    match s {
        Stmt::Let { line, is_mutable, name, type_ann, initializer } =>
            StmtV::Let(line, is_mutable, name@, type_ann_v(type_ann), expr_v(initializer)),
        Stmt::Print { line, values } => StmtV::Print(line, exprs_v(values@)),
        Stmt::Expr { line, expr } => StmtV::Expr(line, expr_v(expr)),
        Stmt::Block(stmts) => StmtV::Block(stmts_v(stmts@)),
        Stmt::If { condition, then_branch, else_branch } => StmtV::If(expr_v(condition),
            Box::new(stmt_v(*then_branch)), match else_branch {
                Some(e) => Some(Box::new(stmt_v(*e))),
                None => None,
            }),
        Stmt::While { line, condition, body } => StmtV::While(line, expr_v(condition), Box::new(stmt_v(*body))),
        Stmt::For { kind, line, var, iter, body } =>
            StmtV::For(kind, line, var@, for_iter_v(iter), Box::new(stmt_v(*body))),
        Stmt::Function(d) => StmtV::Function(fn_v(d)),
        Stmt::Return { line, value } => StmtV::Return(line, expr_v(value)),
        Stmt::Struct { name, implemented_trait, fields, methods } =>
            StmtV::Struct(name@, opt_text(implemented_trait), fields_v(fields@), methods_v(methods@)),
        Stmt::Trait { name, methods } => StmtV::Trait(name@, fns_v(methods@)),
        Stmt::WithMmap { line, path, var, body } => StmtV::WithMmap(line, expr_v(path), var@, Box::new(stmt_v(*body))),
        Stmt::Import { line, module, alias } => StmtV::Import(line, module@, opt_text(alias)),
        Stmt::ImportFrom { line, module, names } => StmtV::ImportFrom(line, module@, import_names_v(names@)),
    }
}

pub open spec fn stmts_v(ss: Seq<Stmt>) -> Seq<StmtV>
    decreases ss,
{
    if ss.len() == 0 { Seq::empty() } else { stmts_v(ss.drop_last()).push(stmt_v(ss.last())) }
}


pub proof fn lemma_exprs_v_push(s: Seq<Expr>, e: Expr)
    ensures
        exprs_v(s.push(e)) == exprs_v(s).push(expr_v(e)),
{
    assert(s.push(e).drop_last() =~= s);
}

pub proof fn lemma_pairs_v_push(s: Seq<(Expr, Expr)>, e: (Expr, Expr))
    ensures
        pairs_v(s.push(e)) == pairs_v(s).push((expr_v(e.0), expr_v(e.1))),
{
    assert(s.push(e).drop_last() =~= s);
}

pub proof fn lemma_args_v_push(s: Seq<CallArg>, a: CallArg)
    ensures
        args_v(s.push(a)) == args_v(s).push(arg_v(a)),
{
    assert(s.push(a).drop_last() =~= s);
}

pub proof fn lemma_parts_v_push(s: Seq<FStringPart>, a: FStringPart)
    ensures
        parts_v(s.push(a)) == parts_v(s).push(part_v(a)),
{
    assert(s.push(a).drop_last() =~= s);
}

pub proof fn lemma_stmts_v_push(s: Seq<Stmt>, a: Stmt)
    ensures
        stmts_v(s.push(a)) == stmts_v(s).push(stmt_v(a)),
{
    assert(s.push(a).drop_last() =~= s);
}

pub proof fn lemma_fns_v_push(s: Seq<FunctionDecl>, a: FunctionDecl)
    ensures
        fns_v(s.push(a)) == fns_v(s).push(fn_v(a)),
{
    assert(s.push(a).drop_last() =~= s);
}

pub proof fn lemma_methods_v_push(s: Seq<MethodDecl>, a: MethodDecl)
    ensures
        methods_v(s.push(a)) == methods_v(s).push(MethodDeclV { is_pub: a.is_pub, function: fn_v(a.function) }),
{
    assert(s.push(a).drop_last() =~= s);
}

} // verus!
