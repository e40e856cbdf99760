//! Lowering expressions to the intermediate representation: each
//! expression becomes a run of instructions that leaves its value in a fresh
//! value slot.
//!
//! Value slots and block labels are numbered from counters that only go up;
//! a function's body is numbered afresh from zero.  An `import` binds the
//! names it brings in (module aliases, and call aliases to the module's
//! mangled function names); the imported module's own code is not lowered
//! here.
//! A number literal with `.`, `e` or `E`, or one out of the 64-bit range, is
//! kept as its text (`ConstF64`); other numbers become `ConstI64`.

use vstd::prelude::*;
use crate::ast::{BinOp, UnaryOp, CallArg, FStringPart, Literal, Expr, Stmt, ForIter, Param, ImportName};
use crate::ir::IrOp;
use crate::literals::{parse_i64_spec, parse_i64};
use crate::module::{mangled, mangle_module_fn};
use crate::text::{decimal, u64_decimal, chars_of, append_str, append_chars, string_chars, string_from_chars, copy_string};

verus! {

/// One instruction of the intermediate representation.
#[derive(Debug, PartialEq)]
pub enum IrInstr {
    ConstI64 { dest: u32, value: i64 },
    /// A number that is not a 64-bit integer, by its source text.
    ConstF64 { dest: u32, text: String },
    ConstBool { dest: u32, value: bool },
    ConstStr { dest: u32, value: String },
    ConstNone { dest: u32 },
    Load { dest: u32, name: String },
    Store { name: String, value: u32 },
    Unary { dest: u32, op: IrOp, src: u32 },
    Binary { dest: u32, op: IrOp, left: u32, right: u32 },
    Call { dest: u32, func: String, args: Vec<u32> },
    MakeList { dest: u32, items: Vec<u32> },
    MakeDict { dest: u32, entries: Vec<(u32, u32)> },
    IndexGet { dest: u32, object: u32, index: u32 },
    IndexSet { object: u32, index: u32, value: u32 },
    ValueToStr { dest: u32, src: u32 },
    StrConcat { dest: u32, left: u32, right: u32 },
    Branch { cond: u32, then_block: u32, else_block: u32 },
    Label { block: u32 },
    Jump { target: u32 },
    Print { args: Vec<u32> },
    Return { value: Option<u32> },
    ListLen { dest: u32, list: u32 },
}

/// An instruction with its texts and lists as sequences.
pub enum InstrV {
    ConstI64(u32, i64),
    ConstF64(u32, Seq<char>),
    ConstBool(u32, bool),
    ConstStr(u32, Seq<char>),
    ConstNone(u32),
    Load(u32, Seq<char>),
    Store(Seq<char>, u32),
    Unary(u32, IrOp, u32),
    Binary(u32, IrOp, u32, u32),
    Call(u32, Seq<char>, Seq<u32>),
    MakeList(u32, Seq<u32>),
    MakeDict(u32, Seq<(u32, u32)>),
    IndexGet(u32, u32, u32),
    IndexSet(u32, u32, u32),
    ValueToStr(u32, u32),
    StrConcat(u32, u32, u32),
    Branch(u32, u32, u32),
    Label(u32),
    Jump(u32),
    Print(Seq<u32>),
    Return(Option<u32>),
    ListLen(u32, u32),
}

pub open spec fn instr_v(i: IrInstr) -> InstrV {
    match i {
        IrInstr::ConstI64 { dest, value } => InstrV::ConstI64(dest, value),
        IrInstr::ConstF64 { dest, text } => InstrV::ConstF64(dest, text@),
        IrInstr::ConstBool { dest, value } => InstrV::ConstBool(dest, value),
        IrInstr::ConstStr { dest, value } => InstrV::ConstStr(dest, value@),
        IrInstr::ConstNone { dest } => InstrV::ConstNone(dest),
        IrInstr::Load { dest, name } => InstrV::Load(dest, name@),
        IrInstr::Store { name, value } => InstrV::Store(name@, value),
        IrInstr::Unary { dest, op, src } => InstrV::Unary(dest, op, src),
        IrInstr::Binary { dest, op, left, right } => InstrV::Binary(dest, op, left, right),
        IrInstr::Call { dest, func, args } => InstrV::Call(dest, func@, args@),
        IrInstr::MakeList { dest, items } => InstrV::MakeList(dest, items@),
        IrInstr::MakeDict { dest, entries } => InstrV::MakeDict(dest, entries@),
        IrInstr::IndexGet { dest, object, index } => InstrV::IndexGet(dest, object, index),
        IrInstr::IndexSet { object, index, value } => InstrV::IndexSet(object, index, value),
        IrInstr::ValueToStr { dest, src } => InstrV::ValueToStr(dest, src),
        IrInstr::StrConcat { dest, left, right } => InstrV::StrConcat(dest, left, right),
        IrInstr::Branch { cond, then_block, else_block } => InstrV::Branch(cond, then_block, else_block),
        IrInstr::Label { block } => InstrV::Label(block),
        IrInstr::Jump { target } => InstrV::Jump(target),
        IrInstr::Print { args } => InstrV::Print(args@),
        IrInstr::Return { value } => InstrV::Return(value),
        IrInstr::ListLen { dest, list } => InstrV::ListLen(dest, list),
    }
}

pub open spec fn instrs_v(is: Seq<IrInstr>) -> Seq<InstrV> {
    is.map_values(|i: IrInstr| instr_v(i))
}

/// The lowering state: the next value slot, the next block label, and the
/// instructions emitted so far.
pub struct LowerView {
    pub nv: nat,
    pub nb: nat,
    pub code: Seq<InstrV>,
}

pub open spec fn emit(s: LowerView, i: InstrV) -> LowerView {
    LowerView { code: s.code.push(i), ..s }
}

/// `s` with the next value slot taken.
pub open spec fn take_value(s: LowerView) -> LowerView {
    LowerView { nv: s.nv + 1, ..s }
}

/// What `name` is bound to in `aliases` (the first binding).
pub open spec fn alias_of(aliases: Seq<(Seq<char>, Seq<char>)>, name: Seq<char>) -> Option<Seq<char>>
    decreases aliases.len(),
{
    if aliases.len() == 0 {
        None
    } else if aliases[0].0 == name {
        Some(aliases[0].1)
    } else {
        alias_of(aliases.drop_first(), name)
    }
}

/// The function a call of `name` reaches: its alias, or the name itself.
pub open spec fn call_target(calls: Seq<(Seq<char>, Seq<char>)>, name: Seq<char>) -> Seq<char> {
    match alias_of(calls, name) {
        Some(t) => t,
        None => name,
    }
}

pub open spec fn ir_binary(op: BinOp) -> IrOp {
    match op {
        BinOp::Add => IrOp::Add,
        BinOp::Sub => IrOp::Sub,
        BinOp::Mul => IrOp::Mul,
        BinOp::Div => IrOp::Div,
        BinOp::Rem => IrOp::Rem,
        BinOp::Pow => IrOp::Pow,
        BinOp::Eq => IrOp::Eq,
        BinOp::Ne => IrOp::Ne,
        BinOp::Lt => IrOp::Lt,
        BinOp::Le => IrOp::Le,
        BinOp::Gt => IrOp::Gt,
        BinOp::Ge => IrOp::Ge,
        BinOp::And => IrOp::And,
        BinOp::Or => IrOp::Or,
    }
}

pub open spec fn ir_unary(op: UnaryOp) -> IrOp {
    match op {
        UnaryOp::Neg => IrOp::Neg,
        UnaryOp::Not => IrOp::Not,
    }
}

/// The constant instruction for a literal, into slot `d`.
pub open spec fn const_instr(d: u32, lit: Literal) -> InstrV {
    match lit {
        Literal::NoneValue => InstrV::ConstNone(d),
        Literal::Bool(b) => InstrV::ConstBool(d, b),
        Literal::String(t) => InstrV::ConstStr(d, t@),
        Literal::Number(n) => if n@.contains('.') || n@.contains('e') || n@.contains('E') {
            InstrV::ConstF64(d, n@)
        } else {
            match parse_i64_spec(n@) {
                Some(v) => InstrV::ConstI64(d, v as i64),
                None => InstrV::ConstF64(d, n@),
            }
        },
    }
}

/// An upper bound on the value slots and block labels that lowering `e`
/// takes.
pub open spec fn esize(e: Expr) -> nat
    decreases e,
{
    match e {
        Expr::Literal(_) | Expr::Variable { .. } | Expr::GetField { .. } => 4,
        Expr::Group(x) => esize(*x) + 4,
        Expr::Unary { right, .. } => esize(*right) + 4,
        Expr::Binary { left, right, .. } => esize(*left) + esize(*right) + 4,
        Expr::Assign { value, .. } => esize(*value) + 4,
        Expr::SetField { value, .. } => esize(*value) + 4,
        Expr::Call { callee, args } => esize(*callee) + args_size(args@) + 4,
        Expr::CallMethod { args, .. } => esizes(args@) + 4,
        Expr::List(items) => esizes(items@) + 4,
        Expr::Dict(entries) => entries_size(entries@) + 4,
        Expr::Index { object, index } => esize(*object) + esize(*index) + 4,
        Expr::IndexSet { object, index, value } => esize(*object) + esize(*index) + esize(*value) + 4,
        Expr::FString { parts, .. } => parts_size(parts@) + 4,
        Expr::Ternary { condition, then_branch, else_branch } =>
            esize(*condition) + esize(*then_branch) + esize(*else_branch) + 4,
    }
}

pub open spec fn esizes(es: Seq<Expr>) -> nat
    decreases es,
{
    if es.len() == 0 { 0 } else { esizes(es.drop_last()) + esize(es.last()) }
}

pub open spec fn arg_expr(a: CallArg) -> Expr {
    match a {
        CallArg::Positional(e) => e,
        CallArg::Named { value, .. } => value,
    }
}

pub open spec fn args_size(args: Seq<CallArg>) -> nat
    decreases args,
{
    if args.len() == 0 {
        0
    } else {
        args_size(args.drop_last()) + match args.last() {
            CallArg::Positional(e) => esize(e),
            CallArg::Named { value, .. } => esize(value),
        }
    }
}

pub open spec fn entries_size(es: Seq<(Expr, Expr)>) -> nat
    decreases es,
{
    if es.len() == 0 { 0 } else { entries_size(es.drop_last()) + esize(es.last().0) + esize(es.last().1) }
}

pub open spec fn parts_size(ps: Seq<FStringPart>) -> nat
    decreases ps,
{
    if ps.len() == 0 {
        0
    } else {
        parts_size(ps.drop_last()) + match ps.last() {
            FStringPart::Literal(_) => 4,
            FStringPart::Expr(x) => esize(x) + 4,
        }
    }
}

/// Lowering `e` from state `s`, with module aliases `ma` and call aliases
/// `ca`: the state after, and the slot that holds the value.
pub open spec fn lower_expr_spec(e: Expr, s: LowerView, ma: Seq<(Seq<char>, Seq<char>)>,
    ca: Seq<(Seq<char>, Seq<char>)>) -> (LowerView, nat)
    decreases e,
{
    match e {
        Expr::Literal(lit) => (emit(take_value(s), const_instr(s.nv as u32, lit)), s.nv),
        Expr::Variable { name, .. } => (emit(take_value(s), InstrV::Load(s.nv as u32, name@)), s.nv),
        Expr::Group(inner) => lower_expr_spec(*inner, s, ma, ca),
        Expr::Unary { op, right } => {
            let (s1, src) = lower_expr_spec(*right, s, ma, ca);
            (emit(take_value(s1), InstrV::Unary(s1.nv as u32, ir_unary(op), src as u32)), s1.nv)
        },
        Expr::Binary { op, left, right } => {
            let (s1, a) = lower_expr_spec(*left, s, ma, ca);
            let (s2, b) = lower_expr_spec(*right, s1, ma, ca);
            (emit(take_value(s2), InstrV::Binary(s2.nv as u32, ir_binary(op), a as u32, b as u32)), s2.nv)
        },
        Expr::Assign { name, value } => {
            let (s1, v) = lower_expr_spec(*value, s, ma, ca);
            (emit(s1, InstrV::Store(name@, v as u32)), v)
        },
        Expr::GetField { object, field } => match alias_of(ma, object@) {
            Some(m) => (emit(take_value(s), InstrV::Load(s.nv as u32, mangled(m, field@))), s.nv),
            None => {
                let s1 = emit(take_value(s), InstrV::Load(s.nv as u32, object@));
                (emit(take_value(s1), InstrV::Call(s1.nv as u32, "__get_field__"@ + object@ + "."@ + field@,
                    seq![s.nv as u32])), s1.nv)
            },
        },
        Expr::SetField { object, field, value } => {
            let s1 = emit(take_value(s), InstrV::Load(s.nv as u32, object@));
            let (s2, v) = lower_expr_spec(*value, s1, ma, ca);
            (emit(take_value(s2), InstrV::Call(s2.nv as u32, "__set_field__"@ + object@ + "."@ + field@,
                seq![s.nv as u32, v as u32])), s2.nv)
        },
        Expr::Call { callee, args } => {
            let (s1, f) = match *callee {
                Expr::Variable { name, .. } => (s, call_target(ca, name@)),
                other => (lower_expr_spec(other, s, ma, ca).0, "__indirect__"@),
            };
            let (s2, ids) = lower_args_spec(args@, s1, ma, ca);
            (emit(take_value(s2), InstrV::Call(s2.nv as u32, f, ids)), s2.nv)
        },
        Expr::CallMethod { object, method, args } => match alias_of(ma, object@) {
            Some(m) => {
                let (s1, ids) = lower_exprs_spec(args@, s, ma, ca);
                (emit(take_value(s1), InstrV::Call(s1.nv as u32, mangled(m, method@), ids)), s1.nv)
            },
            None => {
                let s1 = emit(take_value(s), InstrV::Load(s.nv as u32, object@));
                let (s2, ids) = lower_exprs_spec(args@, s1, ma, ca);
                (emit(take_value(s2), InstrV::Call(s2.nv as u32, object@ + "."@ + method@,
                    seq![s.nv as u32] + ids)), s2.nv)
            },
        },
        Expr::List(items) => {
            let (s1, ids) = lower_exprs_spec(items@, s, ma, ca);
            (emit(take_value(s1), InstrV::MakeList(s1.nv as u32, ids)), s1.nv)
        },
        Expr::Dict(entries) => {
            let (s1, ids) = lower_entries_spec(entries@, s, ma, ca);
            (emit(take_value(s1), InstrV::MakeDict(s1.nv as u32, ids)), s1.nv)
        },
        Expr::Index { object, index } => {
            let (s1, a) = lower_expr_spec(*object, s, ma, ca);
            let (s2, b) = lower_expr_spec(*index, s1, ma, ca);
            (emit(take_value(s2), InstrV::IndexGet(s2.nv as u32, a as u32, b as u32)), s2.nv)
        },
        Expr::IndexSet { object, index, value } => {
            let (s1, a) = lower_expr_spec(*object, s, ma, ca);
            let (s2, b) = lower_expr_spec(*index, s1, ma, ca);
            let (s3, c) = lower_expr_spec(*value, s2, ma, ca);
            (emit(s3, InstrV::IndexSet(a as u32, b as u32, c as u32)), c)
        },
        Expr::FString { parts, .. } => {
            let s1 = emit(take_value(s), InstrV::ConstStr(s.nv as u32, Seq::empty()));
            lower_parts_spec(parts@, s1, s.nv, ma, ca)
        },
        Expr::Ternary { condition, then_branch, else_branch } => {
            let (s1, c) = lower_expr_spec(*condition, s, ma, ca);
            let tb = s1.nb;
            let name = "__ternary_"@ + decimal(tb);
            let s2 = emit(emit(LowerView { nb: s1.nb + 3, ..s1 }, InstrV::Branch(c as u32, tb as u32,
                (tb + 1) as u32)), InstrV::Label(tb as u32));
            let (s3, tv) = lower_expr_spec(*then_branch, s2, ma, ca);
            let s4 = emit(emit(emit(s3, InstrV::Store(name, tv as u32)), InstrV::Jump((tb + 2) as u32)),
                InstrV::Label((tb + 1) as u32));
            let (s5, ev) = lower_expr_spec(*else_branch, s4, ma, ca);
            let s6 = emit(emit(emit(s5, InstrV::Store(name, ev as u32)), InstrV::Jump((tb + 2) as u32)),
                InstrV::Label((tb + 2) as u32));
            (emit(take_value(s6), InstrV::Load(s6.nv as u32, name)), s6.nv)
        },
    }
}

/// Lowering expressions in order; the slots of their values.
pub open spec fn lower_exprs_spec(es: Seq<Expr>, s: LowerView, ma: Seq<(Seq<char>, Seq<char>)>,
    ca: Seq<(Seq<char>, Seq<char>)>) -> (LowerView, Seq<u32>)
    decreases es,
{
    if es.len() == 0 {
        (s, Seq::empty())
    } else {
        let (s1, ids) = lower_exprs_spec(es.drop_last(), s, ma, ca);
        let (s2, v) = lower_expr_spec(es.last(), s1, ma, ca);
        (s2, ids.push(v as u32))
    }
}

/// Lowering call arguments in order (a name does not matter here).
pub open spec fn lower_args_spec(args: Seq<CallArg>, s: LowerView, ma: Seq<(Seq<char>, Seq<char>)>,
    ca: Seq<(Seq<char>, Seq<char>)>) -> (LowerView, Seq<u32>)
    decreases args,
{
    if args.len() == 0 {
        (s, Seq::empty())
    } else {
        let (s1, ids) = lower_args_spec(args.drop_last(), s, ma, ca);
        let (s2, v) = match args.last() {
            CallArg::Positional(e) => lower_expr_spec(e, s1, ma, ca),
            CallArg::Named { value, .. } => lower_expr_spec(value, s1, ma, ca),
        };
        (s2, ids.push(v as u32))
    }
}

/// Lowering dictionary entries in order, key before value.
pub open spec fn lower_entries_spec(es: Seq<(Expr, Expr)>, s: LowerView, ma: Seq<(Seq<char>, Seq<char>)>,
    ca: Seq<(Seq<char>, Seq<char>)>) -> (LowerView, Seq<(u32, u32)>)
    decreases es,
{
    if es.len() == 0 {
        (s, Seq::empty())
    } else {
        let (s1, ids) = lower_entries_spec(es.drop_last(), s, ma, ca);
        let (s2, k) = lower_expr_spec(es.last().0, s1, ma, ca);
        let (s3, v) = lower_expr_spec(es.last().1, s2, ma, ca);
        (s3, ids.push((k as u32, v as u32)))
    }
}

/// Lowering f-string parts onto the string in slot `acc`: each part is made
/// a string and joined on; the slot of the whole.
pub open spec fn lower_parts_spec(ps: Seq<FStringPart>, s: LowerView, acc: nat, ma: Seq<(Seq<char>, Seq<char>)>,
    ca: Seq<(Seq<char>, Seq<char>)>) -> (LowerView, nat)
    decreases ps,
{
    if ps.len() == 0 {
        (s, acc)
    } else {
        let (s1, a1) = lower_parts_spec(ps.drop_last(), s, acc, ma, ca);
        let s2 = match ps.last() {
            FStringPart::Literal(t) => emit(take_value(s1), InstrV::ConstStr(s1.nv as u32, t@)),
            FStringPart::Expr(x) => {
                let (sx, src) = lower_expr_spec(x, s1, ma, ca);
                emit(take_value(sx), InstrV::ValueToStr(sx.nv as u32, src as u32))
            },
        };
        let piece = (s2.nv - 1) as nat;
        (emit(take_value(s2), InstrV::StrConcat(s2.nv as u32, a1 as u32, piece as u32)), s2.nv)
    }
}


/// A lowered function: its name, parameter names and body.
#[derive(Debug)]
pub struct IrFunction {
    pub name: String,
    pub params: Vec<String>,
    pub body: Vec<IrInstr>,
}

pub struct IrFunctionV {
    pub name: Seq<char>,
    pub params: Seq<Seq<char>>,
    pub body: Seq<InstrV>,
}

pub open spec fn function_v(f: IrFunction) -> IrFunctionV {
    IrFunctionV { name: f.name@, params: f.params@.map_values(|p: String| p@), body: instrs_v(f.body@) }
}

pub open spec fn functions_v(fs: Seq<IrFunction>) -> Seq<IrFunctionV> {
    fs.map_values(|f: IrFunction| function_v(f))
}

/// The whole lowering state: counters and code, the functions lowered so
/// far, and the aliases in force.
pub struct StmtView {
    pub low: LowerView,
    pub functions: Seq<IrFunctionV>,
    pub ma: Seq<(Seq<char>, Seq<char>)>,
    pub ca: Seq<(Seq<char>, Seq<char>)>,
}

/// `aliases` with `name` bound to `target`: the binding replaced where
/// `name` is bound, added at the end where it is not.
pub open spec fn rebind(aliases: Seq<(Seq<char>, Seq<char>)>, name: Seq<char>, target: Seq<char>)
    -> Seq<(Seq<char>, Seq<char>)>
    decreases aliases.len(),
{
    if aliases.len() == 0 {
        seq![(name, target)]
    } else if aliases[0].0 == name {
        aliases.update(0, (name, target))
    } else {
        seq![aliases[0]] + rebind(aliases.drop_first(), name, target)
    }
}

pub open spec fn sx(st: StmtView, e: Expr) -> (StmtView, nat) {
    let (l, v) = lower_expr_spec(e, st.low, st.ma, st.ca);
    (StmtView { low: l, ..st }, v)
}

pub open spec fn sem(st: StmtView, i: InstrV) -> StmtView {
    StmtView { low: emit(st.low, i), ..st }
}

pub open spec fn stake(st: StmtView) -> StmtView {
    StmtView { low: take_value(st.low), ..st }
}

/// `st` with three block labels taken.
pub open spec fn sblocks(st: StmtView) -> StmtView {
    StmtView { low: LowerView { nb: st.low.nb + 3, ..st.low }, ..st }
}

/// An upper bound on the slots and labels that lowering `s` takes.
pub open spec fn ssize(s: Stmt) -> nat
    decreases s,
{
    match s {
        Stmt::Let { initializer, .. } => esize(initializer) + 8,
        Stmt::Print { values, .. } => esizes(values@) + 8,
        Stmt::Expr { expr, .. } => esize(expr) + 8,
        Stmt::Block(stmts) => ssizes(stmts@) + 8,
        Stmt::If { condition, then_branch, else_branch } => esize(condition) + ssize(*then_branch)
            + match else_branch { Some(e) => ssize(*e), None => 0 } + 8,
        Stmt::While { condition, body, .. } => esize(condition) + ssize(*body) + 8,
        Stmt::For { iter, body, .. } => match iter {
            ForIter::Range { start, end } => esize(start) + esize(end) + ssize(*body) + 16,
            ForIter::Iterable(x) => esize(x) + ssize(*body) + 16,
        },
        Stmt::Function(d) => ssize(*d.body) + 8,
        Stmt::Return { value, .. } => esize(value) + 8,
        Stmt::WithMmap { path, body, .. } => esize(path) + ssize(*body) + 8,
        _ => 8,
    }
}

pub open spec fn ssizes(ss: Seq<Stmt>) -> nat
    decreases ss,
{
    if ss.len() == 0 { 0 } else { ssizes(ss.drop_last()) + ssize(ss.last()) }
}

/// The head of a counting loop: three labels taken (header, body, exit),
/// a jump to the header, and the test of the counter `name` against the
/// value in slot `end`, entering the body.
pub open spec fn loop_head_spec(name: Seq<char>, end: u32, st: StmtView) -> StmtView {
    let h = st.low.nb;
    let s1 = sem(sem(sblocks(st), InstrV::Jump(h as u32)), InstrV::Label(h as u32));
    let i = s1.low.nv;
    let s2 = sem(stake(s1), InstrV::Load(i as u32, name));
    let below = s2.low.nv;
    sem(sem(sem(stake(s2), InstrV::Binary(below as u32, IrOp::Lt, i as u32, end)),
        InstrV::Branch(below as u32, (h + 1) as u32, (h + 2) as u32)), InstrV::Label((h + 1) as u32))
}

/// The tail of a counting loop whose header is label `h`: the counter
/// `name` goes up by one, back to the header, then the exit label.
pub open spec fn loop_tail_spec(name: Seq<char>, h: nat, st: StmtView) -> StmtView {
    let i2 = st.low.nv;
    let s5 = sem(stake(st), InstrV::Load(i2 as u32, name));
    let one = s5.low.nv;
    let s6 = sem(stake(s5), InstrV::ConstI64(one as u32, 1));
    let next = s6.low.nv;
    let s7 = sem(stake(s6), InstrV::Binary(next as u32, IrOp::Add, i2 as u32, one as u32));
    sem(sem(sem(s7, InstrV::Store(name, next as u32)), InstrV::Jump(h as u32)), InstrV::Label((h + 2) as u32))
}

/// The loop that counts `var` up from its stored start while below the
/// value in slot `end`, around `body`.
pub open spec fn range_loop_spec(var: Seq<char>, end: u32, body: Stmt, st: StmtView) -> StmtView
    decreases body, 2int,
{
    loop_tail_spec(var, st.low.nb, lower_stmt_spec(body, loop_head_spec(var, end, st)))
}

/// The loop over the list in slot `list` (of length in slot `len`), the
/// index kept in `idx`, binding `var` to each element around `body`.
pub open spec fn list_loop_spec(var: Seq<char>, idx: Seq<char>, list: u32, len: u32, body: Stmt, st: StmtView)
    -> StmtView
    decreases body, 2int,
{
    let s3 = loop_head_spec(idx, len, st);
    let elem = s3.low.nv;
    let s3b = sem(sem(stake(s3), InstrV::IndexGet(elem as u32, list, st.low.nv as u32)), InstrV::Store(var, elem as u32));
    loop_tail_spec(idx, st.low.nb, lower_stmt_spec(body, s3b))
}

/// Lowering statement `s` from state `st`.  An import binds its names; the
/// imported module's own code is not lowered here.
pub open spec fn lower_stmt_spec(s: Stmt, st: StmtView) -> StmtView
    decreases s, 1int,
{
    match s {
        Stmt::Let { name, initializer, .. } => {
            let (s1, v) = sx(st, initializer);
            sem(s1, InstrV::Store(name@, v as u32))
        },
        Stmt::Print { values, .. } => {
            let (l, ids) = lower_exprs_spec(values@, st.low, st.ma, st.ca);
            sem(StmtView { low: l, ..st }, InstrV::Print(ids))
        },
        Stmt::Expr { expr, .. } => sx(st, expr).0,
        Stmt::Block(stmts) => lower_stmts_spec(stmts@, st),
        Stmt::If { condition, then_branch, else_branch } => {
            let (s1, c) = sx(st, condition);
            let tb = s1.low.nb;
            let s2 = sem(sem(sblocks(s1), InstrV::Branch(c as u32, tb as u32, (tb + 1) as u32)), InstrV::Label(tb as u32));
            let s3 = lower_stmt_spec(*then_branch, s2);
            let s4 = sem(sem(s3, InstrV::Jump((tb + 2) as u32)), InstrV::Label((tb + 1) as u32));
            let s5 = match else_branch {
                Some(e) => lower_stmt_spec(*e, s4),
                None => s4,
            };
            sem(sem(s5, InstrV::Jump((tb + 2) as u32)), InstrV::Label((tb + 2) as u32))
        },
        Stmt::While { condition, body, .. } => {
            let h = st.low.nb;
            let s1 = sem(sem(sblocks(st), InstrV::Jump(h as u32)), InstrV::Label(h as u32));
            let (s2, c) = sx(s1, condition);
            let s3 = sem(sem(s2, InstrV::Branch(c as u32, (h + 1) as u32, (h + 2) as u32)), InstrV::Label((h + 1) as u32));
            let s4 = lower_stmt_spec(*body, s3);
            sem(sem(s4, InstrV::Jump(h as u32)), InstrV::Label((h + 2) as u32))
        },
        Stmt::For { var, iter, body, .. } => match iter {
            ForIter::Range { start, end } => {
                let (s1, a) = sx(st, start);
                let (s2, b) = sx(s1, end);
                range_loop_spec(var@, b as u32, *body, sem(s2, InstrV::Store(var@, a as u32)))
            },
            ForIter::Iterable(x) => {
                let (s1, list) = sx(st, x);
                let len = s1.low.nv;
                let s2 = sem(stake(s1), InstrV::ListLen(len as u32, list as u32));
                let idx = "__for_i_"@ + var@;
                let zero = s2.low.nv;
                let s3 = sem(sem(stake(s2), InstrV::ConstI64(zero as u32, 0)), InstrV::Store(idx, zero as u32));
                list_loop_spec(var@, idx, list as u32, len as u32, *body, s3)
            },
        },
        Stmt::Function(d) => {
            let inner = lower_stmt_spec(*d.body, StmtView { low: LowerView { nv: 0, nb: 0, code: Seq::empty() }, ..st });
            StmtView {
                low: st.low,
                functions: inner.functions.push(IrFunctionV {
                    name: d.name@,
                    params: d.params@.map_values(|p: Param| p.name@),
                    body: inner.low.code,
                }),
                ..inner
            }
        },
        Stmt::Return { value, .. } => match value {
            Expr::Literal(Literal::NoneValue) => sem(st, InstrV::Return(None)),
            _ => {
                let (s1, v) = sx(st, value);
                sem(s1, InstrV::Return(Some(v as u32)))
            },
        },
        Stmt::Struct { name, .. } => {
            let d = st.low.nv;
            sem(sem(stake(st), InstrV::ConstStr(d as u32, "struct:"@ + name@)), InstrV::Store(name@, d as u32))
        },
        Stmt::Trait { name, .. } => {
            let d = st.low.nv;
            sem(sem(stake(st), InstrV::ConstStr(d as u32, "trait:"@ + name@)), InstrV::Store(name@, d as u32))
        },
        Stmt::WithMmap { path, var, body, .. } => {
            let (s1, p) = sx(st, path);
            let m = s1.low.nv;
            let s2 = sem(sem(stake(s1), InstrV::Call(m as u32, "__mmap_open__"@, seq![p as u32])), InstrV::Store(var@, m as u32));
            lower_stmt_spec(*body, s2)
        },
        Stmt::Import { module, alias, .. } => StmtView {
            ma: rebind(st.ma, match alias { Some(a) => a@, None => module@ }, module@),
            ..st
        },
        Stmt::ImportFrom { module, names, .. } => StmtView { ca: bind_names(st.ca, module@, names@), ..st },
    }
}

/// The call aliases after `from module import names`: each name (or its
/// alias) calls the module's function.
pub open spec fn bind_names(ca: Seq<(Seq<char>, Seq<char>)>, module: Seq<char>, names: Seq<ImportName>)
    -> Seq<(Seq<char>, Seq<char>)>
    decreases names.len(),
{
    if names.len() == 0 {
        ca
    } else {
        let n = names.last();
        rebind(bind_names(ca, module, names.drop_last()), match n.alias { Some(a) => a@, None => n.name@ },
            mangled(module, n.name@))
    }
}

pub open spec fn lower_stmts_spec(ss: Seq<Stmt>, st: StmtView) -> StmtView
    decreases ss, 1int,
{
    if ss.len() == 0 { st } else { lower_stmt_spec(ss.last(), lower_stmts_spec(ss.drop_last(), st)) }
}

pub open spec fn pairs_text(v: Seq<(String, String)>) -> Seq<(Seq<char>, Seq<char>)> {
    v.map_values(|p: (String, String)| (p.0@, p.1@))
}

pub proof fn lemma_esizes_prefix(es: Seq<Expr>, i: int)
    requires
        0 <= i <= es.len(),
    ensures
        esizes(es.take(i)) <= esizes(es),
        i < es.len() ==> esizes(es.take(i + 1)) == esizes(es.take(i)) + esize(es[i]),
    decreases es.len(),
{
    if i < es.len() {
        assert(es.take(i + 1).drop_last() =~= es.take(i));
        lemma_esizes_prefix(es.drop_last(), i);
        assert(es.drop_last().take(i) =~= es.take(i));
    } else {
        assert(es.take(i) =~= es);
    }
}

pub proof fn lemma_args_prefix(es: Seq<CallArg>, i: int)
    requires
        0 <= i <= es.len(),
    ensures
        args_size(es.take(i)) <= args_size(es),
        i < es.len() ==> args_size(es.take(i + 1)) == args_size(es.take(i)) + esize(arg_expr(es[i])),
    decreases es.len(),
{
    if i < es.len() {
        assert(es.take(i + 1).drop_last() =~= es.take(i));
        lemma_args_prefix(es.drop_last(), i);
        assert(es.drop_last().take(i) =~= es.take(i));
    } else {
        assert(es.take(i) =~= es);
    }
}

pub proof fn lemma_entries_prefix(es: Seq<(Expr, Expr)>, i: int)
    requires
        0 <= i <= es.len(),
    ensures
        entries_size(es.take(i)) <= entries_size(es),
        i < es.len() ==> entries_size(es.take(i + 1)) == entries_size(es.take(i)) + esize(es[i].0) + esize(es[i].1),
    decreases es.len(),
{
    if i < es.len() {
        assert(es.take(i + 1).drop_last() =~= es.take(i));
        lemma_entries_prefix(es.drop_last(), i);
        assert(es.drop_last().take(i) =~= es.take(i));
    } else {
        assert(es.take(i) =~= es);
    }
}

pub proof fn lemma_parts_prefix(es: Seq<FStringPart>, i: int)
    requires
        0 <= i <= es.len(),
    ensures
        parts_size(es.take(i)) <= parts_size(es),
        i < es.len() ==> parts_size(es.take(i + 1)) == parts_size(es.take(i)) + match es[i] {
            FStringPart::Literal(_) => 4nat,
            FStringPart::Expr(x) => esize(x) + 4,
        },
    decreases es.len(),
{
    if i < es.len() {
        assert(es.take(i + 1).drop_last() =~= es.take(i));
        lemma_parts_prefix(es.drop_last(), i);
        assert(es.drop_last().take(i) =~= es.take(i));
    } else {
        assert(es.take(i) =~= es);
    }
}

/// The state of lowering: counters, the instructions emitted, and the names
/// that module aliases and imported functions stand for.
pub struct Lowerer {
    next_value: u32,
    next_block: u32,
    current: Vec<IrInstr>,
    module_aliases: Vec<(String, String)>,
    call_aliases: Vec<(String, String)>,
    functions: Vec<IrFunction>,
}

impl Lowerer {
    pub closed spec fn state(&self) -> LowerView {
        LowerView { nv: self.next_value as nat, nb: self.next_block as nat, code: instrs_v(self.current@) }
    }

    /// The functions lowered so far.
    pub closed spec fn funcs(&self) -> Seq<IrFunctionV> {
        functions_v(self.functions@)
    }

    /// Module aliases: `import m as a` binds `a` to `m`.
    pub closed spec fn modules(&self) -> Seq<(Seq<char>, Seq<char>)> {
        pairs_text(self.module_aliases@)
    }

    /// Call aliases: a local name and the function it calls.
    pub closed spec fn calls(&self) -> Seq<(Seq<char>, Seq<char>)> {
        pairs_text(self.call_aliases@)
    }

    /// A lowerer with nothing emitted and no aliases.
    pub fn new() -> (l: Lowerer)
        ensures
            l.state() == (LowerView { nv: 0, nb: 0, code: Seq::empty() }),
            l.funcs() == Seq::<IrFunctionV>::empty(),
            l.modules() == Seq::<(Seq<char>, Seq<char>)>::empty(),
            l.calls() == Seq::<(Seq<char>, Seq<char>)>::empty(),
    {
        let l = Lowerer {
            next_value: 0,
            next_block: 0,
            current: Vec::new(),
            module_aliases: Vec::new(),
            call_aliases: Vec::new(),
            functions: Vec::new(),
        };
        assert(instrs_v(l.current@) =~= Seq::<InstrV>::empty());
        assert(l.modules() =~= Seq::<(Seq<char>, Seq<char>)>::empty());
        assert(l.calls() =~= Seq::<(Seq<char>, Seq<char>)>::empty());
        assert(l.funcs() =~= Seq::<IrFunctionV>::empty());
        l
    }

    /// Hands over the instructions emitted so far.
    pub fn take_code(&mut self) -> (r: Vec<IrInstr>)
        ensures
            instrs_v(r@) == old(self).state().code,
            final(self).state() == (LowerView { code: Seq::empty(), ..old(self).state() }),
            final(self).modules() == old(self).modules(),
            final(self).calls() == old(self).calls(),
            final(self).funcs() == old(self).funcs(),
    {
        let mut out: Vec<IrInstr> = Vec::new();
        std::mem::swap(&mut out, &mut self.current);
        assert(instrs_v(self.current@) =~= Seq::<InstrV>::empty());
        out
    }

    fn fresh_value(&mut self) -> (r: u32)
        requires
            old(self).next_value < u32::MAX,
        ensures
            r == old(self).next_value,
            final(self).state() == take_value(old(self).state()),
            final(self).modules() == old(self).modules(),
            final(self).calls() == old(self).calls(),
            final(self).funcs() == old(self).funcs(),
    {
        let r = self.next_value;
        self.next_value = self.next_value + 1;
        r
    }

    fn emit_instr(&mut self, i: IrInstr)
        ensures
            final(self).state() == emit(old(self).state(), instr_v(i)),
            final(self).modules() == old(self).modules(),
            final(self).calls() == old(self).calls(),
            final(self).funcs() == old(self).funcs(),
    {
        let ghost before = instrs_v(self.current@);
        self.current.push(i);
        assert(instrs_v(self.current@) =~= before.push(instr_v(i)));
    }

    /// Lowers `e`; the slot that holds its value.
    #[verifier::rlimit(100)]
    #[verifier::spinoff_prover]
    pub fn lower_expr(&mut self, e: &Expr) -> (r: u32)
        requires
            old(self).state().nv + esize(*e) <= u32::MAX,
            old(self).state().nb + esize(*e) <= u32::MAX,
        ensures
            (final(self).state(), r as nat) == lower_expr_spec(*e, old(self).state(), old(self).modules(),
                old(self).calls()),
            final(self).modules() == old(self).modules(),
            final(self).calls() == old(self).calls(),
            final(self).funcs() == old(self).funcs(),
            final(self).state().nv <= old(self).state().nv + esize(*e),
            final(self).state().nb <= old(self).state().nb + esize(*e),
        decreases *e, 1int,
    {
        match e {
            Expr::Literal(lit) => {
                let dest = self.fresh_value();
                let instr = const_instruction(dest, lit);
                self.emit_instr(instr);
                dest
            },
            Expr::Variable { name, .. } => {
                let dest = self.fresh_value();
                self.emit_instr(IrInstr::Load { dest, name: copy_string(name) });
                dest
            },
            Expr::Group(inner) => self.lower_expr(inner),
            Expr::Unary { op, right } => {
                let src = self.lower_expr(right);
                let dest = self.fresh_value();
                self.emit_instr(IrInstr::Unary { dest, op: unary_op(*op), src });
                dest
            },
            Expr::Binary { op, left, right } => {
                let l = self.lower_expr(left);
                let r = self.lower_expr(right);
                let dest = self.fresh_value();
                self.emit_instr(IrInstr::Binary { dest, op: binary_op(*op), left: l, right: r });
                dest
            },
            Expr::Assign { name, value } => {
                let v = self.lower_expr(value);
                self.emit_instr(IrInstr::Store { name: copy_string(name), value: v });
                v
            },
            Expr::GetField { object, field } => {
                match alias_lookup(&self.module_aliases, object) {
                    Some(m) => {
                        let dest = self.fresh_value();
                        self.emit_instr(IrInstr::Load { dest, name: mangle_module_fn(m.as_str(), field.as_str()) });
                        dest
                    },
                    None => {
                        let obj = self.fresh_value();
                        self.emit_instr(IrInstr::Load { dest: obj, name: copy_string(object) });
                        let dest = self.fresh_value();
                        let mut args: Vec<u32> = Vec::new();
                        args.push(obj);
                        assert(args@ =~= seq![obj]);
                        self.emit_instr(IrInstr::Call { dest, func: accessor_name("__get_field__", object, field), args });
                        dest
                    },
                }
            },
            Expr::SetField { object, field, value } => {
                let obj = self.fresh_value();
                self.emit_instr(IrInstr::Load { dest: obj, name: copy_string(object) });
                let v = self.lower_expr(value);
                let dest = self.fresh_value();
                let mut args: Vec<u32> = Vec::new();
                args.push(obj);
                args.push(v);
                assert(args@ =~= seq![obj, v]);
                self.emit_instr(IrInstr::Call { dest, func: accessor_name("__set_field__", object, field), args });
                dest
            },
            Expr::Call { callee, args } => {
                let func = match &**callee {
                    Expr::Variable { name, .. } => match alias_lookup(&self.call_aliases, name) {
                        Some(t) => t,
                        None => copy_string(name),
                    },
                    other => {
                        let _ = self.lower_expr(other);
                        crate::text::to_string("__indirect__")
                    },
                };
                let ids = self.lower_args(args);
                let dest = self.fresh_value();
                self.emit_instr(IrInstr::Call { dest, func, args: ids });
                dest
            },
            Expr::CallMethod { object, method, args } => {
                match alias_lookup(&self.module_aliases, object) {
                    Some(m) => {
                        let ids = self.lower_exprs(args);
                        let dest = self.fresh_value();
                        self.emit_instr(IrInstr::Call { dest, func: mangle_module_fn(m.as_str(), method.as_str()), args: ids });
                        dest
                    },
                    None => {
                        let obj = self.fresh_value();
                        self.emit_instr(IrInstr::Load { dest: obj, name: copy_string(object) });
                        let mut ids = self.lower_exprs(args);
                        let mut all: Vec<u32> = Vec::new();
                        all.push(obj);
                        all.append(&mut ids);
                        let dest = self.fresh_value();
                        let mut f = string_chars(object);
                        append_str(&mut f, ".");
                        let mc = string_chars(method);
                        append_chars(&mut f, &mc);
                        self.emit_instr(IrInstr::Call { dest, func: string_from_chars(f), args: all });
                        dest
                    },
                }
            },
            Expr::List(items) => {
                let ids = self.lower_exprs(items);
                let dest = self.fresh_value();
                self.emit_instr(IrInstr::MakeList { dest, items: ids });
                dest
            },
            Expr::Dict(entries) => {
                let ids = self.lower_entries(entries);
                let dest = self.fresh_value();
                self.emit_instr(IrInstr::MakeDict { dest, entries: ids });
                dest
            },
            Expr::Index { object, index } => {
                let a = self.lower_expr(object);
                let b = self.lower_expr(index);
                let dest = self.fresh_value();
                self.emit_instr(IrInstr::IndexGet { dest, object: a, index: b });
                dest
            },
            Expr::IndexSet { object, index, value } => {
                let a = self.lower_expr(object);
                let b = self.lower_expr(index);
                let c = self.lower_expr(value);
                self.emit_instr(IrInstr::IndexSet { object: a, index: b, value: c });
                c
            },
            Expr::FString { parts, .. } => {
                let empty = self.fresh_value();
                self.emit_instr(IrInstr::ConstStr { dest: empty, value: string_from_chars(Vec::new()) });
                self.lower_parts(parts, empty)
            },
            Expr::Ternary { .. } => self.lower_ternary(e),
        }
    }
}

impl Lowerer {
    fn fresh_block(&mut self) -> (r: u32)
        requires
            old(self).next_block < u32::MAX,
        ensures
            r == old(self).next_block,
            final(self).state() == (LowerView { nb: old(self).state().nb + 1, ..old(self).state() }),
            final(self).modules() == old(self).modules(),
            final(self).calls() == old(self).calls(),
            final(self).funcs() == old(self).funcs(),
    {
        let r = self.next_block;
        self.next_block = self.next_block + 1;
        r
    }

    fn lower_ternary(&mut self, e: &Expr) -> (r: u32)
        requires
            e is Ternary,
            old(self).state().nv + esize(*e) <= u32::MAX,
            old(self).state().nb + esize(*e) <= u32::MAX,
        ensures
            (final(self).state(), r as nat) == lower_expr_spec(*e, old(self).state(), old(self).modules(),
                old(self).calls()),
            final(self).modules() == old(self).modules(),
            final(self).calls() == old(self).calls(),
            final(self).funcs() == old(self).funcs(),
            final(self).state().nv <= old(self).state().nv + esize(*e),
            final(self).state().nb <= old(self).state().nb + esize(*e),
        decreases *e, 0int,
    {
        match e {
            Expr::Ternary { condition, then_branch, else_branch } => {
                let cond = self.lower_expr(condition);
                let then_b = self.fresh_block();
                let else_b = self.fresh_block();
                let merge_b = self.fresh_block();
                let mut name_chars = chars_of("__ternary_");
                let digits = u64_decimal(then_b as u64);
                append_chars(&mut name_chars, &digits);
                let name = string_from_chars(name_chars);
                self.emit_instr(IrInstr::Branch { cond, then_block: then_b, else_block: else_b });
                self.emit_instr(IrInstr::Label { block: then_b });
                let tv = self.lower_expr(then_branch);
                self.emit_instr(IrInstr::Store { name: copy_string(&name), value: tv });
                self.emit_instr(IrInstr::Jump { target: merge_b });
                self.emit_instr(IrInstr::Label { block: else_b });
                let ev = self.lower_expr(else_branch);
                self.emit_instr(IrInstr::Store { name: copy_string(&name), value: ev });
                self.emit_instr(IrInstr::Jump { target: merge_b });
                self.emit_instr(IrInstr::Label { block: merge_b });
                let dest = self.fresh_value();
                self.emit_instr(IrInstr::Load { dest, name });
                dest
            },
            _ => 0,
        }
    }

    fn lower_exprs(&mut self, es: &Vec<Expr>) -> (r: Vec<u32>)
        requires
            old(self).state().nv + esizes(es@) <= u32::MAX,
            old(self).state().nb + esizes(es@) <= u32::MAX,
        ensures
            (final(self).state(), r@) == lower_exprs_spec(es@, old(self).state(), old(self).modules(), old(self).calls()),
            final(self).modules() == old(self).modules(),
            final(self).calls() == old(self).calls(),
            final(self).funcs() == old(self).funcs(),
            final(self).state().nv <= old(self).state().nv + esizes(es@),
            final(self).state().nb <= old(self).state().nb + esizes(es@),
        decreases es@, 0int,
    {
        let ghost s0 = self.state();
        let ghost ma = self.modules();
        let ghost ca = self.calls();
        let mut ids: Vec<u32> = Vec::new();
        let mut i: usize = 0;
        assert(es@.take(0) =~= Seq::<Expr>::empty());
        while i < es.len()
            invariant
                0 <= i <= es@.len(),
                (self.state(), ids@) == lower_exprs_spec(es@.take(i as int), s0, ma, ca),
                self.modules() == ma,
                self.calls() == ca,
                self.funcs() == old(self).funcs(),
                self.state().nv <= s0.nv + esizes(es@.take(i as int)),
                self.state().nb <= s0.nb + esizes(es@.take(i as int)),
                s0.nv + esizes(es@) <= u32::MAX,
                s0.nb + esizes(es@) <= u32::MAX,
            decreases es@.len() - i,
        {
            proof {
                lemma_esizes_prefix(es@, i as int);
                lemma_esizes_prefix(es@, i + 1);
                assert(es@.take(i + 1).drop_last() =~= es@.take(i as int));
            }
            let v = self.lower_expr(&es[i]);
            ids.push(v);
            i = i + 1;
        }
        proof {
            assert(es@.take(i as int) =~= es@);
        }
        ids
    }

    fn lower_args(&mut self, args: &Vec<CallArg>) -> (r: Vec<u32>)
        requires
            old(self).state().nv + args_size(args@) <= u32::MAX,
            old(self).state().nb + args_size(args@) <= u32::MAX,
        ensures
            (final(self).state(), r@) == lower_args_spec(args@, old(self).state(), old(self).modules(), old(self).calls()),
            final(self).modules() == old(self).modules(),
            final(self).calls() == old(self).calls(),
            final(self).funcs() == old(self).funcs(),
            final(self).state().nv <= old(self).state().nv + args_size(args@),
            final(self).state().nb <= old(self).state().nb + args_size(args@),
        decreases args@, 0int,
    {
        let ghost s0 = self.state();
        let ghost ma = self.modules();
        let ghost ca = self.calls();
        let mut ids: Vec<u32> = Vec::new();
        let mut i: usize = 0;
        assert(args@.take(0) =~= Seq::<CallArg>::empty());
        while i < args.len()
            invariant
                0 <= i <= args@.len(),
                (self.state(), ids@) == lower_args_spec(args@.take(i as int), s0, ma, ca),
                self.modules() == ma,
                self.calls() == ca,
                self.funcs() == old(self).funcs(),
                self.state().nv <= s0.nv + args_size(args@.take(i as int)),
                self.state().nb <= s0.nb + args_size(args@.take(i as int)),
                s0.nv + args_size(args@) <= u32::MAX,
                s0.nb + args_size(args@) <= u32::MAX,
            decreases args@.len() - i,
        {
            proof {
                lemma_args_prefix(args@, i as int);
                lemma_args_prefix(args@, i + 1);
                assert(args@.take(i + 1).drop_last() =~= args@.take(i as int));
            }
            let v = match &args[i] {
                CallArg::Positional(e) => self.lower_expr(e),
                CallArg::Named { value, .. } => self.lower_expr(value),
            };
            ids.push(v);
            i = i + 1;
        }
        proof {
            assert(args@.take(i as int) =~= args@);
        }
        ids
    }

    fn lower_entries(&mut self, es: &Vec<(Expr, Expr)>) -> (r: Vec<(u32, u32)>)
        requires
            old(self).state().nv + entries_size(es@) <= u32::MAX,
            old(self).state().nb + entries_size(es@) <= u32::MAX,
        ensures
            (final(self).state(), r@) == lower_entries_spec(es@, old(self).state(), old(self).modules(), old(self).calls()),
            final(self).modules() == old(self).modules(),
            final(self).calls() == old(self).calls(),
            final(self).funcs() == old(self).funcs(),
            final(self).state().nv <= old(self).state().nv + entries_size(es@),
            final(self).state().nb <= old(self).state().nb + entries_size(es@),
        decreases es@, 0int,
    {
        let ghost s0 = self.state();
        let ghost ma = self.modules();
        let ghost ca = self.calls();
        let mut ids: Vec<(u32, u32)> = Vec::new();
        let mut i: usize = 0;
        assert(es@.take(0) =~= Seq::<(Expr, Expr)>::empty());
        while i < es.len()
            invariant
                0 <= i <= es@.len(),
                (self.state(), ids@) == lower_entries_spec(es@.take(i as int), s0, ma, ca),
                self.modules() == ma,
                self.calls() == ca,
                self.funcs() == old(self).funcs(),
                self.state().nv <= s0.nv + entries_size(es@.take(i as int)),
                self.state().nb <= s0.nb + entries_size(es@.take(i as int)),
                s0.nv + entries_size(es@) <= u32::MAX,
                s0.nb + entries_size(es@) <= u32::MAX,
            decreases es@.len() - i,
        {
            proof {
                lemma_entries_prefix(es@, i as int);
                lemma_entries_prefix(es@, i + 1);
                assert(es@.take(i + 1).drop_last() =~= es@.take(i as int));
            }
            let k = self.lower_expr(&es[i].0);
            let v = self.lower_expr(&es[i].1);
            ids.push((k, v));
            i = i + 1;
        }
        proof {
            assert(es@.take(i as int) =~= es@);
        }
        ids
    }

    fn lower_parts(&mut self, ps: &Vec<FStringPart>, acc: u32) -> (r: u32)
        requires
            old(self).state().nv + parts_size(ps@) <= u32::MAX,
            old(self).state().nb + parts_size(ps@) <= u32::MAX,
        ensures
            (final(self).state(), r as nat) == lower_parts_spec(ps@, old(self).state(), acc as nat, old(self).modules(),
                old(self).calls()),
            final(self).modules() == old(self).modules(),
            final(self).calls() == old(self).calls(),
            final(self).funcs() == old(self).funcs(),
            final(self).state().nv <= old(self).state().nv + parts_size(ps@),
            final(self).state().nb <= old(self).state().nb + parts_size(ps@),
        decreases ps@, 0int,
    {
        let ghost s0 = self.state();
        let ghost ma = self.modules();
        let ghost ca = self.calls();
        let mut a = acc;
        let mut i: usize = 0;
        assert(ps@.take(0) =~= Seq::<FStringPart>::empty());
        while i < ps.len()
            invariant
                0 <= i <= ps@.len(),
                (self.state(), a as nat) == lower_parts_spec(ps@.take(i as int), s0, acc as nat, ma, ca),
                self.modules() == ma,
                self.calls() == ca,
                self.funcs() == old(self).funcs(),
                self.state().nv <= s0.nv + parts_size(ps@.take(i as int)),
                self.state().nb <= s0.nb + parts_size(ps@.take(i as int)),
                s0.nv + parts_size(ps@) <= u32::MAX,
                s0.nb + parts_size(ps@) <= u32::MAX,
            decreases ps@.len() - i,
        {
            proof {
                lemma_parts_prefix(ps@, i as int);
                lemma_parts_prefix(ps@, i + 1);
                assert(ps@.take(i + 1).drop_last() =~= ps@.take(i as int));
            }
            let piece = match &ps[i] {
                FStringPart::Literal(t) => {
                    let d = self.fresh_value();
                    self.emit_instr(IrInstr::ConstStr { dest: d, value: copy_string(t) });
                    d
                },
                FStringPart::Expr(x) => {
                    let src = self.lower_expr(x);
                    let d = self.fresh_value();
                    self.emit_instr(IrInstr::ValueToStr { dest: d, src });
                    d
                },
            };
            let dest = self.fresh_value();
            self.emit_instr(IrInstr::StrConcat { dest, left: a, right: piece });
            a = dest;
            i = i + 1;
        }
        proof {
            assert(ps@.take(i as int) =~= ps@);
        }
        a
    }
}

/// The target bound to `name` in `v`, if any (the first binding counts).
fn alias_lookup(v: &Vec<(String, String)>, name: &String) -> (r: Option<String>)
    ensures
        match r {
            Some(t) => alias_of(pairs_text(v@), name@) == Some(t@),
            None => alias_of(pairs_text(v@), name@) is None,
        },
{
    let ghost all = pairs_text(v@);
    let mut i: usize = 0;
    assert(all.skip(0) =~= all);
    while i < v.len()
        invariant
            0 <= i <= v@.len(),
            all == pairs_text(v@),
            alias_of(all, name@) == alias_of(all.skip(i as int), name@),
        decreases v@.len() - i,
    {
        assert(all.skip(i as int)[0] == (v@[i as int].0@, v@[i as int].1@));
        if v[i].0.eq(name) {
            return Some(copy_string(&v[i].1));
        }
        assert(all.skip(i as int).drop_first() =~= all.skip(i + 1));
        i = i + 1;
    }
    assert(all.skip(i as int).len() == 0);
    None
}

/// `prefix` `object` `.` `field`.
fn accessor_name(prefix: &str, object: &String, field: &String) -> (r: String)
    ensures
        r@ == prefix@ + object@ + "."@ + field@,
{
    let mut m = chars_of(prefix);
    let o = string_chars(object);
    append_chars(&mut m, &o);
    append_str(&mut m, ".");
    let f = string_chars(field);
    append_chars(&mut m, &f);
    string_from_chars(m)
}

fn has_char(cs: &Vec<char>, c: char) -> (r: bool)
    ensures
        r == cs@.contains(c),
{
    let mut i: usize = 0;
    while i < cs.len()
        invariant
            0 <= i <= cs@.len(),
            forall|j: int| 0 <= j < i ==> cs@[j] != c,
        decreases cs@.len() - i,
    {
        if cs[i] == c {
            assert(cs@[i as int] == c);
            return true;
        }
        i = i + 1;
    }
    false
}

fn const_instruction(dest: u32, lit: &Literal) -> (r: IrInstr)
    ensures
        instr_v(r) == const_instr(dest, *lit),
{
    match lit {
        Literal::NoneValue => IrInstr::ConstNone { dest },
        Literal::Bool(b) => IrInstr::ConstBool { dest, value: *b },
        Literal::String(t) => IrInstr::ConstStr { dest, value: copy_string(t) },
        Literal::Number(n) => {
            let cs = string_chars(n);
            if has_char(&cs, '.') || has_char(&cs, 'e') || has_char(&cs, 'E') {
                IrInstr::ConstF64 { dest, text: copy_string(n) }
            } else {
                match parse_i64(cs.as_slice()) {
                    Some(v) => IrInstr::ConstI64 { dest, value: v },
                    None => IrInstr::ConstF64 { dest, text: copy_string(n) },
                }
            }
        },
    }
}

fn binary_op(op: BinOp) -> (r: IrOp)
    ensures
        r == ir_binary(op),
{
    match op {
        BinOp::Add => IrOp::Add,
        BinOp::Sub => IrOp::Sub,
        BinOp::Mul => IrOp::Mul,
        BinOp::Div => IrOp::Div,
        BinOp::Rem => IrOp::Rem,
        BinOp::Pow => IrOp::Pow,
        BinOp::Eq => IrOp::Eq,
        BinOp::Ne => IrOp::Ne,
        BinOp::Lt => IrOp::Lt,
        BinOp::Le => IrOp::Le,
        BinOp::Gt => IrOp::Gt,
        BinOp::Ge => IrOp::Ge,
        BinOp::And => IrOp::And,
        BinOp::Or => IrOp::Or,
    }
}

fn unary_op(op: UnaryOp) -> (r: IrOp)
    ensures
        r == ir_unary(op),
{
    match op {
        UnaryOp::Neg => IrOp::Neg,
        UnaryOp::Not => IrOp::Not,
    }
}


pub proof fn lemma_rebind_found(s: Seq<(Seq<char>, Seq<char>)>, k: Seq<char>, t: Seq<char>, i: int)
    requires
        0 <= i < s.len(),
        s[i].0 == k,
        forall|j: int| 0 <= j < i ==> s[j].0 != k,
    ensures
        rebind(s, k, t) == s.update(i, (k, t)),
    decreases s.len(),
{
    if i > 0 {
        lemma_rebind_found(s.drop_first(), k, t, i - 1);
        assert(seq![s[0]] + s.drop_first().update(i - 1, (k, t)) =~= s.update(i, (k, t)));
    }
}

pub proof fn lemma_rebind_absent(s: Seq<(Seq<char>, Seq<char>)>, k: Seq<char>, t: Seq<char>)
    requires
        forall|j: int| 0 <= j < s.len() ==> s[j].0 != k,
    ensures
        rebind(s, k, t) == s.push((k, t)),
    decreases s.len(),
{
    if s.len() > 0 {
        lemma_rebind_absent(s.drop_first(), k, t);
        assert(seq![s[0]] + s.drop_first().push((k, t)) =~= s.push((k, t)));
    } else {
        assert(seq![(k, t)] =~= s.push((k, t)));
    }
}

pub proof fn lemma_ssizes_prefix(es: Seq<Stmt>, i: int)
    requires
        0 <= i <= es.len(),
    ensures
        ssizes(es.take(i)) <= ssizes(es),
        i < es.len() ==> ssizes(es.take(i + 1)) == ssizes(es.take(i)) + ssize(es[i]),
    decreases es.len(),
{
    if i < es.len() {
        assert(es.take(i + 1).drop_last() =~= es.take(i));
        lemma_ssizes_prefix(es.drop_last(), i);
        assert(es.drop_last().take(i) =~= es.take(i));
    } else {
        assert(es.take(i) =~= es);
    }
}

/// Binds `name` to `target` in `v`, replacing a binding of `name`.
fn rebind_in(v: &mut Vec<(String, String)>, name: String, target: String)
    ensures
        pairs_text(final(v)@) == rebind(pairs_text(old(v)@), name@, target@),
{
    let ghost all = pairs_text(v@);
    let mut i: usize = 0;
    while i < v.len()
        invariant
            0 <= i <= v@.len(),
            all == pairs_text(v@),
            v@ == old(v)@,
            forall|j: int| 0 <= j < i ==> all[j].0 != name@,
        decreases v@.len() - i,
    {
        if v[i].0.eq(&name) {
            proof {
                lemma_rebind_found(all, name@, target@, i as int);
            }
            let ghost nv = name@;
            let ghost tv = target@;
            v.set(i, (name, target));
            assert(pairs_text(v@) =~= all.update(i as int, (nv, tv)));
            return;
        }
        i = i + 1;
    }
    proof {
        lemma_rebind_absent(all, name@, target@);
    }
    let ghost nv = name@;
    let ghost tv = target@;
    v.push((name, target));
    assert(pairs_text(v@) =~= all.push((nv, tv)));
}

fn param_names(ps: &Vec<Param>) -> (r: Vec<String>)
    ensures
        r@.map_values(|p: String| p@) == ps@.map_values(|p: Param| p.name@),
{
    let mut out: Vec<String> = Vec::new();
    let mut i: usize = 0;
    while i < ps.len()
        invariant
            0 <= i <= ps@.len(),
            out@.map_values(|p: String| p@) =~= ps@.take(i as int).map_values(|p: Param| p.name@),
        decreases ps@.len() - i,
    {
        let ghost prev = out@;
        let nm = copy_string(&ps[i].name);
        out.push(nm);
        proof {
            assert(ps@.take(i + 1) =~= ps@.take(i as int).push(ps@[i as int]));
            assert(out@ =~= prev.push(nm));
            assert(out@.map_values(|p: String| p@) =~= prev.map_values(|p: String| p@).push(nm@));
            assert(ps@.take(i + 1).map_values(|p: Param| p.name@)
                =~= ps@.take(i as int).map_values(|p: Param| p.name@).push(ps@[i as int].name@));
        }
        i = i + 1;
    }
    assert(ps@.take(i as int) =~= ps@);
    out
}

/// `prefix` followed by `name`.
fn prefixed(prefix: &str, name: &String) -> (r: String)
    ensures
        r@ == prefix@ + name@,
{
    let mut m = chars_of(prefix);
    let n = string_chars(name);
    append_chars(&mut m, &n);
    string_from_chars(m)
}

impl Lowerer {
    /// The whole lowering state.
    pub open spec fn stmt_state(&self) -> StmtView {
        StmtView { low: self.state(), functions: self.funcs(), ma: self.modules(), ca: self.calls() }
    }

    /// Lowers statement `s`.
    #[verifier::rlimit(60)]
    #[verifier::spinoff_prover]
    pub fn lower_stmt(&mut self, s: &Stmt)
        requires
            old(self).state().nv + ssize(*s) <= u32::MAX,
            old(self).state().nb + ssize(*s) <= u32::MAX,
        ensures
            final(self).stmt_state() == lower_stmt_spec(*s, old(self).stmt_state()),
            final(self).state().nv <= old(self).state().nv + ssize(*s),
            final(self).state().nb <= old(self).state().nb + ssize(*s),
        decreases *s, 1int,
    {
        match s {
            Stmt::Let { name, initializer, .. } => {
                let v = self.lower_expr(initializer);
                self.emit_instr(IrInstr::Store { name: copy_string(name), value: v });
            },
            Stmt::Print { values, .. } => {
                let ids = self.lower_exprs(values);
                self.emit_instr(IrInstr::Print { args: ids });
            },
            Stmt::Expr { expr, .. } => {
                let _ = self.lower_expr(expr);
            },
            Stmt::Block(stmts) => self.lower_stmts(stmts),
            Stmt::If { .. } => self.lower_if(s),
            Stmt::While { .. } => self.lower_while(s),
            Stmt::For { .. } => self.lower_for(s),
            Stmt::Function(..) => self.lower_function(s),
            Stmt::Return { value, .. } => {
                match value {
                    Expr::Literal(Literal::NoneValue) => {
                        self.emit_instr(IrInstr::Return { value: None });
                    },
                    _ => {
                        let v = self.lower_expr(value);
                        self.emit_instr(IrInstr::Return { value: Some(v) });
                    },
                }
            },
            Stmt::Struct { name, .. } => {
                let d = self.fresh_value();
                self.emit_instr(IrInstr::ConstStr { dest: d, value: prefixed("struct:", name) });
                self.emit_instr(IrInstr::Store { name: copy_string(name), value: d });
            },
            Stmt::Trait { name, .. } => {
                let d = self.fresh_value();
                self.emit_instr(IrInstr::ConstStr { dest: d, value: prefixed("trait:", name) });
                self.emit_instr(IrInstr::Store { name: copy_string(name), value: d });
            },
            Stmt::WithMmap { path, var, body, .. } => {
                let p = self.lower_expr(path);
                let m = self.fresh_value();
                let mut args: Vec<u32> = Vec::new();
                args.push(p);
                assert(args@ =~= seq![p]);
                self.emit_instr(IrInstr::Call { dest: m, func: crate::text::to_string("__mmap_open__"), args });
                self.emit_instr(IrInstr::Store { name: copy_string(var), value: m });
                self.lower_stmt(body);
            },
            Stmt::Import { module, alias, .. } => {
                let bind = match alias {
                    Some(a) => copy_string(a),
                    None => copy_string(module),
                };
                rebind_in(&mut self.module_aliases, bind, copy_string(module));
            },
            Stmt::ImportFrom { module, names, .. } => {
                let ghost ca0 = self.calls();
                let mut i: usize = 0;
                assert(names@.take(0) =~= Seq::<ImportName>::empty());
                while i < names.len()
                    invariant
                        0 <= i <= names@.len(),
                        self.calls() == bind_names(ca0, module@, names@.take(i as int)),
                        self.state() == old(self).state(),
                        self.modules() == old(self).modules(),
                        self.funcs() == old(self).funcs(),
                    decreases names@.len() - i,
                {
                    let item = &names[i];
                    let bind = match &item.alias {
                        Some(a) => copy_string(a),
                        None => copy_string(&item.name),
                    };
                    let target = mangle_module_fn(module.as_str(), item.name.as_str());
                    rebind_in(&mut self.call_aliases, bind, target);
                    assert(names@.take(i + 1).drop_last() =~= names@.take(i as int));
                    i = i + 1;
                }
                assert(names@.take(i as int) =~= names@);
            },
        }
    }

    fn lower_stmts(&mut self, ss: &Vec<Stmt>)
        requires
            old(self).state().nv + ssizes(ss@) <= u32::MAX,
            old(self).state().nb + ssizes(ss@) <= u32::MAX,
        ensures
            final(self).stmt_state() == lower_stmts_spec(ss@, old(self).stmt_state()),
            final(self).state().nv <= old(self).state().nv + ssizes(ss@),
            final(self).state().nb <= old(self).state().nb + ssizes(ss@),
        decreases ss@, 1int,
    {
        let ghost st0 = self.stmt_state();
        let ghost n0 = self.state().nv;
        let ghost b0 = self.state().nb;
        let mut i: usize = 0;
        assert(ss@.take(0) =~= Seq::<Stmt>::empty());
        while i < ss.len()
            invariant
                0 <= i <= ss@.len(),
                self.stmt_state() == lower_stmts_spec(ss@.take(i as int), st0),
                self.state().nv <= n0 + ssizes(ss@.take(i as int)),
                self.state().nb <= b0 + ssizes(ss@.take(i as int)),
                n0 + ssizes(ss@) <= u32::MAX,
                b0 + ssizes(ss@) <= u32::MAX,
            decreases ss@.len() - i,
        {
            proof {
                lemma_ssizes_prefix(ss@, i as int);
                lemma_ssizes_prefix(ss@, i + 1);
                assert(ss@.take(i + 1).drop_last() =~= ss@.take(i as int));
            }
            self.lower_stmt(&ss[i]);
            i = i + 1;
        }
        assert(ss@.take(i as int) =~= ss@);
    }

    fn lower_if(&mut self, s: &Stmt)
        requires
            s is If,
            old(self).state().nv + ssize(*s) <= u32::MAX,
            old(self).state().nb + ssize(*s) <= u32::MAX,
        ensures
            final(self).stmt_state() == lower_stmt_spec(*s, old(self).stmt_state()),
            final(self).state().nv <= old(self).state().nv + ssize(*s),
            final(self).state().nb <= old(self).state().nb + ssize(*s),
        decreases *s, 0int,
    {
        match s {
            Stmt::If { condition, then_branch, else_branch } => {
                let c = self.lower_expr(condition);
                let tb = self.fresh_block();
                let eb = self.fresh_block();
                let mb = self.fresh_block();
                self.emit_instr(IrInstr::Branch { cond: c, then_block: tb, else_block: eb });
                self.emit_instr(IrInstr::Label { block: tb });
                self.lower_stmt(then_branch);
                self.emit_instr(IrInstr::Jump { target: mb });
                self.emit_instr(IrInstr::Label { block: eb });
                match else_branch {
                    Some(e) => self.lower_stmt(e),
                    None => {},
                }
                self.emit_instr(IrInstr::Jump { target: mb });
                self.emit_instr(IrInstr::Label { block: mb });
            },
            _ => {},
        }
    }

    fn lower_while(&mut self, s: &Stmt)
        requires
            s is While,
            old(self).state().nv + ssize(*s) <= u32::MAX,
            old(self).state().nb + ssize(*s) <= u32::MAX,
        ensures
            final(self).stmt_state() == lower_stmt_spec(*s, old(self).stmt_state()),
            final(self).state().nv <= old(self).state().nv + ssize(*s),
            final(self).state().nb <= old(self).state().nb + ssize(*s),
        decreases *s, 0int,
    {
        match s {
            Stmt::While { condition, body, .. } => {
                let header = self.fresh_block();
                let body_b = self.fresh_block();
                let exit_b = self.fresh_block();
                self.emit_instr(IrInstr::Jump { target: header });
                self.emit_instr(IrInstr::Label { block: header });
                let c = self.lower_expr(condition);
                self.emit_instr(IrInstr::Branch { cond: c, then_block: body_b, else_block: exit_b });
                self.emit_instr(IrInstr::Label { block: body_b });
                self.lower_stmt(body);
                self.emit_instr(IrInstr::Jump { target: header });
                self.emit_instr(IrInstr::Label { block: exit_b });
            },
            _ => {},
        }
    }

    fn lower_for(&mut self, s: &Stmt)
        requires
            s is For,
            old(self).state().nv + ssize(*s) <= u32::MAX,
            old(self).state().nb + ssize(*s) <= u32::MAX,
        ensures
            final(self).stmt_state() == lower_stmt_spec(*s, old(self).stmt_state()),
            final(self).state().nv <= old(self).state().nv + ssize(*s),
            final(self).state().nb <= old(self).state().nb + ssize(*s),
        decreases *s, 0int,
    {
        match s {
            Stmt::For { var, iter, body, .. } => {
                match iter {
                    ForIter::Range { start, end } => {
                        let a = self.lower_expr(start);
                        let b = self.lower_expr(end);
                        self.emit_instr(IrInstr::Store { name: copy_string(var), value: a });
                        self.range_loop(var, b, body);
                    },
                    ForIter::Iterable(x) => {
                        let list = self.lower_expr(x);
                        let len = self.fresh_value();
                        self.emit_instr(IrInstr::ListLen { dest: len, list });
                        let idx = prefixed("__for_i_", var);
                        let zero = self.fresh_value();
                        self.emit_instr(IrInstr::ConstI64 { dest: zero, value: 0 });
                        self.emit_instr(IrInstr::Store { name: copy_string(&idx), value: zero });
                        self.list_loop(var, &idx, list, len, body);
                    },
                }
            },
            _ => {},
        }
    }

    /// Emits a loop head (see [`loop_head_spec`]); the header label and the
    /// slot of the counter read.
    fn loop_head(&mut self, name: &String, end: u32) -> (r: (u32, u32))
        requires
            old(self).state().nv + 4 <= u32::MAX,
            old(self).state().nb + 4 <= u32::MAX,
        ensures
            final(self).stmt_state() == loop_head_spec(name@, end, old(self).stmt_state()),
            r.0 == old(self).state().nb,
            r.1 == old(self).state().nv,
            final(self).state().nv == old(self).state().nv + 2,
            final(self).state().nb == old(self).state().nb + 3,
    {
        let header = self.fresh_block();
        let body_b = self.fresh_block();
        let exit_b = self.fresh_block();
        self.emit_instr(IrInstr::Jump { target: header });
        self.emit_instr(IrInstr::Label { block: header });
        let i_val = self.fresh_value();
        self.emit_instr(IrInstr::Load { dest: i_val, name: copy_string(name) });
        let below = self.fresh_value();
        self.emit_instr(IrInstr::Binary { dest: below, op: IrOp::Lt, left: i_val, right: end });
        self.emit_instr(IrInstr::Branch { cond: below, then_block: body_b, else_block: exit_b });
        self.emit_instr(IrInstr::Label { block: body_b });
        (header, i_val)
    }

    /// Emits a loop tail (see [`loop_tail_spec`]).
    fn loop_tail(&mut self, name: &String, header: u32)
        requires
            old(self).state().nv + 4 <= u32::MAX,
            header + 2 <= u32::MAX,
        ensures
            final(self).stmt_state() == loop_tail_spec(name@, header as nat, old(self).stmt_state()),
            final(self).state().nv == old(self).state().nv + 3,
            final(self).state().nb == old(self).state().nb,
    {
        let i2 = self.fresh_value();
        self.emit_instr(IrInstr::Load { dest: i2, name: copy_string(name) });
        let one = self.fresh_value();
        self.emit_instr(IrInstr::ConstI64 { dest: one, value: 1 });
        let next = self.fresh_value();
        self.emit_instr(IrInstr::Binary { dest: next, op: IrOp::Add, left: i2, right: one });
        self.emit_instr(IrInstr::Store { name: copy_string(name), value: next });
        self.emit_instr(IrInstr::Jump { target: header });
        self.emit_instr(IrInstr::Label { block: header + 2 });
    }

    fn range_loop(&mut self, var: &String, end: u32, body: &Stmt)
        requires
            old(self).state().nv + ssize(*body) + 8 <= u32::MAX,
            old(self).state().nb + ssize(*body) + 8 <= u32::MAX,
        ensures
            final(self).stmt_state() == range_loop_spec(var@, end, *body, old(self).stmt_state()),
            final(self).state().nv <= old(self).state().nv + ssize(*body) + 8,
            final(self).state().nb <= old(self).state().nb + ssize(*body) + 8,
        decreases *body, 2int,
    {
        let (header, _) = self.loop_head(var, end);
        self.lower_stmt(body);
        self.loop_tail(var, header);
    }

    fn list_loop(&mut self, var: &String, idx: &String, list: u32, len: u32, body: &Stmt)
        requires
            old(self).state().nv + ssize(*body) + 8 <= u32::MAX,
            old(self).state().nb + ssize(*body) + 8 <= u32::MAX,
        ensures
            final(self).stmt_state() == list_loop_spec(var@, idx@, list, len, *body, old(self).stmt_state()),
            final(self).state().nv <= old(self).state().nv + ssize(*body) + 8,
            final(self).state().nb <= old(self).state().nb + ssize(*body) + 8,
        decreases *body, 2int,
    {
        let (header, i_val) = self.loop_head(idx, len);
        let elem = self.fresh_value();
        self.emit_instr(IrInstr::IndexGet { dest: elem, object: list, index: i_val });
        self.emit_instr(IrInstr::Store { name: copy_string(var), value: elem });
        self.lower_stmt(body);
        self.loop_tail(idx, header);
    }

    fn lower_function(&mut self, s: &Stmt)
        requires
            s is Function,
            old(self).state().nv + ssize(*s) <= u32::MAX,
            old(self).state().nb + ssize(*s) <= u32::MAX,
        ensures
            final(self).stmt_state() == lower_stmt_spec(*s, old(self).stmt_state()),
            final(self).state().nv <= old(self).state().nv + ssize(*s),
            final(self).state().nb <= old(self).state().nb + ssize(*s),
        decreases *s, 0int,
    {
        match s {
            Stmt::Function(decl) => {
                let mut saved: Vec<IrInstr> = Vec::new();
                std::mem::swap(&mut saved, &mut self.current);
                let saved_value = self.next_value;
                let saved_block = self.next_block;
                self.next_value = 0;
                self.next_block = 0;
                assert(instrs_v(self.current@) =~= Seq::<InstrV>::empty());
                self.lower_stmt(&decl.body);
                let mut body: Vec<IrInstr> = Vec::new();
                std::mem::swap(&mut body, &mut self.current);
                let params = param_names(&decl.params);
                let f = IrFunction { name: copy_string(&decl.name), params, body };
                let ghost before = self.funcs();
                self.functions.push(f);
                assert(self.funcs() =~= before.push(function_v(f)));
                self.current = saved;
                self.next_value = saved_value;
                self.next_block = saved_block;
            },
            _ => {},
        }
    }
}


/// A lowered program: its functions and the code of its main body.
#[derive(Debug)]
pub struct IrModule {
    pub functions: Vec<IrFunction>,
    pub main: Vec<IrInstr>,
}

/// The state lowering starts from.
pub open spec fn lower_start() -> StmtView {
    StmtView {
        low: LowerView { nv: 0, nb: 0, code: Seq::empty() },
        functions: Seq::empty(),
        ma: Seq::empty(),
        ca: Seq::empty(),
    }
}

/// Lowering a whole program: its statements in order from the start.
pub open spec fn lower_program_spec(stmts: Seq<Stmt>) -> StmtView {
    lower_stmts_spec(stmts, lower_start())
}

/// Lowers a program's statements, in order, into its functions and its main
/// code.  (The value and label counters are 32-bit; `requires` keeps the
/// program within what they can number, see [`lowering_fits`].)
pub fn lower_program(stmts: &Vec<Stmt>) -> (m: IrModule)
    requires
        ssizes(stmts@) <= u32::MAX,
    ensures
        functions_v(m.functions@) == lower_program_spec(stmts@).functions,
        instrs_v(m.main@) == lower_program_spec(stmts@).low.code,
{
    let mut l = Lowerer::new();
    assert(l.stmt_state() == lower_start()) by {
        assert(l.funcs() =~= Seq::<IrFunctionV>::empty());
    }
    l.lower_stmts(stmts);
    let main = l.take_code();
    IrModule { functions: l.functions, main }
}


/// One past the largest 32-bit counter value.
pub const SIZE_CAP: u64 = 4294967296u64;

pub open spec fn capped(n: nat) -> nat {
    if n > SIZE_CAP { SIZE_CAP as nat } else { n }
}

fn add_capped(a: u64, b: u64) -> (r: u64)
    requires
        a <= SIZE_CAP,
        b <= SIZE_CAP,
    ensures
        r == capped((a + b) as nat),
{
    if a + b > SIZE_CAP { SIZE_CAP } else { a + b }
}

fn esize_capped(e: &Expr) -> (r: u64)
    ensures
        r == capped(esize(*e)),
    decreases *e, 1int,
{
    match e {
        Expr::Literal(_) | Expr::Variable { .. } | Expr::GetField { .. } => 4,
        Expr::Group(x) => add_capped(esize_capped(x), 4),
        Expr::Unary { right, .. } => add_capped(esize_capped(right), 4),
        Expr::Binary { left, right, .. } => add_capped(add_capped(esize_capped(left), esize_capped(right)), 4),
        Expr::Assign { value, .. } => add_capped(esize_capped(value), 4),
        Expr::SetField { value, .. } => add_capped(esize_capped(value), 4),
        Expr::Call { callee, args } => add_capped(add_capped(esize_capped(callee), args_capped(args)), 4),
        Expr::CallMethod { args, .. } => add_capped(esizes_capped(args), 4),
        Expr::List(items) => add_capped(esizes_capped(items), 4),
        Expr::Dict(entries) => add_capped(entries_capped(entries), 4),
        Expr::Index { object, index } => add_capped(add_capped(esize_capped(object), esize_capped(index)), 4),
        Expr::IndexSet { object, index, value } => add_capped(add_capped(add_capped(esize_capped(object),
            esize_capped(index)), esize_capped(value)), 4),
        Expr::FString { parts, .. } => add_capped(parts_capped(parts), 4),
        Expr::Ternary { condition, then_branch, else_branch } => add_capped(add_capped(add_capped(
            esize_capped(condition), esize_capped(then_branch)), esize_capped(else_branch)), 4),
    }
}

fn esizes_capped(es: &Vec<Expr>) -> (r: u64)
    ensures
        r == capped(esizes(es@)),
    decreases es@, 0int,
{
    let mut acc: u64 = 0;
    let mut i: usize = 0;
    assert(es@.take(0) =~= Seq::<Expr>::empty());
    while i < es.len()
        invariant
            0 <= i <= es@.len(),
            acc == capped(esizes(es@.take(i as int))),
        decreases es@.len() - i,
    {
        proof {
            lemma_esizes_prefix(es@, i as int);
        }
        acc = add_capped(acc, esize_capped(&es[i]));
        i = i + 1;
    }
    assert(es@.take(i as int) =~= es@);
    acc
}

fn args_capped(es: &Vec<CallArg>) -> (r: u64)
    ensures
        r == capped(args_size(es@)),
    decreases es@, 0int,
{
    let mut acc: u64 = 0;
    let mut i: usize = 0;
    assert(es@.take(0) =~= Seq::<CallArg>::empty());
    while i < es.len()
        invariant
            0 <= i <= es@.len(),
            acc == capped(args_size(es@.take(i as int))),
        decreases es@.len() - i,
    {
        proof {
            lemma_args_prefix(es@, i as int);
        }
        let one = match &es[i] {
            CallArg::Positional(x) => esize_capped(x),
            CallArg::Named { value, .. } => esize_capped(value),
        };
        acc = add_capped(acc, one);
        i = i + 1;
    }
    assert(es@.take(i as int) =~= es@);
    acc
}

fn entries_capped(es: &Vec<(Expr, Expr)>) -> (r: u64)
    ensures
        r == capped(entries_size(es@)),
    decreases es@, 0int,
{
    let mut acc: u64 = 0;
    let mut i: usize = 0;
    assert(es@.take(0) =~= Seq::<(Expr, Expr)>::empty());
    while i < es.len()
        invariant
            0 <= i <= es@.len(),
            acc == capped(entries_size(es@.take(i as int))),
        decreases es@.len() - i,
    {
        proof {
            lemma_entries_prefix(es@, i as int);
        }
        acc = add_capped(add_capped(acc, esize_capped(&es[i].0)), esize_capped(&es[i].1));
        i = i + 1;
    }
    assert(es@.take(i as int) =~= es@);
    acc
}

fn parts_capped(es: &Vec<FStringPart>) -> (r: u64)
    ensures
        r == capped(parts_size(es@)),
    decreases es@, 0int,
{
    let mut acc: u64 = 0;
    let mut i: usize = 0;
    assert(es@.take(0) =~= Seq::<FStringPart>::empty());
    while i < es.len()
        invariant
            0 <= i <= es@.len(),
            acc == capped(parts_size(es@.take(i as int))),
        decreases es@.len() - i,
    {
        proof {
            lemma_parts_prefix(es@, i as int);
        }
        let one = match &es[i] {
            FStringPart::Literal(_) => 4,
            FStringPart::Expr(x) => add_capped(esize_capped(x), 4),
        };
        acc = add_capped(acc, one);
        i = i + 1;
    }
    assert(es@.take(i as int) =~= es@);
    acc
}

fn ssize_capped(s: &Stmt) -> (r: u64)
    ensures
        r == capped(ssize(*s)),
    decreases *s, 1int,
{
    match s {
        Stmt::Let { initializer, .. } => add_capped(esize_capped(initializer), 8),
        Stmt::Print { values, .. } => add_capped(esizes_capped(values), 8),
        Stmt::Expr { expr, .. } => add_capped(esize_capped(expr), 8),
        Stmt::Block(stmts) => add_capped(ssizes_capped(stmts), 8),
        Stmt::If { condition, then_branch, else_branch } => {
            let e = match else_branch {
                Some(x) => ssize_capped(x),
                None => 0,
            };
            add_capped(add_capped(add_capped(esize_capped(condition), ssize_capped(then_branch)), e), 8)
        },
        Stmt::While { condition, body, .. } => add_capped(add_capped(esize_capped(condition), ssize_capped(body)), 8),
        Stmt::For { iter, body, .. } => match iter {
            ForIter::Range { start, end } => add_capped(add_capped(add_capped(esize_capped(start), esize_capped(end)),
                ssize_capped(body)), 16),
            ForIter::Iterable(x) => add_capped(add_capped(esize_capped(x), ssize_capped(body)), 16),
        },
        Stmt::Function(d) => add_capped(ssize_capped(&d.body), 8),
        Stmt::Return { value, .. } => add_capped(esize_capped(value), 8),
        Stmt::WithMmap { path, body, .. } => add_capped(add_capped(esize_capped(path), ssize_capped(body)), 8),
        _ => 8,
    }
}

fn ssizes_capped(ss: &Vec<Stmt>) -> (r: u64)
    ensures
        r == capped(ssizes(ss@)),
    decreases ss@, 0int,
{
    let mut acc: u64 = 0;
    let mut i: usize = 0;
    assert(ss@.take(0) =~= Seq::<Stmt>::empty());
    while i < ss.len()
        invariant
            0 <= i <= ss@.len(),
            acc == capped(ssizes(ss@.take(i as int))),
        decreases ss@.len() - i,
    {
        proof {
            lemma_ssizes_prefix(ss@, i as int);
        }
        acc = add_capped(acc, ssize_capped(&ss[i]));
        i = i + 1;
    }
    assert(ss@.take(i as int) =~= ss@);
    acc
}

/// Whether [`lower_program`] can number every value and label of `stmts`
/// with 32-bit counters.
pub fn lowering_fits(stmts: &Vec<Stmt>) -> (r: bool)
    ensures
        r == (ssizes(stmts@) <= u32::MAX),
{
    ssizes_capped(stmts) <= 4294967295u64
}

} // verus!
