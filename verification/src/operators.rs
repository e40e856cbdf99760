//! How a binary operator is carried from the source text to the checker and
//! to the intermediate representation: the token that is read, the operator
//! that it stands for, the rule that types it and the IR operator that
//! computes it all agree on which operator it is.

use vstd::prelude::*;
use crate::ast::{BinOp, UnaryOp, Expr, Literal};
use crate::grammar::{bin_op, un_op};
use crate::ir::IrOp;
use crate::lower::{ir_binary, ir_unary, lower_expr_spec, InstrV, LowerView};
use crate::literals::parse_i64_spec;
use crate::scanner::{TokenType, fixed_lexeme, keyword_type};
use crate::semantic::{binary_rule, binop_text};
use crate::types::{Ty, is_any, is_numeric, widen_numeric};

verus! {

/// The IR operator named after the source operator written `text`: the
/// arithmetic signs by their arithmetic, the comparisons by their order,
/// the logical words by themselves.
pub open spec fn ir_name_for_text(text: Seq<char>) -> Seq<char> {
    if text == "+"@ { "add"@ }
    else if text == "-"@ { "sub"@ }
    else if text == "*"@ { "mul"@ }
    else if text == "/"@ { "div"@ }
    else if text == "%"@ { "rem"@ }
    else if text == "**"@ { "pow"@ }
    else if text == "=="@ { "eq"@ }
    else if text == "!="@ { "ne"@ }
    else if text == "<"@ { "lt"@ }
    else if text == "<="@ { "le"@ }
    else if text == ">"@ { "gt"@ }
    else if text == ">="@ { "ge"@ }
    else if text == "and"@ { "and"@ }
    else if text == "or"@ { "or"@ }
    else { seq![] }
}

proof fn reveal_operator_texts()
    ensures
        "+"@.len() == 1,
        "+"@[0] == '+',
        "-"@.len() == 1,
        "-"@[0] == '-',
        "*"@.len() == 1,
        "*"@[0] == '*',
        "/"@.len() == 1,
        "/"@[0] == '/',
        "%"@.len() == 1,
        "%"@[0] == '%',
        "**"@.len() == 2,
        "**"@[0] == '*',
        "**"@[1] == '*',
        "=="@.len() == 2,
        "=="@[0] == '=',
        "=="@[1] == '=',
        "!="@.len() == 2,
        "!="@[0] == '!',
        "!="@[1] == '=',
        "<"@.len() == 1,
        "<"@[0] == '<',
        "<="@.len() == 2,
        "<="@[0] == '<',
        "<="@[1] == '=',
        ">"@.len() == 1,
        ">"@[0] == '>',
        ">="@.len() == 2,
        ">="@[0] == '>',
        ">="@[1] == '=',
        "and"@.len() == 3,
        "and"@[0] == 'a',
        "and"@[1] == 'n',
        "and"@[2] == 'd',
        "or"@.len() == 2,
        "or"@[0] == 'o',
        "or"@[1] == 'r',
        "true"@.len() == 4,
        "true"@[0] == 't',
        "true"@[1] == 'r',
        "true"@[2] == 'u',
        "true"@[3] == 'e',
        "false"@.len() == 5,
        "false"@[0] == 'f',
        "false"@[1] == 'a',
        "false"@[2] == 'l',
        "false"@[3] == 's',
        "false"@[4] == 'e',
        "not"@.len() == 3,
        "not"@[0] == 'n',
        "not"@[1] == 'o',
        "not"@[2] == 't',
        "!"@.len() == 1,
        "!"@[0] == '!',
{
    reveal_strlit("+");
    reveal_strlit("-");
    reveal_strlit("*");
    reveal_strlit("/");
    reveal_strlit("%");
    reveal_strlit("**");
    reveal_strlit("==");
    reveal_strlit("!=");
    reveal_strlit("<");
    reveal_strlit("<=");
    reveal_strlit(">");
    reveal_strlit(">=");
    reveal_strlit("and");
    reveal_strlit("or");
    reveal_strlit("true");
    reveal_strlit("false");
    reveal_strlit("not");
    reveal_strlit("!");
}

/// Lowering keeps the operator: the IR operator a source operator lowers to
/// is the one named after how the operator is written, and distinct source
/// operators lower to distinct IR operators.
pub proof fn lemma_lowered_operator_is_the_written_one(op: BinOp, other: BinOp)
    ensures
        ir_binary(op).name_spec() == ir_name_for_text(binop_text(op)),
        ir_binary(op) == ir_binary(other) ==> op == other,
        ir_binary(op) != IrOp::Neg && ir_binary(op) != IrOp::Not,
        ir_unary(UnaryOp::Neg) == IrOp::Neg && ir_unary(UnaryOp::Not) == IrOp::Not,
{
    reveal_operator_texts();
    match op {
        BinOp::Add => {},
        BinOp::Sub => {},
        BinOp::Mul => {},
        BinOp::Div => {},
        BinOp::Rem => {},
        BinOp::Pow => {},
        BinOp::Eq => {},
        BinOp::Ne => {},
        BinOp::Lt => {},
        BinOp::Le => {},
        BinOp::Gt => {},
        BinOp::Ge => {},
        BinOp::And => {},
        BinOp::Or => {},
    }
}

/// An ordering comparison (`<`, `<=`, `>`, `>=`) accepts two numbers, two
/// `bool`s or two strings without a finding; whatever its operands, its
/// value is a `bool`.  A number against a string is refused.
pub proof fn lemma_comparisons_of_like_operands(op: BinOp, l: Ty, r: Ty)
    requires
        op is Lt || op is Le || op is Gt || op is Ge,
    ensures
        binary_rule(op, l, r).0 == Ty::Bool,
        (is_numeric(l) && is_numeric(r)) ==> !binary_rule(op, l, r).1,
        (l == Ty::Bool && r == Ty::Bool) ==> !binary_rule(op, l, r).1,
        (l == Ty::Str && r == Ty::Str) ==> !binary_rule(op, l, r).1,
        (is_numeric(l) && !is_any(l) && r == Ty::Str) ==> binary_rule(op, l, r).1,
{
}

/// Arithmetic on two numbers is accepted and has the wider of their types;
/// `+` also joins two strings; `==` and `!=` accept anything and give a
/// `bool`; arithmetic other than `+` refuses a string; `and` and `or` give
/// a `bool` and accept two `bool`s.
pub proof fn lemma_arithmetic_and_equality_operands(op: BinOp, l: Ty, r: Ty)
    ensures
        (op is Add || op is Sub || op is Mul || op is Div || op is Rem || op is Pow) && is_numeric(l) && is_numeric(r)
            ==> binary_rule(op, l, r) == (widen_numeric(l, r), false),
        op is Add && l == Ty::Str && r == Ty::Str ==> binary_rule(op, l, r) == (Ty::Str, false),
        (op is Sub || op is Mul || op is Div || op is Rem || op is Pow) && (l == Ty::Str || r == Ty::Str)
            ==> binary_rule(op, l, r).1,
        (op is Eq || op is Ne) ==> binary_rule(op, l, r) == (Ty::Bool, false),
        (op is And || op is Or) ==> binary_rule(op, l, r).0 == Ty::Bool,
        (op is And || op is Or) && l == Ty::Bool && r == Ty::Bool ==> !binary_rule(op, l, r).1,
{
}

/// The operator read from a token is the one that token spells: for every
/// binding level, an operator token gives the operator written exactly as
/// the scanner spells the token (a fixed sign, or the keyword `and`/`or`).
pub proof fn lemma_parsed_operator_is_the_token_read(lvl: nat, t: TokenType)
    ensures
        bin_op(lvl, t) matches Some(op) ==> (match fixed_lexeme(t) {
            Some(text) => binop_text(op) == text,
            None => keyword_type(binop_text(op)) == t,
        }),
{
    reveal_operator_texts();
}

/// The prefix operator read from a token is the one it spells: `-` negates,
/// `!` and the keyword `not` negate a truth value.
pub proof fn lemma_parsed_prefix_is_the_token_read(t: TokenType)
    ensures
        un_op(t) matches Some(u) ==> (match u {
            UnaryOp::Neg => fixed_lexeme(t) == Some("-"@),
            UnaryOp::Not => fixed_lexeme(t) == Some("!"@) || keyword_type("not"@) == t,
        }),
{
    reveal_operator_texts();
}

// ---------------------------------------------------------------------------
// What lowered arithmetic computes

/// The integer an expression made of integer literals, `+`, `-`, `*`,
/// unary `-` and parentheses stands for.
pub open spec fn arith_value(e: Expr) -> Option<int>
    decreases e,
{
    match e {
        Expr::Literal(Literal::Number(n)) => if n@.contains('.') || n@.contains('e') || n@.contains('E') {
            None
        } else {
            parse_i64_spec(n@)
        },
        Expr::Group(inner) => arith_value(*inner),
        Expr::Unary { op: UnaryOp::Neg, right } => match arith_value(*right) {
            Some(v) => Some(-v),
            None => None,
        },
        Expr::Binary { op, left, right } => match (arith_value(*left), arith_value(*right)) {
            (Some(a), Some(b)) => match op {
                BinOp::Add => Some(a + b),
                BinOp::Sub => Some(a - b),
                BinOp::Mul => Some(a * b),
                _ => None,
            },
            _ => None,
        },
        _ => None,
    }
}

/// What the IR arithmetic operators compute, on integers.
pub open spec fn ir_apply(op: IrOp, x: int, y: int) -> int {
    match op {
        IrOp::Add => x + y,
        IrOp::Sub => x - y,
        IrOp::Mul => x * y,
        _ => 0,
    }
}

/// The value slots after one instruction: a constant, a negation or an
/// arithmetic operation sets its destination; other instructions leave
/// the slots alone.
pub open spec fn ir_step(i: InstrV, env: spec_fn(nat) -> int) -> spec_fn(nat) -> int {
    match i {
        InstrV::ConstI64(d, v) => |k: nat| if k == d as nat { v as int } else { env(k) },
        InstrV::Unary(d, op, a) => |k: nat| if k == d as nat {
            if op == IrOp::Neg { -env(a as nat) } else { if env(a as nat) == 0 { 1 } else { 0 } }
        } else {
            env(k)
        },
        InstrV::Binary(d, op, a, b) => |k: nat| if k == d as nat { ir_apply(op, env(a as nat), env(b as nat)) } else { env(k) },
        _ => env,
    }
}

/// The value slots after running `code` from `env`.
pub open spec fn ir_run(code: Seq<InstrV>, env: spec_fn(nat) -> int) -> spec_fn(nat) -> int
    decreases code.len(),
{
    if code.len() == 0 { env } else { ir_run(code.drop_first(), ir_step(code[0], env)) }
}

/// The slot an instruction sets, among those [`ir_step`] runs.
pub open spec fn instr_dest(i: InstrV) -> Option<nat> {
    match i {
        InstrV::ConstI64(d, _) => Some(d as nat),
        InstrV::Unary(d, _, _) => Some(d as nat),
        InstrV::Binary(d, _, _, _) => Some(d as nat),
        _ => None,
    }
}

proof fn lemma_run_concat(x: Seq<InstrV>, y: Seq<InstrV>, env: spec_fn(nat) -> int)
    ensures
        ir_run(x + y, env) == ir_run(y, ir_run(x, env)),
    decreases x.len(),
{
    if x.len() == 0 {
        assert(x + y =~= y);
    } else {
        assert((x + y).drop_first() =~= x.drop_first() + y);
        assert((x + y)[0] == x[0]);
        lemma_run_concat(x.drop_first(), y, ir_step(x[0], env));
    }
}

proof fn lemma_run_frame(code: Seq<InstrV>, env: spec_fn(nat) -> int, k: nat)
    requires
        forall|j: int| 0 <= j < code.len() ==> instr_dest(#[trigger] code[j]) != Some(k),
    ensures
        ir_run(code, env)(k) == env(k),
    decreases code.len(),
{
    if code.len() > 0 {
        assert(instr_dest(code[0]) != Some(k));
        assert forall|j: int| 0 <= j < code.drop_first().len() implies instr_dest(#[trigger] code.drop_first()[j]) != Some(k) by {
            assert(code.drop_first()[j] == code[j + 1]);
        }
        lemma_run_frame(code.drop_first(), ir_step(code[0], env), k);
    }
}

/// Lowering an integer arithmetic expression computes its value: running
/// the code it emits (from any slot values) leaves the expression's value
/// in the slot it names, with every operator applied to its own operands in
/// the order they are written.  The code only sets fresh slots.
pub proof fn lemma_lowered_arithmetic_computes_its_value(e: Expr, s: LowerView,
    ma: Seq<(Seq<char>, Seq<char>)>, ca: Seq<(Seq<char>, Seq<char>)>, env: spec_fn(nat) -> int)
    requires
        arith_value(e) is Some,
        lower_expr_spec(e, s, ma, ca).0.nv <= u32::MAX,
    ensures
        ({
            let (s2, slot) = lower_expr_spec(e, s, ma, ca);
            &&& s.code.len() <= s2.code.len()
            &&& s2.code.take(s.code.len() as int) == s.code
            &&& s.nv <= slot < s2.nv
            &&& forall|j: int| s.code.len() <= j < s2.code.len() ==>
                (instr_dest(#[trigger] s2.code[j]) matches Some(d) ==> s.nv <= d < s2.nv)
            &&& ir_run(s2.code.skip(s.code.len() as int), env)(slot) == arith_value(e)->0
        }),
    decreases e,
{
    let l0 = s.code.len() as int;
    reveal_with_fuel(ir_run, 2);
    match e {
        Expr::Literal(Literal::Number(n)) => {
            let (s2, slot) = lower_expr_spec(e, s, ma, ca);
            let v = parse_i64_spec(n@)->0;
            assert(s2.code =~= s.code.push(InstrV::ConstI64(s.nv as u32, v as i64)));
            assert(s2.code.take(l0) =~= s.code);
            assert(s2.code.skip(l0) =~= seq![InstrV::ConstI64(s.nv as u32, v as i64)]);
            let c = seq![InstrV::ConstI64(s.nv as u32, v as i64)];
            assert(c.drop_first() =~= Seq::<InstrV>::empty());
            assert(i64::MIN <= v <= i64::MAX);
            assert((v as i64) as int == v);
            assert((s.nv as u32) as nat == s.nv);
            assert(ir_run(c, env) == ir_step(c[0], env));
            assert(ir_step(c[0], env)(s.nv) == v);
        },
        Expr::Group(inner) => {
            lemma_lowered_arithmetic_computes_its_value(*inner, s, ma, ca, env);
        },
        Expr::Unary { op, right } => {
            let (s1, src) = lower_expr_spec(*right, s, ma, ca);
            let (s2, slot) = lower_expr_spec(e, s, ma, ca);
            lemma_lowered_arithmetic_computes_its_value(*right, s, ma, ca, env);
            let instr = InstrV::Unary(s1.nv as u32, ir_unary(op), src as u32);
            let cr = s1.code.skip(l0);
            assert(s2.code =~= s1.code.push(instr));
            assert(s2.code.take(l0) =~= s1.code.take(l0));
            assert(s2.code.skip(l0) =~= cr + seq![instr]);
            lemma_run_concat(cr, seq![instr], env);
            assert(seq![instr].drop_first() =~= Seq::<InstrV>::empty());
            assert forall|j: int| l0 <= j < s2.code.len() implies
                (instr_dest(#[trigger] s2.code[j]) matches Some(d) ==> s.nv <= d < s2.nv) by {
                if j < s1.code.len() {
                    assert(s2.code[j] == s1.code[j]);
                }
            }
        },
        Expr::Binary { op, left, right } => {
            let (s1, a) = lower_expr_spec(*left, s, ma, ca);
            let (s2, b) = lower_expr_spec(*right, s1, ma, ca);
            let (s3, slot) = lower_expr_spec(e, s, ma, ca);
            lemma_lowered_arithmetic_computes_its_value(*right, s1, ma, ca, ir_run(s1.code.skip(l0), env));
            lemma_lowered_arithmetic_computes_its_value(*left, s, ma, ca, env);
            let l1 = s1.code.len() as int;
            let instr = InstrV::Binary(s2.nv as u32, ir_binary(op), a as u32, b as u32);
            let cl = s1.code.skip(l0);
            let cr = s2.code.skip(l1);
            assert(s3.code =~= s2.code.push(instr));
            assert(s2.code.take(l0) =~= s1.code.take(l0)) by {
                assert(s2.code.take(l1).take(l0) =~= s2.code.take(l0));
            }
            assert(s3.code.take(l0) =~= s2.code.take(l0));
            assert(s3.code.skip(l0) =~= cl + cr + seq![instr]) by {
                assert(s2.code =~= s1.code + cr) by {
                    assert(s2.code.take(l1) =~= s1.code);
                }
            }
            let env1 = ir_run(cl, env);
            lemma_run_concat(cl + cr, seq![instr], env);
            lemma_run_concat(cl, cr, env);
            assert(seq![instr].drop_first() =~= Seq::<InstrV>::empty());
            assert forall|j: int| 0 <= j < cr.len() implies instr_dest(#[trigger] cr[j]) != Some(a) by {
                assert(cr[j] == s2.code[l1 + j]);
            }
            lemma_run_frame(cr, env1, a);
            assert forall|j: int| l0 <= j < s3.code.len() implies
                (instr_dest(#[trigger] s3.code[j]) matches Some(d) ==> s.nv <= d < s3.nv) by {
                if j < l1 {
                    assert(s3.code[j] == s1.code[j]);
                } else if j < s2.code.len() {
                    assert(s3.code[j] == s2.code[j]);
                }
            }
        },
        _ => {},
    }
}

} // verus!
