use hyper::driver::parse_program;
use hyper::ir::IrOp;
use hyper::lower::{lower_program, lowering_fits, IrInstr, IrModule};

fn lower(source: &str) -> IrModule {
    let stmts = parse_program(source).unwrap();
    assert!(lowering_fits(&stmts));
    lower_program(&stmts)
}

#[test]
fn a_let_lowers_to_constants_an_operation_and_a_store() {
    let m = lower("let x = 1 + 2\n");
    assert!(m.functions.is_empty());
    assert_eq!(
        m.main,
        vec![
            IrInstr::ConstI64 { dest: 0, value: 1 },
            IrInstr::ConstI64 { dest: 1, value: 2 },
            IrInstr::Binary { dest: 2, op: IrOp::Add, left: 0, right: 1 },
            IrInstr::Store { name: "x".to_string(), value: 2 },
        ]
    );
}

#[test]
fn a_fractional_number_keeps_its_text() {
    let m = lower("let y = 2.5\n");
    assert_eq!(m.main[0], IrInstr::ConstF64 { dest: 0, text: "2.5".to_string() });
}

#[test]
fn a_function_is_lowered_on_its_own_counters() {
    let m = lower("let a = 7\nfn f(n: i64) -> i64:\n    return n\nprint(f(1))\n");
    assert_eq!(m.functions.len(), 1);
    assert_eq!(m.functions[0].name, "f");
    assert_eq!(m.functions[0].params, vec!["n".to_string()]);
    assert_eq!(
        m.functions[0].body,
        vec![IrInstr::Load { dest: 0, name: "n".to_string() }, IrInstr::Return { value: Some(0) }]
    );
    assert_eq!(
        m.main,
        vec![
            IrInstr::ConstI64 { dest: 0, value: 7 },
            IrInstr::Store { name: "a".to_string(), value: 0 },
            IrInstr::ConstI64 { dest: 1, value: 1 },
            IrInstr::Call { dest: 2, func: "f".to_string(), args: vec![1] },
            IrInstr::Print { args: vec![2] },
        ]
    );
}

#[test]
fn a_ternary_goes_through_a_named_slot() {
    let m = lower("let t = 1 if c else 2\n");
    assert_eq!(
        m.main,
        vec![
            IrInstr::Load { dest: 0, name: "c".to_string() },
            IrInstr::Branch { cond: 0, then_block: 0, else_block: 1 },
            IrInstr::Label { block: 0 },
            IrInstr::ConstI64 { dest: 1, value: 1 },
            IrInstr::Store { name: "__ternary_0".to_string(), value: 1 },
            IrInstr::Jump { target: 2 },
            IrInstr::Label { block: 1 },
            IrInstr::ConstI64 { dest: 2, value: 2 },
            IrInstr::Store { name: "__ternary_0".to_string(), value: 2 },
            IrInstr::Jump { target: 2 },
            IrInstr::Label { block: 2 },
            IrInstr::Load { dest: 3, name: "__ternary_0".to_string() },
            IrInstr::Store { name: "t".to_string(), value: 3 },
        ]
    );
}

#[test]
fn a_range_loop_counts_its_variable_up() {
    let m = lower("for i in range(3):\n    print(i)\n");
    assert_eq!(
        m.main,
        vec![
            IrInstr::ConstI64 { dest: 0, value: 0 },
            IrInstr::ConstI64 { dest: 1, value: 3 },
            IrInstr::Store { name: "i".to_string(), value: 0 },
            IrInstr::Jump { target: 0 },
            IrInstr::Label { block: 0 },
            IrInstr::Load { dest: 2, name: "i".to_string() },
            IrInstr::Binary { dest: 3, op: IrOp::Lt, left: 2, right: 1 },
            IrInstr::Branch { cond: 3, then_block: 1, else_block: 2 },
            IrInstr::Label { block: 1 },
            IrInstr::Load { dest: 4, name: "i".to_string() },
            IrInstr::Print { args: vec![4] },
            IrInstr::Load { dest: 5, name: "i".to_string() },
            IrInstr::ConstI64 { dest: 6, value: 1 },
            IrInstr::Binary { dest: 7, op: IrOp::Add, left: 5, right: 6 },
            IrInstr::Store { name: "i".to_string(), value: 7 },
            IrInstr::Jump { target: 0 },
            IrInstr::Label { block: 2 },
        ]
    );
}

#[test]
fn module_aliases_reach_mangled_names() {
    let m = lower("import math as m\nlet z = m.pi\nfrom util import add as plus\nlet w = plus(1)\n");
    assert_eq!(m.main[0], IrInstr::Load { dest: 0, name: "math__pi".to_string() });
    assert_eq!(m.main[3], IrInstr::Call { dest: 2, func: "util__add".to_string(), args: vec![1] });
}

#[test]
fn f_strings_are_joined_piece_by_piece() {
    let m = lower("let s = f\"a{x}\"\n");
    assert_eq!(
        m.main,
        vec![
            IrInstr::ConstStr { dest: 0, value: String::new() },
            IrInstr::ConstStr { dest: 1, value: "a".to_string() },
            IrInstr::StrConcat { dest: 2, left: 0, right: 1 },
            IrInstr::Load { dest: 3, name: "x".to_string() },
            IrInstr::ValueToStr { dest: 4, src: 3 },
            IrInstr::StrConcat { dest: 5, left: 2, right: 4 },
            IrInstr::Store { name: "s".to_string(), value: 5 },
        ]
    );
}

#[test]
fn a_while_loop_tests_at_its_header() {
    let m = lower("while c:\n    x = 1\n");
    assert_eq!(
        m.main,
        vec![
            IrInstr::Jump { target: 0 },
            IrInstr::Label { block: 0 },
            IrInstr::Load { dest: 0, name: "c".to_string() },
            IrInstr::Branch { cond: 0, then_block: 1, else_block: 2 },
            IrInstr::Label { block: 1 },
            IrInstr::ConstI64 { dest: 1, value: 1 },
            IrInstr::Store { name: "x".to_string(), value: 1 },
            IrInstr::Jump { target: 0 },
            IrInstr::Label { block: 2 },
        ]
    );
}

#[test]
fn an_if_with_else_joins_at_a_merge_label() {
    let m = lower("if c:\n    print(1)\nelse:\n    print(2)\n");
    assert_eq!(
        m.main,
        vec![
            IrInstr::Load { dest: 0, name: "c".to_string() },
            IrInstr::Branch { cond: 0, then_block: 0, else_block: 1 },
            IrInstr::Label { block: 0 },
            IrInstr::ConstI64 { dest: 1, value: 1 },
            IrInstr::Print { args: vec![1] },
            IrInstr::Jump { target: 2 },
            IrInstr::Label { block: 1 },
            IrInstr::ConstI64 { dest: 2, value: 2 },
            IrInstr::Print { args: vec![2] },
            IrInstr::Jump { target: 2 },
            IrInstr::Label { block: 2 },
        ]
    );
}

#[test]
fn a_bare_return_and_a_struct_marker() {
    let m = lower("fn g():\n    return\nstruct P:\n    let x: i64\n");
    assert_eq!(m.functions[0].body, vec![IrInstr::Return { value: None }]);
    assert_eq!(
        m.main,
        vec![
            IrInstr::ConstStr { dest: 0, value: "struct:P".to_string() },
            IrInstr::Store { name: "P".to_string(), value: 0 },
        ]
    );
}
