use hyper::ast::{BinOp, CallArg, Expr, FStringPart, ForIter, ForKind, Literal, Stmt, TypeAnn, UnaryOp};
use hyper::driver::{parse_expression, parse_program};

fn num(text: &str) -> Box<Expr> {
    Box::new(Expr::Literal(Literal::Number(text.to_string())))
}

#[test]
fn let_statement_is_parsed() {
    let stmts = parse_program("let x = 1\n").unwrap();
    assert_eq!(
        stmts,
        vec![Stmt::Let {
            line: 1,
            is_mutable: false,
            name: "x".to_string(),
            type_ann: TypeAnn::Unannotated,
            initializer: Expr::Literal(Literal::Number("1".to_string())),
        }]
    );
}

#[test]
fn multiplication_binds_tighter_than_addition() {
    let stmts = parse_program("1 + 2 * 3\n").unwrap();
    assert_eq!(
        stmts,
        vec![Stmt::Expr {
            line: 1,
            expr: Expr::Binary {
                op: BinOp::Add,
                left: num("1"),
                right: Box::new(Expr::Binary { op: BinOp::Mul, left: num("2"), right: num("3") }),
            },
        }]
    );
}

#[test]
fn binary_operators_associate_to_the_left() {
    let e = parse_expression("8 - 3 - 2").unwrap();
    assert_eq!(
        e,
        Expr::Binary {
            op: BinOp::Sub,
            left: Box::new(Expr::Binary { op: BinOp::Sub, left: num("8"), right: num("3") }),
            right: num("2"),
        }
    );
}

#[test]
fn assignment_associates_to_the_right() {
    let e = parse_expression("a = b = 2").unwrap();
    assert_eq!(
        e,
        Expr::Assign {
            name: "a".to_string(),
            value: Box::new(Expr::Assign { name: "b".to_string(), value: num("2") }),
        }
    );
}

#[test]
fn invalid_assignment_target_is_an_error() {
    assert!(parse_expression("1 = 2").is_err());
}

#[test]
fn a_scan_error_stops_before_parsing() {
    let messages = parse_program("let x = 1\n    let y = 2\n").unwrap_err();
    assert_eq!(messages.len(), 1);
}

#[test]
fn unary_and_ternary_forms() {
    let e = parse_expression("-x if c else not y").unwrap();
    assert_eq!(
        e,
        Expr::Ternary {
            condition: Box::new(Expr::Variable { name: "c".to_string(), line: 1 }),
            then_branch: Box::new(Expr::Unary {
                op: UnaryOp::Neg,
                right: Box::new(Expr::Variable { name: "x".to_string(), line: 1 }),
            }),
            else_branch: Box::new(Expr::Unary {
                op: UnaryOp::Not,
                right: Box::new(Expr::Variable { name: "y".to_string(), line: 1 }),
            }),
        }
    );
}

#[test]
fn calls_take_named_and_positional_arguments() {
    let e = parse_expression("f(1, key: 2)").unwrap();
    assert_eq!(
        e,
        Expr::Call {
            callee: Box::new(Expr::Variable { name: "f".to_string(), line: 1 }),
            args: vec![
                CallArg::Positional(Expr::Literal(Literal::Number("1".to_string()))),
                CallArg::Named { name: "key".to_string(), value: Expr::Literal(Literal::Number("2".to_string())) },
            ],
        }
    );
}

#[test]
fn empty_braces_make_an_empty_list_and_pairs_a_dict() {
    assert_eq!(parse_expression("{}").unwrap(), Expr::List(vec![]));
    assert_eq!(
        parse_expression("{1: 2,}").unwrap(),
        Expr::Dict(vec![(Expr::Literal(Literal::Number("1".to_string())), Expr::Literal(Literal::Number("2".to_string())))])
    );
}

#[test]
fn f_string_parts_are_split() {
    let e = parse_expression("f\"a{x}b\"").unwrap();
    assert_eq!(
        e,
        Expr::FString {
            line: 1,
            parts: vec![
                FStringPart::Literal("a".to_string()),
                FStringPart::Expr(Expr::Variable { name: "x".to_string(), line: 1 }),
                FStringPart::Literal("b".to_string()),
            ],
        }
    );
}

#[test]
fn range_loop_defaults_its_start_to_zero() {
    let stmts = parse_program("@parallel\nfor i in range(3):\n    print(i)\n").unwrap();
    match &stmts[0] {
        Stmt::For { kind, var, iter, .. } => {
            assert_eq!(*kind, ForKind::Parallel);
            assert_eq!(var, "i");
            assert_eq!(
                *iter,
                ForIter::Range {
                    start: Expr::Literal(Literal::Number("0".to_string())),
                    end: Expr::Literal(Literal::Number("3".to_string())),
                }
            );
        },
        other => panic!("expected a for loop, got {:?}", other),
    }
}

#[test]
fn unknown_decorator_is_an_error() {
    assert!(parse_program("@fast\nfor i in range(3):\n    print(i)\n").is_err());
}

#[test]
fn trailing_tokens_after_an_expression_are_an_error() {
    assert!(parse_expression("1 2").is_err());
}
