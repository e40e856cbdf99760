use hyper::driver::{parse_expression, parse_program};

fn expr(source: &str) -> String {
    parse_expression(source).unwrap().render()
}

fn first_stmt(source: &str) -> String {
    parse_program(source).unwrap()[0].render()
}

#[test]
fn expressions_print_as_prefix_forms() {
    assert_eq!(expr("1 + 2 * 3"), "(+ 1 (* 2 3))");
    assert_eq!(expr("-x"), "(- let_ref:x)");
    assert_eq!(expr("not (a and b)"), "(not (group (and let_ref:a let_ref:b)))");
    assert_eq!(expr("[1, 2]"), "(list 1 2)");
    assert_eq!(expr("[]"), "(list)");
    assert_eq!(expr("f()"), "(call let_ref:f)");
    assert_eq!(expr("f(1, 2)"), "(call let_ref:f 1 2)");
    assert_eq!(expr("\"a\\\"b\""), "\"a\\\"b\"");
}

#[test]
fn statements_print_with_their_lines() {
    assert_eq!(first_stmt("let x = 1\n"), "(let line:1 immut x type:None 1)");
    assert_eq!(first_stmt("print(1, 2)\n"), "(print line:1 1 2)");
}

#[test]
fn parse_errors_are_reported() {
    let messages = parse_expression("1 +").unwrap_err();
    assert!(!messages.is_empty());
}
