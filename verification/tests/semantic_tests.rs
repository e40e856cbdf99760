use hyper::types::{is_compatible_exec, HyperType};
use hyper::driver::parse_program;
use hyper::semantic::typecheck;

fn check(source: &str) -> Result<(), Vec<String>> {
    let stmts = parse_program(source).expect("source should parse");
    typecheck(&stmts)
}

#[test]
fn functions_may_be_called_before_they_are_defined() {
    check(
        "fn outer(n: i64) -> i64:\n\
         \x20   return inner(n) + 1\n\
         \n\
         fn inner(n: i64) -> i64:\n\
         \x20   return n * 2\n\
         \n\
         print(outer(4))\n",
    )
    .expect("a forward call should typecheck");
}

#[test]
fn inferred_counter_accepts_a_wider_number() {
    check(
        "let mut total = 0\n\
         for i in range(3):\n\
         \x20   total = total + i\n",
    )
    .expect("an inferred counter should widen");
}

#[test]
fn literal_fits_smaller_integer_annotation() {
    check("let a: i8 = -128\n").expect("i8 literal should fit");
    check("let pi: float32 = 3.14\n").expect("float literal should fit f32");
}

#[test]
fn annotated_variable_keeps_its_type() {
    let errors = check(
        "let mut total: i32 = 0\n\
         for i in range(3):\n\
         \x20   total = i\n",
    )
    .expect_err("an annotated variable should not widen");
    assert!(
        errors.iter().any(|e| e.contains("cannot assign")),
        "unexpected errors: {:?}",
        errors
    );
}

#[test]
fn a_float_destination_accepts_a_wider_float() {
    assert!(is_compatible_exec(&HyperType::F32, &HyperType::F64));
    assert!(!is_compatible_exec(&HyperType::I32, &HyperType::I64));
}

#[test]
fn loop_variable_is_gone_after_the_loop() {
    let errors = check(
        "for i in range(3):\n\
         \x20   let j = i\n\
         print(i)\n\
         print(j)\n",
    )
    .expect_err("names bound by a loop should not outlive it");
    assert!(errors.iter().any(|e| e.contains("Undefined variable 'i'")), "unexpected errors: {:?}", errors);
    assert!(errors.iter().any(|e| e.contains("Undefined variable 'j'")), "unexpected errors: {:?}", errors);
}

#[test]
fn return_type_is_restored_after_a_function() {
    check(
        "fn f() -> i64:\n\
         \x20   return 1\n\
         \n\
         fn g() -> str:\n\
         \x20   return \"x\"\n",
    )
    .expect("each function checks its returns against its own type");
}
