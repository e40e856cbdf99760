use hyper::ast::BinOp;
use hyper::cli::{parse_compile_mode, CompileMode};
use hyper::ir::IrOp;

fn args(v: Vec<&str>) -> Vec<String> {
    v.into_iter().map(|s| s.to_string()).collect()
}

#[test]
fn compile_options_select_the_output() {
    assert_eq!(parse_compile_mode(&args(vec![])), Ok(CompileMode::Jit));
    assert_eq!(parse_compile_mode(&args(vec!["--emit-ir"])), Ok(CompileMode::EmitIr));
    assert_eq!(
        parse_compile_mode(&args(vec!["--emit-obj"])),
        Ok(CompileMode::EmitObj { path: "a.o".to_string() })
    );
    assert_eq!(
        parse_compile_mode(&args(vec!["--emit-exe", "out"])),
        Ok(CompileMode::EmitExe { path: "out".to_string() })
    );
    assert_eq!(
        parse_compile_mode(&args(vec!["--fast"])),
        Err("Unknown compile option: --fast".to_string())
    );
}

#[test]
fn ir_operators_have_dump_names() {
    assert_eq!(IrOp::Add.name(), "add");
    assert_eq!(IrOp::Ge.name(), "ge");
    assert_eq!(IrOp::Not.name(), "not");
    assert_eq!(IrOp::of_binary(&BinOp::Rem), IrOp::Rem);
}
