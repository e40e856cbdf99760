use hyper::module::{
    builtin_module_members, mangle_module_fn, module_candidates, parse_module_file,
    resolve_module_path, LoadStep, ModuleLoadState,
};

#[test]
fn imported_functions_get_module_prefixed_names() {
    assert_eq!(mangle_module_fn("math", "add"), "math__add");
}

#[test]
fn json_is_a_builtin_module() {
    assert_eq!(builtin_module_members("json"), Some(vec!["loads", "dumps", "load", "dump"]));
    assert_eq!(builtin_module_members("math"), None);
}

#[test]
fn module_files_are_looked_up_in_order() {
    let (direct, nested) = module_candidates("lib", "math");
    assert_eq!(direct, "lib/math.hyp");
    assert_eq!(nested, "lib/math/mod.hyp");
    assert_eq!(resolve_module_path("lib", "math", true, true), Ok("lib/math.hyp".to_string()));
    assert_eq!(resolve_module_path("lib", "math", false, true), Ok("lib/math/mod.hyp".to_string()));
    assert_eq!(
        resolve_module_path("lib", "math", false, false),
        Err("module 'math' not found (looked for lib/math.hyp and lib/math/mod.hyp)".to_string())
    );
}

#[test]
fn loader_resolves_against_the_entry_directory() {
    assert_eq!(ModuleLoadState::new("src/main.hyp").base_dir, "src");
    assert_eq!(ModuleLoadState::new("main.hyp").base_dir, "");
    assert_eq!(ModuleLoadState::new("").base_dir, ".");
}

#[test]
fn loader_caches_parsed_modules_and_refuses_cycles() {
    let mut state = ModuleLoadState::new("main.hyp");
    assert_eq!(state.load_stmts("a", "/p/a.hyp"), LoadStep::NeedsSource);
    assert_eq!(
        state.load_stmts("a", "/p/a.hyp"),
        LoadStep::Circular("circular import involving module 'a'".to_string())
    );
    let index = state.finish_load("/p/a.hyp", "a.hyp", "let x = 1\n").unwrap();
    assert_eq!(index, 0);
    assert_eq!(state.load_stmts("a", "/p/a.hyp"), LoadStep::Cached(0));
    assert_eq!(state.stmts(0).len(), 1);
}

#[test]
fn syntax_errors_in_modules_name_the_file() {
    assert_eq!(parse_module_file("b.hyp", "let = \n").unwrap_err(), "syntax error in b.hyp");
    let mut state = ModuleLoadState::new("main.hyp");
    assert_eq!(state.load_stmts("b", "/p/b.hyp"), LoadStep::NeedsSource);
    assert_eq!(
        state.finish_load("/p/b.hyp", "b.hyp", "let = \n"),
        Err("syntax error in b.hyp".to_string())
    );
    assert_eq!(state.load_stmts("b", "/p/b.hyp"), LoadStep::NeedsSource);
    assert_eq!(state.finish_load("/p/b.hyp", "b.hyp", "let y = 2\n"), Ok(0));
}

#[test]
fn an_unreadable_module_can_be_asked_for_again() {
    let mut state = ModuleLoadState::new("/p/main.hyp");
    assert_eq!(state.load_stmts("c", "/p/c.hyp"), LoadStep::NeedsSource);
    state.abandon_load("/p/c.hyp");
    assert_eq!(state.load_stmts("c", "/p/c.hyp"), LoadStep::NeedsSource);
    assert_eq!(state.finish_load("/p/c.hyp", "c.hyp", "let z = 3\n"), Ok(0));
    assert_eq!(state.load_stmts("c", "/p/c.hyp"), LoadStep::Cached(0));
}
