use track::checker::calls::levenshtein_distance;
use track::checker::{LinearChecker, VariableState};
use track::compile_source;
use track::lexer::Lexer;
use track::parser::Parser;

fn state(c: &LinearChecker, name: &str) -> Option<VariableState> {
    c.registry.get(name).copied()
}

#[test]
fn move_spends_a_linear_resource_and_a_second_read_fails() {
    let mut c = LinearChecker::new();
    c.declare("v".to_string());
    assert_eq!(state(&c, "v"), Some(VariableState::Active));
    assert!(c.read_or_move("v").is_ok());
    assert_eq!(state(&c, "v"), Some(VariableState::Spent));
    let err = c.read_or_move("v").unwrap_err();
    assert_eq!(err, "Compile Error: Use-after-free! Resource 'v' is already spent.");
    assert_eq!(state(&c, "v"), Some(VariableState::Spent));
}

#[test]
fn reading_a_copy_variable_keeps_it_active() {
    let program = compile_source("fn main() -> void { let x: i32 = 1; let y = x; let z = x; }");
    assert!(program.is_ok());
    let mut c = LinearChecker::new();
    c.declare("Color::Red".to_string());
    assert!(c.is_copy_var("Color::Red"));
    assert!(c.read_or_move("Color::Red").is_ok());
    assert!(c.read_or_move("Color::Red").is_ok());
    assert_eq!(state(&c, "Color::Red"), Some(VariableState::Active));
}

#[test]
fn reading_an_undeclared_variable_fails() {
    let mut c = LinearChecker::new();
    assert_eq!(c.read_or_move("ghost").unwrap_err(), "Compile Error: Undeclared variable 'ghost'.");
    assert_eq!(c.borrow_var("ghost").unwrap_err(), "Compile Error: Undeclared variable 'ghost'.");
}

#[test]
fn lens_round_trip_restores_the_resource() {
    let mut c = LinearChecker::new();
    c.declare("u".to_string());
    assert!(c.enter_lens("u").is_ok());
    assert_eq!(state(&c, "u"), Some(VariableState::Locked));
    assert!(c.lens_locked.contains("u"));
    assert_eq!(
        c.read_or_move("u").unwrap_err(),
        "Compile Error: Resource 'u' is frozen (either locked in a lens or borrowed)."
    );
    assert_eq!(c.borrow_var("u").unwrap_err(), "Compile Error: Cannot borrow locked resource 'u'.");
    c.exit_lens("u");
    assert_eq!(state(&c, "u"), Some(VariableState::Active));
    assert!(!c.lens_locked.contains("u"));
}

#[test]
fn a_lens_needs_an_active_resource() {
    let mut c = LinearChecker::new();
    c.declare("u".to_string());
    assert!(c.read_or_move("u").is_ok());
    assert_eq!(c.enter_lens("u").unwrap_err(), "Compile Error: Cannot create lens. 'u' is not Active.");
    assert_eq!(c.borrow_var("u").unwrap_err(), "Compile Error: Cannot borrow spent resource 'u'.");
}

#[test]
fn an_active_borrow_freezes_its_target_until_it_ends() {
    let mut c = LinearChecker::new();
    c.declare("x".to_string());
    c.declare("r".to_string());
    c.borrows.insert("r".to_string(), vec!["x".to_string()]);
    c.update_borrow_states();
    assert_eq!(state(&c, "x"), Some(VariableState::Locked));
    assert_eq!(state(&c, "r"), Some(VariableState::Active));
    c.registry.insert("r".to_string(), VariableState::Spent);
    c.update_borrow_states();
    assert_eq!(state(&c, "x"), Some(VariableState::Active));
}

#[test]
fn settling_never_revives_a_spent_resource() {
    let mut c = LinearChecker::new();
    c.declare("x".to_string());
    c.registry.insert("x".to_string(), VariableState::Spent);
    c.update_borrow_states();
    assert_eq!(state(&c, "x"), Some(VariableState::Spent));
}

#[test]
fn borrowing_a_moved_value_is_refused() {
    let res = compile_source(
        "fn consume(v: Vec) -> void {} fn main() -> void { let v: Vec = vec_init(1); consume(v); let r = &v; }",
    );
    assert_eq!(res.unwrap_err(), "Compile Error: Cannot borrow spent resource 'v'.");
}

#[test]
fn reassigning_an_immutable_variable_is_refused() {
    let res = compile_source("fn main() -> void { let x = 1; x = 2; }");
    assert_eq!(
        res.unwrap_err(),
        "Compile Error: Cannot mutate immutable variable 'x'. Use 'let mut x' to declare a mutable variable."
    );
}

#[test]
fn branches_that_disagree_are_refused_with_both_states() {
    let res = compile_source(
        "fn consume(v: Vec) -> void {} fn main() -> void { let v: Vec = vec_init(1); if true { consume(v); } else { } }",
    );
    assert_eq!(
        res.unwrap_err(),
        "Compile Error: Resource 'v' has inconsistent state after if/else. Then branch: Spent, Else branch: Active"
    );
}

#[test]
fn consuming_an_outer_resource_in_a_loop_is_refused() {
    let res = compile_source(
        "fn consume(v: Vec) -> void {} fn main() -> void { let v: Vec = vec_init(1); while true { consume(v); } }",
    );
    assert_eq!(
        res.unwrap_err(),
        "Compile Error: Cannot consume linear resource 'v' inside a loop. It was declared outside the loop and would be double-freed/moved on subsequent iterations."
    );
    let res = compile_source(
        "fn consume(v: Vec) -> void {} fn main() -> void { let v: Vec = vec_init(1); for i in 0..3 { consume(v); } }",
    );
    assert_eq!(res.unwrap_err(), "Compile Error: Cannot consume linear resource 'v' inside a loop.");
}

#[test]
fn compiler_managed_functions_cannot_be_called() {
    let res = compile_source("fn main() -> void { let v: Vec = vec_init(1); vec_free(v); }");
    assert_eq!(
        res.unwrap_err(),
        "Compile Error: 'vec_free' is managed automatically by the compiler. Linear types are freed at their spend points — do not call this directly."
    );
}

#[test]
fn a_misspelled_function_gets_a_suggestion() {
    let res = compile_source("fn main() -> void { prnt(1); }");
    assert_eq!(res.unwrap_err(), "Compile Error: Undefined function 'prnt'. Did you mean 'print'?");
    let res = compile_source("fn main() -> void { zzzzzzzz(1); }");
    assert!(res.is_ok());
}

#[test]
fn levenshtein_distances() {
    assert_eq!(levenshtein_distance("kitten", "sitting"), 3);
    assert_eq!(levenshtein_distance("", "abc"), 3);
    assert_eq!(levenshtein_distance("print", "print"), 0);
    assert_eq!(levenshtein_distance("prnt", "print"), 1);
}

#[test]
fn a_lens_cannot_escape_its_block() {
    let res = compile_source("fn main() -> void { let mut u = User { age: 1 }; with u -> user { let k = user; } }");
    assert_eq!(
        res.unwrap_err(),
        "Compile Error: Lens 'user' cannot be moved, stored, returned, or escape its with block."
    );
}

#[test]
fn returning_a_reference_to_a_local_is_refused() {
    let res = compile_source("fn f() -> &Vec { let v: Vec = vec_init(1); return &v; }");
    assert_eq!(
        res.unwrap_err(),
        "Compile Error: Cannot return reference to local variable 'v' (escapes function scope)."
    );
    let ok = compile_source("fn f(v: &Vec) -> &Vec { return v; }");
    assert!(ok.is_ok());
}

#[test]
fn tuple_index_out_of_bounds() {
    let res = compile_source("fn main() -> void { let t: (i32, i32) = (1, 2); let x = t.5; }");
    assert_eq!(res.unwrap_err(), "Compile Error: Tuple index 5 out of bounds for tuple of length 2");
}

#[test]
fn compile_error_macro() {
    let res = compile_source("fn main() -> void { @compile_error(\"stop here\"); }");
    assert_eq!(res.unwrap_err(), "Compile Error: stop here");
    let res = compile_source("fn main() -> void { @compile_error(1); }");
    assert_eq!(res.unwrap_err(), "Compile Error: @compile_error requires a string message");
}

#[test]
fn imports_of_standard_modules() {
    assert!(compile_source("import \"std/io\"; fn main() -> void { io::print(1); }").is_ok());
    assert!(compile_source("import \"std/io\" :: { print, read }; fn main() -> void { read(); }").is_ok());
    assert!(compile_source("import \"math/vec\" as math :: { add, sub }; fn main() -> void { math::add(1, 2); }").is_ok());
    let res = compile_source("import \"std/io\" :: { nothing }; fn main() -> void {}");
    assert_eq!(res.unwrap_err(), "Compile Error: Module 'std/io' does not export 'nothing'");
    let res = compile_source("import \"nowhere/at_all\"; fn main() -> void {}");
    assert_eq!(res.unwrap_err(), "Compile Error: Unknown module 'nowhere/at_all'");
}

#[test]
fn local_modules_are_checked_once() {
    let src = "import \"util\"; import \"util\"; fn main() -> void { helper(1); }";
    let modules = vec![("src/util.trk".to_string(), "fn helper(x: i32) -> i32 { return x; }".to_string())];
    assert!(track::compile_source_with_modules(src, modules).is_ok());
    let candidates = track::import_candidates_of_source(src);
    assert_eq!(candidates[0], "src/util.trk");
    assert_eq!(candidates[1], "util.trk");
    assert_eq!(candidates.len(), 14);
    let bad = vec![("src/util.trk".to_string(), "fn helper( {".to_string())];
    assert!(track::compile_source_with_modules("import \"util\";", bad)
        .unwrap_err()
        .starts_with("Parse error in 'src/util.trk': "));
}

#[test]
fn barebones_checker_has_no_builtins() {
    let tokens = track::lexer::Lexer::tokenize("fn main() -> void { prnt(1); }").unwrap();
    let mut p = track::parser::Parser::new(tokens, String::new());
    let program = p.parse_program().unwrap();
    let mut c = LinearChecker::new_barebones();
    assert!(c.check_program(&program).is_ok());
    let mut c = LinearChecker::new();
    assert!(c.check_program(&program).is_err());
}

#[test]
fn lexer_errors_pass_through_compile_source() {
    let res = compile_source("let x = 1 $ 2;");
    assert_eq!(res.unwrap_err(), "Lexer error at 10..11: unexpected character '$'");
}

#[test]
fn several_shared_borrows_are_accepted() {
    let s = "fn main() -> void { let x = [1, 2, 3]; let r1 = &x; let r2 = &x; }";
    let program = Parser::new(Lexer::tokenize(s).unwrap(), s.to_string()).parse_program().unwrap();
    let mut c = LinearChecker::new();
    assert_eq!(c.check_program(&program), Ok(()));
}

#[test]
fn edit_distance_is_symmetric_and_zero_only_on_equal_texts() {
    assert_eq!(levenshtein_distance("kitten", "sitting"), levenshtein_distance("sitting", "kitten"));
    assert_eq!(levenshtein_distance("print", "print"), 0);
    assert!(levenshtein_distance("print", "prnt") > 0);
}
