use track::ast::{Expr, TrackType};
use track::collections::StrMap;
use track::lexer::Lexer;
use track::mono::monomorphize;
use track::mono::types::{base_name, mangle, sanitize, substitute_ty, type_tag};
use track::parser::Parser;

fn parse(source: &str) -> Vec<Expr> {
    let tokens = Lexer::tokenize(source).unwrap();
    let mut p = Parser::new(tokens, source.to_string());
    p.parse_program().unwrap()
}

fn fn_names(program: &[Expr]) -> Vec<String> {
    program
        .iter()
        .filter_map(|e| match e {
            Expr::FnDef { name, .. } => Some(name.clone()),
            _ => None,
        })
        .collect()
}

fn call_names(body: &[Expr]) -> Vec<String> {
    let mut out = Vec::new();
    for e in body {
        if let Expr::LetDef { value, .. } = e {
            if let Expr::FunctionCall { name, .. } = value.as_ref() {
                out.push(name.clone());
            }
        }
    }
    out
}

#[test]
fn instances_are_named_by_their_bindings() {
    let mut program = parse(
        "fn identity<T>(x: T) -> T { return x; } fn pair<T, U>(a: T, b: U) -> (T, U) { return (a, b); } fn main() -> void { let a: i32 = 5; let p = identity(a); let b: i64 = 10; let q = identity(b); let r = pair(1, true); }",
    );
    let before = program.len();
    assert!(monomorphize(&mut program).is_ok());
    let names = fn_names(&program[before..]);
    assert!(names.contains(&"identity__Ti32".to_string()));
    assert!(names.contains(&"identity__Ti64".to_string()));
    assert!(names.contains(&"pair__Ti32_Ubool".to_string()));
    assert_eq!(names.len(), 3);
    if let Expr::FnDef { body, .. } = &program[2] {
        assert_eq!(call_names(body), vec!["identity__Ti32", "identity__Ti64", "pair__Ti32_Ubool"]);
    } else {
        panic!("expected main");
    }
}

#[test]
fn nested_generic_calls_infer_through_results() {
    let mut program = parse(
        "fn identity<T>(x: T) -> T { return x; } fn pair<T, U>(a: T, b: U) -> (T, U) { return (a, b); } fn main() -> void { let z = pair(identity(1), identity(2)); }",
    );
    assert!(monomorphize(&mut program).is_ok());
    let names = fn_names(&program);
    assert!(names.contains(&"pair__Ti32_Ui32".to_string()));
}

#[test]
fn a_program_without_templates_is_unchanged() {
    let mut program = parse("fn main() -> void { let x = 1; }");
    let copy = program.clone();
    assert!(monomorphize(&mut program).is_ok());
    assert_eq!(program, copy);
}

#[test]
fn generic_errors() {
    let mut program = parse("fn identity<T>(x: T) -> T { return x; } fn main() -> void { let q = identity(y); }");
    assert_eq!(
        monomorphize(&mut program).unwrap_err(),
        "Compile Error: cannot infer type parameter for an argument of 'identity' — annotate it first, e.g. `let x: i64 = ...`"
    );
    let mut program = parse("fn identity<T>(x: T) -> T { return x; } fn main() -> void { let q = identity(1, 2); }");
    assert_eq!(
        monomorphize(&mut program).unwrap_err(),
        "Compile Error: generic function 'identity' expects 1 argument(s), got 2"
    );
    let mut program = parse("fn f<T>(x: T) -> T { return x; } fn f<U>(x: U) -> U { return x; }");
    let copy = program.clone();
    assert_eq!(
        monomorphize(&mut program).unwrap_err(),
        "Compile Error: duplicate generic function definition 'f'"
    );
    assert_eq!(program, copy);
    let mut program = parse("fn same<T>(a: T, b: T) -> T { return a; } fn main() -> void { let q = same(1, true); }");
    assert_eq!(
        monomorphize(&mut program).unwrap_err(),
        "Compile Error: conflicting types for 'T' in 'same': I32 vs Bool"
    );
    let mut program = parse("fn mk<T>() -> T { return 0; } fn main() -> void { let q = mk(); }");
    assert_eq!(
        monomorphize(&mut program).unwrap_err(),
        "Compile Error: cannot infer type parameter 'T' in call to 'mk'"
    );
}

#[test]
fn type_tags_and_names() {
    assert_eq!(type_tag(&TrackType::Ptr(Box::new(TrackType::I32))), "pi32");
    assert_eq!(type_tag(&TrackType::Array(Box::new(TrackType::U8), 4)), "au8_4");
    assert_eq!(type_tag(&TrackType::Tuple(vec![TrackType::I32, TrackType::Bool])), "ti32.bool");
    assert_eq!(type_tag(&TrackType::Custom("a-b c".to_string())), "a_b_c");
    assert_eq!(sanitize("x1_é!"), "x1_é_");
    assert_eq!(base_name("Stack::push"), "push");
    assert_eq!(base_name("a::b::c"), "c");
    assert_eq!(base_name("plain"), "plain");
    let mut subst = StrMap::new();
    subst.insert("T".to_string(), TrackType::I64);
    assert_eq!(mangle("f", &subst), "f__Ti64");
    assert_eq!(
        substitute_ty(&TrackType::Ref(Box::new(TrackType::Custom("T".to_string()))), &subst),
        TrackType::Ref(Box::new(TrackType::I64))
    );
}

#[test]
fn repeated_calls_share_one_instance() {
    let mut program = parse(
        "fn identity<T>(x: T) -> T { return x; } fn main() -> void { let a: i32 = 1; let p = identity(a); let q = identity(a); let r = identity(p); }",
    );
    let before = program.len();
    assert!(monomorphize(&mut program).is_ok());
    assert_eq!(fn_names(&program[before..]), vec!["identity__Ti32".to_string()]);
}

#[test]
fn concrete_return_types_drive_inference() {
    let mut program = parse(
        "fn helper() -> i64 { return 1; } fn identity<T>(x: T) -> T { return x; } fn main() -> void { let y = identity(helper()); }",
    );
    let before = program.len();
    assert!(monomorphize(&mut program).is_ok());
    assert_eq!(fn_names(&program[before..]), vec!["identity__Ti64".to_string()]);
}
