use track::checker::LinearChecker;
use track::lexer::Lexer;
use track::parser::Parser;
use track::yard::plan::{build_outcome, first_failure, link_inputs, object_path, sorted_diagnostics};

#[test]
fn objects_keep_their_source_directories() {
    assert_eq!(object_path("target", "src/a/main.trk"), "target/objects/src/a/main.o");
    assert_eq!(object_path("target", "src/b/main.trk"), "target/objects/src/b/main.o");
    assert_eq!(object_path("target", "notes"), "target/objects/notes.o");
}

#[test]
fn the_first_source_file_that_failed_is_reported() {
    let results: Vec<(usize, Result<(), String>)> =
        vec![(2, Err("b".to_string())), (0, Ok(())), (1, Err("a".to_string()))];
    assert_eq!(first_failure(&results), Some("a".to_string()));
    let fine: Vec<(usize, Result<(), String>)> = vec![(0, Ok(()))];
    assert_eq!(first_failure(&fine), None);
}

#[test]
fn a_failed_cache_save_fails_the_build() {
    assert_eq!(build_outcome(None, Err("disk full".to_string())), Err("disk full".to_string()));
    assert_eq!(build_outcome(Some("unit".to_string()), Err("disk full".to_string())), Err("unit".to_string()));
    assert_eq!(build_outcome(None, Ok(())), Ok(()));
}

#[test]
fn diagnostics_and_link_inputs_are_ordered() {
    assert_eq!(
        sorted_diagnostics(vec!["b: x".to_string(), "a: y".to_string(), "a: y".to_string()]),
        vec!["a: y".to_string(), "a: y".to_string(), "b: x".to_string()]
    );
    assert_eq!(
        link_inputs(vec!["b.o".to_string(), "a.o".to_string()], "rt.o".to_string()),
        vec!["a.o".to_string(), "b.o".to_string(), "rt.o".to_string()]
    );
}

fn check(s: &str) -> Result<(), String> {
    let program = Parser::new(Lexer::tokenize(s).unwrap(), s.to_string()).parse_program().unwrap();
    LinearChecker::new().check_program(&program)
}

#[test]
fn returned_references_must_borrow_from_parameters() {
    let err = check("fn get_local_ref() -> &i64 { let x = 99; return &x; }").unwrap_err();
    assert!(err.contains("Cannot return reference to local variable 'x'"));
    assert_eq!(check("fn choose_first(a: &i64, b: &i64) -> &i64 { return a; }"), Ok(()));
}

#[test]
fn an_empty_program_is_accepted_with_or_without_the_prelude() {
    let mut bare = LinearChecker::new_barebones();
    assert_eq!(bare.check_program(&[]), Ok(()));
    assert!(bare.functions.is_empty());
    let mut full = LinearChecker::new();
    assert_eq!(full.check_program(&[]), Ok(()));
    assert!(full.functions.contains_key("print"));
}

#[test]
fn content_hashes_are_short_lowercase_hex() {
    for text in ["", "fn main() -> void {}", "é"] {
        let h = track::yard::cache::BuildCache::compute_hash(text);
        assert!(!h.is_empty() && h.len() <= 16);
        assert!(h.chars().all(|c| c.is_ascii_digit() || ('a'..='f').contains(&c)));
    }
}
