use track::ast::{Expr, Pattern, TrackType};
use track::lexer::Lexer;
use track::parser::Parser;

fn parse_result(source: &str) -> Result<Vec<Expr>, String> {
    let tokens = Lexer::tokenize(source).unwrap();
    let mut parser = Parser::new(tokens, source.to_string());
    parser.parse_program()
}

fn first_pattern(source: &str) -> Pattern {
    let program = parse_result(source).unwrap();
    match &program[0] {
        Expr::Match { arms, .. } => arms[0].pattern.clone(),
        other => panic!("expected a match, got {:?}", other),
    }
}

#[test]
fn union_tag_list_is_skipped() {
    let program = parse_result("union Value(u8, tag) { A, B(i32) }").unwrap();
    assert_eq!(
        program,
        vec![Expr::UnionDef {
            name: "Value".to_string(),
            variants: vec![("A".to_string(), None), ("B".to_string(), Some(TrackType::I32))],
        }]
    );
}

#[test]
fn union_without_brace_is_refused() {
    let err = parse_result("union Value A").unwrap_err();
    assert_eq!(err, "Parser error: expected LBrace, got Some(Ident(\"A\"))");
}

#[test]
fn struct_definition_is_an_alias_to_struct() {
    let program = parse_result("struct Point { x: i32, y: i32 };").unwrap();
    assert_eq!(
        program,
        vec![Expr::TypeAlias { name: "Point".to_string(), target: TrackType::Custom("Struct".to_string()) }]
    );
}

#[test]
fn struct_field_without_colon_is_refused() {
    let err = parse_result("struct P { x i32 }").unwrap_err();
    assert_eq!(err, "Parser error: expected Colon, got Some(TyI32)");
}

#[test]
fn import_without_path_is_refused() {
    let err = parse_result("import math;").unwrap_err();
    assert_eq!(err, "Expected string path after import, got Some(Ident(\"math\"))");
}

#[test]
fn import_list_needs_brace() {
    let err = parse_result("import \"m\" :: abs;").unwrap_err();
    assert_eq!(err, "Parser error: expected LBrace, got Some(Ident(\"abs\"))");
}

#[test]
fn import_with_alias_and_items() {
    let program = parse_result("use \"lib/geo\" as g :: { area, }").unwrap();
    assert_eq!(
        program,
        vec![Expr::Use {
            path: "lib/geo".to_string(),
            imports: Some(vec!["area".to_string()]),
            alias: Some("g".to_string()),
        }]
    );
}

#[test]
fn type_alias_needs_eq() {
    let err = parse_result("type T i32;").unwrap_err();
    assert_eq!(err, "Parser error: expected Eq, got Some(TyI32)");
}

#[test]
fn struct_pattern_with_shorthand_field() {
    let pattern = first_pattern("match p { Point { x, y: _ } => 1 }");
    assert_eq!(
        pattern,
        Pattern::Struct {
            name: "Point".to_string(),
            fields: vec![
                ("x".to_string(), Pattern::Ident("x".to_string())),
                ("y".to_string(), Pattern::Wildcard),
            ],
        }
    );
}

#[test]
fn negative_literal_pattern() {
    let pattern = first_pattern("match n { -1 => 0, _ => 1 }");
    assert_eq!(
        pattern,
        Pattern::Literal(Box::new(Expr::UnaryOp {
            op: track::ast::UnaryOp::Neg,
            expr: Box::new(Expr::IntLiteral(1)),
        }))
    );
}

#[test]
fn variant_pattern_without_bindings() {
    let pattern = first_pattern("match v { Color::Red => 1 }");
    assert_eq!(
        pattern,
        Pattern::Variant { enum_or_union: "Color".to_string(), variant: "Red".to_string(), bindings: vec![] }
    );
}

#[test]
fn bad_pattern_is_refused() {
    let err = parse_result("match v { + => 1 }").unwrap_err();
    assert_eq!(err, "Expected pattern, got Some(Plus)");
}

#[test]
fn cloned_program_is_equal() {
    let program = parse_result("fn f(a: i32) -> i32 { let b = a * 2; match b { 0 => 1, _ => b } }").unwrap();
    let copy: Vec<Expr> = program.iter().map(|e| e.clone()).collect();
    assert_eq!(copy, program);
}

#[test]
fn use_parses_as_import() {
    let with_use = parse_result("use \"m\" as a :: { x, y }; let z = 1;").unwrap();
    let with_import = parse_result("import \"m\" as a :: { x, y }; let z = 1;").unwrap();
    assert_eq!(with_use, with_import);
}

#[test]
fn generic_list_needs_closing_angle() {
    let err = parse_result("fn f<T (x: T) { }").unwrap_err();
    assert_eq!(err, "Parser error: expected Gt, got Some(LParen)");
}

#[test]
fn parameter_needs_colon() {
    let err = parse_result("fn f(x i32) { }").unwrap_err();
    assert_eq!(err, "Parser error: expected Colon, got Some(TyI32)");
}

#[test]
fn function_body_needs_brace() {
    let err = parse_result("fn f() -> i32 return 1;").unwrap_err();
    assert_eq!(err, "Parser error: expected LBrace, got Some(Return)");
}

#[test]
fn function_head_is_kept() {
    let program = parse_result("fn swap<A, B>(a: A, b: B) -> (B, A) { return (b, a); }").unwrap();
    match &program[0] {
        Expr::FnDef { name, generics, params, return_type, .. } => {
            assert_eq!(name, "swap");
            assert_eq!(generics, &vec!["A".to_string(), "B".to_string()]);
            assert_eq!(
                params,
                &vec![
                    ("a".to_string(), TrackType::Custom("A".to_string())),
                    ("b".to_string(), TrackType::Custom("B".to_string())),
                ]
            );
            assert_eq!(
                return_type,
                &Some(TrackType::Tuple(vec![
                    TrackType::Custom("B".to_string()),
                    TrackType::Custom("A".to_string()),
                ]))
            );
        },
        other => panic!("expected a function, got {:?}", other),
    }
}

#[test]
fn macro_head_is_kept() {
    let program = parse_result("@macro twice(x: i32) -> i32 { return x * 2; }").unwrap();
    match &program[0] {
        Expr::MacroDef { name, params, return_type, .. } => {
            assert_eq!(name, "twice");
            assert_eq!(params, &vec![("x".to_string(), TrackType::I32)]);
            assert_eq!(return_type, &Some(TrackType::I32));
        },
        other => panic!("expected a macro, got {:?}", other),
    }
}

#[test]
fn let_needs_a_name() {
    let err = parse_result("let = 5;").unwrap_err();
    assert_eq!(err, "Parser error: expected identifier, got Some(Eq)");
}

#[test]
fn let_needs_eq() {
    let err = parse_result("let x 5;").unwrap_err();
    assert_eq!(err, "Parser error: expected Eq, got Some(Int(5))");
}

#[test]
fn let_head_is_kept() {
    let program = parse_result("let mut total: i64 = 0;").unwrap();
    match &program[0] {
        Expr::LetDef { name, mutable, ty, .. } => {
            assert_eq!(name, "total");
            assert!(*mutable);
            assert_eq!(ty, &Some(TrackType::I64));
        },
        other => panic!("expected a let, got {:?}", other),
    }
}

#[test]
fn lens_needs_arrow() {
    let err = parse_result("with u user { }").unwrap_err();
    assert_eq!(err, "Parser error: expected Arrow, got Some(Ident(\"user\"))");
}

#[test]
fn for_needs_in() {
    let err = parse_result("for i 0..3 { }").unwrap_err();
    assert_eq!(err, "Parser error: expected In, got Some(Int(0))");
}

#[test]
fn enum_needs_brace() {
    let err = parse_result("enum E: i32 A").unwrap_err();
    assert_eq!(err, "Parser error: expected LBrace, got Some(Ident(\"A\"))");
}

#[test]
fn statement_cannot_start_with_a_closing_brace() {
    let err = parse_result("}").unwrap_err();
    assert_eq!(err, "Parser error: unexpected token Some(RBrace)");
}

#[test]
fn missing_operand_is_refused() {
    let err = parse_result("let x = ;").unwrap_err();
    assert_eq!(err, "Parser error: unexpected token Some(Semicolon)");
    let err = parse_result("let y = 1 + ;").unwrap_err();
    assert_eq!(err, "Parser error: unexpected token Some(Semicolon)");
}

fn expr_of(source: &str) -> Result<Expr, String> {
    let tokens = Lexer::tokenize(source).unwrap();
    let mut parser = Parser::new(tokens, source.to_string());
    parser.parse_expr()
}

#[test]
fn lone_literals_are_expressions() {
    assert_eq!(expr_of("42 ;"), Ok(Expr::IntLiteral(42)));
    assert_eq!(expr_of("true )"), Ok(Expr::BoolLiteral(true)));
    assert_eq!(expr_of("\"hi\""), Ok(Expr::StringLiteral("hi".to_string())));
}

#[test]
fn expression_cannot_start_with_a_semicolon() {
    assert_eq!(expr_of("; 1"), Err("Parser error: unexpected token Some(Semicolon)".to_string()));
    assert_eq!(expr_of(""), Err("Parser error: unexpected token None".to_string()));
}

#[test]
fn let_with_literal_value_is_complete() {
    let program = parse_result("let mut count: i32 = 7;").unwrap();
    assert_eq!(
        program,
        vec![Expr::LetDef {
            name: "count".to_string(),
            mutable: true,
            ty: Some(TrackType::I32),
            value: Box::new(Expr::IntLiteral(7)),
        }]
    );
}

#[test]
fn const_with_literal_value_is_complete() {
    let program = parse_result("const GREETING = \"hello\";").unwrap();
    assert_eq!(
        program,
        vec![Expr::ConstDef { name: "GREETING".to_string(), value: Box::new(Expr::StringLiteral("hello".to_string())) }]
    );
}

#[test]
fn return_forms() {
    assert_eq!(parse_result("return;").unwrap(), vec![Expr::Return { value: None }]);
    assert_eq!(parse_result("return").unwrap(), vec![Expr::Return { value: None }]);
    assert_eq!(
        parse_result("return false;").unwrap(),
        vec![Expr::Return { value: Some(Box::new(Expr::BoolLiteral(false))) }]
    );
    assert_eq!(parse_result("return }").unwrap_err(), "Parser error: unexpected token Some(RBrace)");
}

#[test]
fn let_with_plain_name_value_is_complete() {
    let program = parse_result("let y = x;").unwrap();
    assert_eq!(
        program,
        vec![Expr::LetDef {
            name: "y".to_string(),
            mutable: false,
            ty: None,
            value: Box::new(Expr::Variable("x".to_string())),
        }]
    );
    assert_eq!(expr_of("total )"), Ok(Expr::Variable("total".to_string())));
}

#[test]
fn plain_assignment_is_complete() {
    let program = parse_result("x = 3; y;").unwrap();
    assert_eq!(
        program,
        vec![
            Expr::Assign { target: Box::new(Expr::Variable("x".to_string())), value: Box::new(Expr::IntLiteral(3)) },
            Expr::Variable("y".to_string()),
        ]
    );
    assert_eq!(parse_result("x = ;").unwrap_err(), "Parser error: unexpected token Some(Semicolon)");
}

#[test]
fn token_spans_are_in_order_within_the_text() {
    let source = "let  total = (a + 12) * b; // done";
    let tokens = Lexer::tokenize(source).unwrap();
    let n = source.chars().count();
    for (k, (_, span)) in tokens.iter().enumerate() {
        assert!(span.start < span.end && span.end <= n);
        if k + 1 < tokens.len() {
            assert!(span.end <= tokens[k + 1].1.start);
        }
    }
}

#[test]
fn token_spans_are_byte_offsets() {
    let source = "let s = \"é\"; x";
    let tokens = Lexer::tokenize(source).unwrap();
    let last = &tokens[tokens.len() - 1];
    assert_eq!(last.1, 14..15);
    assert_eq!(&source[last.1.clone()], "x");
    let err = Lexer::tokenize("\"é\" $").unwrap_err();
    assert_eq!(err, "Lexer error at 5..6: unexpected character '$'");
}
