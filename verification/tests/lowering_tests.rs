use track::ast::TrackType;
use track::lowering::{
    builtin_discriminant, call_lookup_names, conversion, declared_variants, initial_variants,
    ir_type_of, needs_main_wrapper, second_name_segment, signature_types, Conversion, IrType,
};

#[test]
fn machine_types_and_signatures() {
    assert_eq!(ir_type_of(&TrackType::Bool), IrType::I8);
    assert_eq!(ir_type_of(&TrackType::U32), IrType::I32);
    assert_eq!(ir_type_of(&TrackType::Void), IrType::I32);
    assert_eq!(ir_type_of(&TrackType::Tuple(vec![])), IrType::I64);
    assert_eq!(ir_type_of(&TrackType::Custom("Vec".to_string())), IrType::I64);
    let params = vec![("a".to_string(), TrackType::U8), ("b".to_string(), TrackType::I64)];
    assert_eq!(signature_types("main", &params, &None), (vec![IrType::I8, IrType::I64], Some(IrType::I32)));
    assert_eq!(signature_types("f", &params, &Some(TrackType::Void)), (vec![IrType::I8, IrType::I64], None));
    assert_eq!(signature_types("f", &Vec::new(), &Some(TrackType::I32)), (vec![], Some(IrType::I32)));
    assert_eq!(signature_types("f", &Vec::new(), &None), (vec![], None));
}

#[test]
fn discriminants_and_names() {
    assert_eq!(builtin_discriminant("Spent"), 2);
    assert_eq!(builtin_discriminant("Err"), 1);
    assert_eq!(builtin_discriminant("Purple"), 0);
    assert_eq!(second_name_segment("Color::Green"), "Green");
    assert_eq!(second_name_segment("a::b::c"), "b");
    assert_eq!(second_name_segment("plain"), "");
    assert_eq!(call_lookup_names("@@std::io::print"), ("std::io::print".to_string(), "print".to_string()));
    assert_eq!(call_lookup_names("f"), ("f".to_string(), "f".to_string()));
    assert_eq!(initial_variants().len(), 11);
    let source = "enum Color { Red, Green } union Shape { Dot, Box(i32) }";
    let tokens = track::lexer::Lexer::tokenize(source).unwrap();
    let mut p = track::parser::Parser::new(tokens, source.to_string());
    let program = p.parse_program().unwrap();
    assert_eq!(
        declared_variants(&program),
        vec![
            ("Red".to_string(), 0),
            ("Color::Red".to_string(), 0),
            ("Green".to_string(), 1),
            ("Color::Green".to_string(), 1),
            ("Dot".to_string(), 0),
            ("Shape::Dot".to_string(), 0),
            ("Box".to_string(), 1),
            ("Shape::Box".to_string(), 1),
        ]
    );
}

#[test]
fn widths_and_entry_points() {
    assert_eq!(conversion(8, 4), Conversion::Narrow);
    assert_eq!(conversion(1, 8), Conversion::Widen);
    assert_eq!(conversion(4, 4), Conversion::Keep);
    assert!(needs_main_wrapper(false, "main"));
    assert!(needs_main_wrapper(false, "track_module"));
    assert!(needs_main_wrapper(false, "app_main"));
    assert!(!needs_main_wrapper(false, "util"));
    assert!(!needs_main_wrapper(true, "main"));
}
