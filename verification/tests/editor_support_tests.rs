use track::ast::Expr;
use track::lsp::{
    analyze_document, completions, extract_track_blocks, hover_doc, lines_of, word_at_cursor,
    word_before_cursor, CompletionKind,
};

#[test]
fn lines_follow_str_lines() {
    for text in ["a\nb", "a\r\nb\n", "", "\n\n", "x\r", "one"] {
        let expected: Vec<String> = text.lines().map(|l| l.to_string()).collect();
        assert_eq!(lines_of(text), expected, "text {:?}", text);
    }
}

#[test]
fn track_blocks_in_markdown() {
    let md = "# Title\n```track\nlet x = 1;\nlet y = 2;\n```\ntext\n  ```trk\nfn f() -> void {}\n```\n```rust\nnot track\n```\n";
    let blocks = extract_track_blocks(md);
    assert_eq!(blocks.len(), 2);
    assert_eq!(blocks[0], (2, 4, "let x = 1;\nlet y = 2;".to_string()));
    assert_eq!(blocks[1], (7, 8, "fn f() -> void {}".to_string()));
}

#[test]
fn document_diagnostics() {
    let (ast, diags) = analyze_document("/tmp/a.trk", "fn main() -> void { prnt(1); }");
    assert!(ast.is_some());
    assert_eq!(diags, vec![(0, "Compile Error: Undefined function 'prnt'. Did you mean 'print'?".to_string())]);
    let (ast, diags) = analyze_document("/tmp/a.md", "intro\n```track\nlet x = $;\n```\n");
    assert!(ast.is_none());
    assert_eq!(diags, vec![(2, "Lexer error at 8..9: unexpected character '$'".to_string())]);
    let (ast, diags) = analyze_document("/tmp/a.txt", "let x = $;");
    assert!(ast.is_none() && diags.is_empty());
}

#[test]
fn words_at_the_cursor() {
    assert_eq!(word_before_cursor("    let pri", 11), "pri");
    assert_eq!(word_before_cursor("x.fo", 100), "fo");
    assert_eq!(word_before_cursor("a + ", 4), "");
    assert_eq!(word_at_cursor("let value = read();", 14), "read");
    assert_eq!(word_at_cursor("@macro double", 3), "macro");
}

#[test]
fn completions_of_a_word() {
    let source = "enum Color { Red, Green } fn print_all() -> void {}";
    let tokens = track::lexer::Lexer::tokenize(source).unwrap();
    let mut p = track::parser::Parser::new(tokens, source.to_string());
    let program: Vec<Expr> = p.parse_program().unwrap();
    let items = completions("pr", &program);
    let labels: Vec<&str> = items.iter().map(|c| c.label.as_str()).collect();
    assert_eq!(labels, vec!["print", "println", "process_spawn", "print_all"]);
    assert_eq!(items[0].kind, CompletionKind::Function);
    assert_eq!(items[0].detail, "Built-in function");
    assert_eq!(items[3].detail, "User-defined function");
    let items = completions("Color::G", &program);
    assert_eq!(items.len(), 1);
    assert_eq!(items[0].label, "Color::Green");
    assert_eq!(items[0].kind, CompletionKind::EnumMember);
    assert_eq!(items[0].detail, "Enum variant of Color");
    let items = completions("co", &Vec::new());
    assert_eq!(items.len(), 2);
    assert_eq!(items[0].label, "const");
    assert_eq!(items[0].kind, CompletionKind::Keyword);
    assert_eq!(items[1].label, "@compile_error");
    assert!(completions("", &program).is_empty());
}

#[test]
fn hover_texts() {
    assert_eq!(hover_doc("while").as_deref(), Some("Loop"));
    assert_eq!(hover_doc("u8").as_deref(), Some("8-bit unsigned integer (copy type)"));
    assert_eq!(hover_doc("@now").as_deref(), Some("Get current timestamp"));
    assert!(hover_doc("read").unwrap().starts_with("Read input"));
    assert!(hover_doc("nothing").is_none());
}

#[test]
fn cursors_count_bytes() {
    // "é" takes two bytes, so byte 4 lies inside "ab", after "a".
    assert_eq!(word_before_cursor("é ab", 4), "a");
    assert_eq!(word_at_cursor("é ab", 4), "ab");
    assert!(track::lsp::cursor_is_valid("é ab", 4, false));
    assert!(!track::lsp::cursor_is_valid("é ab", 1, false));
    assert!(track::lsp::cursor_is_valid("é ab", 99, true));
    assert!(!track::lsp::cursor_is_valid("é ab", 99, false));
}
