use nss::diagnostic::DiagnosticKind;
use nss::lexer::Lexer;
use nss::paths::{is_nss, new_path};
use nss::pipeline::compile_source;
use nss::ast::Operator;
use nss::source::Source;
use nss::token::{Pos, Token, TokenType};

#[test]
fn selector_group_compiles_to_braced_block() {
    let out = compile_source("test.nss", "a, button\n  color: red\n").unwrap();
    assert_eq!(out, "a, button {\n  color: red;\n}\n\n");
}

#[test]
fn nested_groups_indent_two_spaces_per_level() {
    let out = compile_source("test.nss", "nav\n  ul\n    margin: 0\n").unwrap();
    assert_eq!(out, "nav {\n  ul {\n    margin: 0;\n  }\n  \n}\n\n");
}

#[test]
fn important_url_value_compiles() {
    let out = compile_source("test.nss", "bg\n  background: url(img)!\n").unwrap();
    assert_eq!(out, "bg {\n  background: url(img) !important;\n}\n\n");
}

#[test]
fn string_value_is_requoted() {
    let out = compile_source("test.nss", "bg\n  image: \"x.png\"\n").unwrap();
    assert_eq!(out, "bg {\n  image: \"x.png\";\n}\n\n");
}

#[test]
fn inconsistent_indentation_fails_the_file() {
    let err = compile_source("test.nss", "a\n  x: 1\nb\n   y: 2\n").unwrap_err();
    assert_eq!(err.kind, DiagnosticKind::InconsistentIndentation);
}

#[test]
fn stray_character_fails_lexing_with_its_position() {
    let err = compile_source("test.nss", "a\n  x: %\n").unwrap_err();
    assert_eq!(err.kind, DiagnosticKind::UnrecognizedCharacter);
    let pos = err.pos.unwrap();
    assert_eq!((pos.0).0, 2);
    assert_eq!(pos.1, (6, 6));
}

// Re-lexing a quoted string from the emitted output yields the value
// that was emitted.
#[test]
fn emitted_string_literal_relexes_to_equal_value() {
    let out = compile_source("test.nss", "bg\n  image: \"x.png\"\n").unwrap();
    let fragment: String = out
        .split_whitespace()
        .find(|w| w.starts_with('"'))
        .unwrap()
        .trim_end_matches(';')
        .to_string();
    assert_eq!(fragment, "\"x.png\"");
    let source = Source::new("fragment", vec![fragment.clone()]);
    let mut lexer = Lexer::default(fragment, &source);
    let tokens = lexer.tokens().unwrap();
    assert_eq!(tokens.len(), 1);
    assert_eq!(tokens[0].token_type, TokenType::Str);
    assert_eq!(tokens[0].lexeme, "x.png");
}

// Re-lexing a numeric literal from the emitted output yields the value
// that was emitted.
#[test]
fn emitted_number_relexes_to_equal_value() {
    let out = compile_source("test.nss", "a\n  z: 12\n  w: 3.5\n").unwrap();
    assert!(out.contains("z: 12;"));
    assert!(out.contains("w: 3.5;"));
    let source = Source::new("fragment", vec!["12 3.5".to_string()]);
    let mut lexer = Lexer::default("12 3.5".to_string(), &source);
    let tokens = lexer.tokens().unwrap();
    assert_eq!(tokens[0].token_type, TokenType::Int);
    assert_eq!(tokens[0].lexeme, "12");
    assert_eq!(tokens[1].token_type, TokenType::Float);
    assert_eq!(tokens[1].lexeme, "3.5");
}

#[test]
fn top_level_declarations_concatenate() {
    let out = compile_source("test.nss", "a: b\nc: d\n").unwrap();
    assert_eq!(out, "a: b;c: d;");
}

#[test]
fn empty_input_compiles_to_empty_output() {
    assert_eq!(compile_source("test.nss", "").unwrap(), "");
}

#[test]
fn blank_lines_between_statements_are_skipped() {
    let out = compile_source("test.nss", "a\n  x: 1\n\n\nb\n  y: 2\n").unwrap();
    assert_eq!(out, "a {\n  x: 1;\n}\n\nb {\n  y: 2;\n}\n\n");
}

#[test]
fn new_path_replaces_extension_in_file_name() {
    assert_eq!(new_path(&"styles/site.nss".to_string()), "styles/site.css");
    assert_eq!(new_path(&"site.nss".to_string()), "site.css");
    assert_eq!(new_path(&"a/b/c.nss.nss".to_string()), "a/b/c.css.css");
    assert_eq!(new_path(&"dir.nss/plain".to_string()), "dir.nss/plain");
}

#[test]
fn is_nss_looks_at_the_last_extension() {
    assert!(is_nss(&"styles/site.nss".to_string()));
    assert!(is_nss(&"site.nss".to_string()));
    assert!(!is_nss(&"site.css".to_string()));
    assert!(!is_nss(&"site.nss.css".to_string()));
    assert!(is_nss(&"nss".to_string()), "a bare name is its own extension");
    assert!(is_nss(&"a.css/b.nss".to_string()));
}

#[test]
fn operator_lexemes_round_trip() {
    for (text, op, precedence) in [
        ("+", Operator::Add, 0u8),
        ("-", Operator::Sub, 0),
        ("*", Operator::Mul, 1),
        ("/", Operator::Div, 1),
        ("^", Operator::Pow, 2),
    ] {
        assert_eq!(Operator::from_str(text), Some((op, precedence)));
        assert_eq!(op.as_str(), text);
    }
    assert_eq!(Operator::from_str("%"), None);
    assert_eq!(Operator::from_str("++"), None);
}

#[test]
fn pos_get_lexeme_cuts_the_span() {
    let pos = Pos((1, "a: red".to_string()), (4, 6));
    assert_eq!(pos.get_lexeme(), "red");
}

#[test]
fn token_new_keeps_its_fields() {
    let t = Token::new(TokenType::Identifier, (2, "line".to_string()), (1, 4), "line");
    assert_eq!(t.token_type, TokenType::Identifier);
    assert_eq!(t.line, (2, "line".to_string()));
    assert_eq!(t.slice, (1, 4));
    assert_eq!(t.lexeme, "line");
    let u = t.duplicate();
    assert_eq!(t, u);
}
