use nss::diagnostic::DiagnosticKind;
use nss::lexer::Lexer;
use nss::source::Source;
use nss::token::TokenType;

fn lex(text: &str) -> Result<Vec<nss::token::Token>, nss::diagnostic::Diagnostic> {
    let lines: Vec<String> = text.lines().map(|l| l.to_string()).collect();
    let source = Source::new("test.nss", lines);
    let mut lexer = Lexer::default(text.to_string(), &source);
    lexer.tokens()
}

#[test]
fn lexes_declaration_line() {
    let tokens = lex("a: red\n").unwrap();
    let kinds: Vec<TokenType> = tokens.iter().map(|t| t.token_type).collect();
    assert_eq!(
        kinds,
        vec![
            TokenType::Identifier,
            TokenType::Symbol,
            TokenType::Identifier,
            TokenType::EOL,
        ]
    );
    assert_eq!(tokens[0].lexeme, "a");
    assert_eq!(tokens[1].lexeme, ":");
    assert_eq!(tokens[2].lexeme, "red");
    assert_eq!(tokens[3].lexeme, "\n");
}

#[test]
fn whitespace_is_filtered_but_counts_columns() {
    let tokens = lex("  color: red").unwrap();
    assert_eq!(tokens[0].lexeme, "color");
    // two leading blanks: the identifier starts at one-based column 3
    assert_eq!(tokens[0].slice, (3, 7));
}

#[test]
fn string_literal_lexeme_is_unquoted() {
    let tokens = lex("\"x.png\"").unwrap();
    assert_eq!(tokens.len(), 1);
    assert_eq!(tokens[0].token_type, TokenType::Str);
    assert_eq!(tokens[0].lexeme, "x.png");
}

#[test]
fn numbers_split_into_int_and_float() {
    let tokens = lex("12 3.5").unwrap();
    assert_eq!(tokens[0].token_type, TokenType::Int);
    assert_eq!(tokens[0].lexeme, "12");
    assert_eq!(tokens[1].token_type, TokenType::Float);
    assert_eq!(tokens[1].lexeme, "3.5");
}

#[test]
fn comment_yields_no_token() {
    let tokens = lex("a // note\nb").unwrap();
    let lexemes: Vec<&str> = tokens.iter().map(|t| t.lexeme.as_str()).collect();
    assert_eq!(lexemes, vec!["a", "\n", "b"]);
}

#[test]
fn operators_and_symbols_lex_one_character_each() {
    let tokens = lex("a+b*c@d").unwrap();
    let kinds: Vec<TokenType> = tokens.iter().map(|t| t.token_type).collect();
    assert_eq!(
        kinds,
        vec![
            TokenType::Identifier,
            TokenType::Operator,
            TokenType::Identifier,
            TokenType::Operator,
            TokenType::Identifier,
            TokenType::Symbol,
            TokenType::Identifier,
        ]
    );
}

#[test]
fn kebab_case_identifier_is_one_token() {
    let tokens = lex("font-size: 12").unwrap();
    assert_eq!(tokens[0].lexeme, "font-size");
}

#[test]
fn unrecognized_character_points_at_exact_column() {
    let err = lex("a: %\n").unwrap_err();
    assert_eq!(err.kind, DiagnosticKind::UnrecognizedCharacter);
    let pos = err.pos.unwrap();
    assert_eq!((pos.0).0, 1, "line number");
    assert_eq!(pos.1, (4, 4), "one-based column of the stray character");
    assert_eq!((pos.0).1, "a: %", "line snapshot");
}

#[test]
fn unterminated_string_is_unrecognized_at_the_quote() {
    let err = lex("a: \"oops\n").unwrap_err();
    assert_eq!(err.kind, DiagnosticKind::UnrecognizedCharacter);
    assert_eq!(err.pos.unwrap().1, (4, 4));
}

#[test]
fn match_token_answers_one_token_at_a_time() {
    let source = Source::new("test.nss", vec!["  a".to_string()]);
    let mut lexer = Lexer::default("  a".to_string(), &source);
    let first = lexer.match_token().unwrap();
    assert_eq!(first.token_type, TokenType::Whitespace);
    assert_eq!(first.lexeme, "  ");
    let second = lexer.match_token().unwrap();
    assert_eq!(second.token_type, TokenType::Identifier);
    assert_eq!(second.lexeme, "a");
    let third = lexer.match_token().unwrap();
    assert_eq!(third.token_type, TokenType::EOF);
}

#[test]
fn a_lexer_without_matchers_recognizes_nothing() {
    let source = Source::new("test.nss", vec!["a".to_string()]);
    let tokenizer = nss::tokenizer::Tokenizer::new("a".to_string(), &source);
    let mut lexer = Lexer::new(tokenizer, &source);
    let err = lexer.tokens().unwrap_err();
    assert_eq!(err.kind, DiagnosticKind::UnrecognizedCharacter);
}

#[test]
fn line_snapshots_fall_back_to_the_nearest_line() {
    let source = Source::new(
        "test.nss",
        vec!["first".to_string(), "second".to_string()],
    );
    assert_eq!(source.line_text(1), "first");
    assert_eq!(source.line_text(2), "second");
    assert_eq!(source.line_text(9), "second", "past the end: the last line");
    assert_eq!(source.line_text(0), "first", "before the start: the first line");
    let empty = Source::new("empty.nss", Vec::new());
    assert_eq!(empty.line_text(1), "");
}
