use nss::ast::{ExpressionNode, StatementNode};
use nss::diagnostic::DiagnosticKind;
use nss::lexer::Lexer;
use nss::parser::Parser;
use nss::source::Source;

fn parse(text: &str) -> Result<Vec<nss::ast::Statement>, nss::diagnostic::Diagnostic> {
    let lines: Vec<String> = text.lines().map(|l| l.to_string()).collect();
    let source = Source::new("test.nss", lines);
    let mut lexer = Lexer::default(text.to_string(), &source);
    let tokens = lexer.tokens()?;
    let mut parser = Parser::new(tokens, &source);
    parser.parse()
}

#[test]
fn selector_group_keeps_names_in_order() {
    let ast = parse("a, button\n  color: red\n").unwrap();
    assert_eq!(ast.len(), 1);
    match &ast[0].node {
        StatementNode::Definition(names, body) => {
            assert_eq!(names, &vec!["a".to_string(), "button".to_string()]);
            assert_eq!(body.len(), 1);
            match &body[0].node {
                StatementNode::Style(name, value) => {
                    assert_eq!(name, "color");
                    match &value.node {
                        ExpressionNode::Identifier(v) => assert_eq!(v, "red"),
                        other => panic!("expected an identifier value, got {:?}", other),
                    }
                },
                other => panic!("expected a declaration, got {:?}", other),
            }
        },
        other => panic!("expected a selector group, got {:?}", other),
    }
}

#[test]
fn selector_list_before_colon_is_many_attributes() {
    let err = parse("body, h1: color\n").unwrap_err();
    assert_eq!(err.kind, DiagnosticKind::ManyAttributes);
}

#[test]
fn second_level_non_multiple_indent_is_inconsistent() {
    let err = parse("a\n  x: 1\nb\n   y: 2\n").unwrap_err();
    assert_eq!(err.kind, DiagnosticKind::InconsistentIndentation);
}

#[test]
fn indent_multiples_of_the_unit_are_accepted() {
    let ast = parse("a\n  b\n    x: 1\n  y: 2\n").unwrap();
    assert_eq!(ast.len(), 1);
    match &ast[0].node {
        StatementNode::Definition(names, body) => {
            assert_eq!(names, &vec!["a".to_string()]);
            assert_eq!(body.len(), 2);
            assert!(matches!(body[0].node, StatementNode::Definition(_, _)));
            assert!(matches!(body[1].node, StatementNode::Style(_, _)));
        },
        other => panic!("expected a selector group, got {:?}", other),
    }
}

#[test]
fn sibling_blocks_at_the_unit_parse() {
    let ast = parse("a\n  x: 1\nb\n  y: 2\n").unwrap();
    assert_eq!(ast.len(), 2);
}

#[test]
fn at_symbol_makes_a_variable_reference() {
    let ast = parse("color: @main\n").unwrap();
    match &ast[0].node {
        StatementNode::Style(name, value) => {
            assert_eq!(name, "color");
            match &value.node {
                ExpressionNode::Deref(n) => assert_eq!(n, "main"),
                other => panic!("expected a variable reference, got {:?}", other),
            }
        },
        other => panic!("expected a declaration, got {:?}", other),
    }
}

#[test]
fn call_with_important_parses() {
    let ast = parse("background: url(@img)!\n").unwrap();
    match &ast[0].node {
        StatementNode::Style(_, value) => match &value.node {
            ExpressionNode::Important(inner) => match &inner.node {
                ExpressionNode::Call(callee, args) => {
                    assert!(matches!(&callee.node, ExpressionNode::Identifier(n) if n == "url"));
                    assert_eq!(args.len(), 1);
                    assert!(matches!(&args[0].node, ExpressionNode::Deref(n) if n == "img"));
                },
                other => panic!("expected a call, got {:?}", other),
            },
            other => panic!("expected an important value, got {:?}", other),
        },
        other => panic!("expected a declaration, got {:?}", other),
    }
}

#[test]
fn statement_must_start_with_an_identifier() {
    let err = parse(": red\n").unwrap_err();
    assert!(matches!(err.kind, DiagnosticKind::UnexpectedTokenType(_)));
}

#[test]
fn unexpected_lexeme_after_names_is_reported() {
    let err = parse("a !\n").unwrap_err();
    assert!(matches!(err.kind, DiagnosticKind::UnexpectedToken(l) if l == "!"));
}

#[test]
fn declaration_must_end_at_a_line_break() {
    let err = parse("a: b c: d").unwrap_err();
    assert!(matches!(err.kind, DiagnosticKind::ExpectedNewLine(f) if f == "c"));
}

#[test]
fn comma_must_be_followed_by_an_identifier() {
    let err = parse("a, 5\n  x: y\n").unwrap_err();
    assert!(matches!(
        err.kind,
        DiagnosticKind::ExpectedTokenType(nss::token::TokenType::Identifier, nss::token::TokenType::Int)
    ));
}

#[test]
fn stepping_past_the_end_is_refused() {
    let lines: Vec<String> = vec!["a".to_string()];
    let source = Source::new("test.nss", lines);
    let mut lexer = Lexer::default("a".to_string(), &source);
    let tokens = lexer.tokens().unwrap();
    let mut parser = Parser::new(tokens, &source);
    assert!(parser.next().is_ok(), "onto the end");
    assert!(parser.next().is_ok(), "one step past the end");
    let err = parser.next().unwrap_err();
    assert_eq!(err.kind, DiagnosticKind::SteppedPastEnd);
}

#[test]
fn unclosed_call_reports_expected_lexeme() {
    let err = parse("a: url(x\n  b\n").unwrap_err();
    assert!(matches!(err.kind, DiagnosticKind::ExpectedLexeme(e, _) if e == ")"));
}
