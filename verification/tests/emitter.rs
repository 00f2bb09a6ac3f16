use nss::ast::{Expression, ExpressionNode, Statement, StatementNode};
use nss::token::Pos as AstPos;
use nss::compiler::Compiler;
use nss::diagnostic::DiagnosticKind;

// The AST constructors take a position; emission never reads it.
fn here() -> AstPos {
    AstPos((1, String::new()), (1, 1))
}

fn ident(name: &str) -> Expression {
    Expression::new(ExpressionNode::Identifier(name.to_string()), here())
}

fn string(text: &str) -> Expression {
    Expression::new(ExpressionNode::Str(text.to_string()), here())
}

fn deref(name: &str) -> Expression {
    Expression::new(ExpressionNode::Deref(name.to_string()), here())
}

fn var(name: &str, value: Expression) -> Statement {
    Statement::new(StatementNode::Var(name.to_string(), value), here())
}

fn style(name: &str, value: Expression) -> Statement {
    Statement::new(StatementNode::Style(name.to_string(), value), here())
}

#[test]
fn variable_reference_emits_bound_value() {
    let mut compiler = Compiler::new();
    let ast = vec![var("variable", ident("red")), style("color", deref("variable"))];
    assert_eq!(compiler.compile(ast).unwrap(), "color: red;");
}

#[test]
fn later_binding_shadows_earlier_one() {
    let mut compiler = Compiler::new();
    let ast = vec![
        var("a", ident("red")),
        style("early", deref("a")),
        var("a", ident("blue")),
        style("late", deref("a")),
    ];
    // the emission pass binds in document order: the first dereference
    // still sees the first binding, the second sees the later one
    assert_eq!(compiler.compile(ast).unwrap(), "early: red;late: blue;");
}

#[test]
fn important_call_emits_with_suffix() {
    let mut compiler = Compiler::new();
    let call = Expression::new(
        ExpressionNode::Call(Box::new(ident("url")), vec![deref("cool_image")]),
        here(),
    );
    let important = Expression::new(ExpressionNode::Important(Box::new(call)), here());
    let ast = vec![
        var("cool_image", string("/assets/cool_image.jpeg")),
        style("background", important),
    ];
    assert_eq!(
        compiler.compile(ast).unwrap(),
        "background: url(\"/assets/cool_image.jpeg\") !important;"
    );
}

#[test]
fn unbound_variable_is_a_hard_error() {
    let mut compiler = Compiler::new();
    let ast = vec![style("color", deref("missing"))];
    let err = compiler.compile(ast).unwrap_err();
    assert!(matches!(err.kind, DiagnosticKind::UnboundVariable(n) if n == "missing"));
}

#[test]
fn self_referential_binding_is_reported_not_followed() {
    let mut compiler = Compiler::new();
    let ast = vec![var("a", deref("a")), style("color", deref("a"))];
    let err = compiler.compile(ast).unwrap_err();
    assert!(matches!(err.kind, DiagnosticKind::UnboundVariable(n) if n == "a"));
}

#[test]
fn numeric_literals_keep_their_text() {
    let mut compiler = Compiler::new();
    let ast = vec![
        style("z-index", Expression::new(ExpressionNode::Int("12".to_string()), here())),
        style("width", Expression::new(ExpressionNode::Float("3.50".to_string()), here())),
    ];
    assert_eq!(compiler.compile(ast).unwrap(), "z-index: 12;width: 3.50;");
}

#[test]
fn call_arguments_join_with_comma_and_space() {
    let mut compiler = Compiler::new();
    let call = Expression::new(
        ExpressionNode::Call(Box::new(ident("rgb")), vec![ident("r"), ident("g"), ident("b")]),
        here(),
    );
    let ast = vec![style("color", call)];
    assert_eq!(compiler.compile(ast).unwrap(), "color: rgb(r, g, b);");
}

#[test]
fn variables_bound_in_a_block_stay_bound_after_it() {
    let mut compiler = Compiler::new();
    let group = Statement::new(
        StatementNode::Definition(
            vec!["a".to_string()],
            vec![var("x", ident("red")), style("color", deref("x"))],
        ),
        here(),
    );
    let ast = vec![group, style("outside", deref("x"))];
    assert_eq!(
        compiler.compile(ast).unwrap(),
        "a {\n  color: red;\n}\n\noutside: red;"
    );
}
