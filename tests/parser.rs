use interpreter::ast::{Expr, Stmt};
use interpreter::error::FatalError;
use interpreter::parser::Parser;

fn parse(source: &str) -> Result<Vec<Stmt>, FatalError> {
    let mut parser = Parser::new();
    parser.produce_ast(source).map(|p| p.body.body)
}

fn binary_parts(e: &Expr) -> (&Expr, &Expr, &str) {
    match e {
        Expr::Binary(b) => (&b.left, &b.right, b.operator.as_str()),
        other => panic!("not a binary expression: {:?}", other),
    }
}

#[test]
fn multiplication_binds_tighter() {
    let body = parse("2 + 3 * 4").unwrap();
    assert_eq!(body.len(), 1);
    let Stmt::Expr(e) = &body[0] else { panic!("expected an expression") };
    let (left, right, op) = binary_parts(e);
    assert_eq!(op, "+");
    assert!(matches!(left, Expr::NumericLiteral(n) if n.value == "2"));
    let (inner_left, inner_right, inner_op) = binary_parts(right);
    assert_eq!(inner_op, "*");
    assert!(matches!(inner_left, Expr::NumericLiteral(n) if n.value == "3"));
    assert!(matches!(inner_right, Expr::NumericLiteral(n) if n.value == "4"));
}

#[test]
fn comparison_binds_looser_than_arithmetic() {
    let body = parse("1 < 2 == true").unwrap();
    let Stmt::Expr(Expr::Comparative(c)) = &body[0] else { panic!("expected a comparison") };
    assert_eq!(c.operator, "==");
    assert!(matches!(&*c.left, Expr::Comparative(inner) if inner.operator == "<"));
    assert!(matches!(&*c.right, Expr::Identifier(id) if id.symbol == "true"));
}

#[test]
fn assignment_is_right_associative() {
    let body = parse("a = b = 1").unwrap();
    let Stmt::Expr(Expr::Assignment(a)) = &body[0] else { panic!("expected an assignment") };
    assert!(matches!(&*a.assignee, Expr::Identifier(id) if id.symbol == "a"));
    assert!(matches!(&*a.value, Expr::Assignment(_)));
}

#[test]
fn member_chain_leans_left() {
    let body = parse("a.b[c].d").unwrap();
    let Stmt::Expr(Expr::Member(m)) = &body[0] else { panic!("expected a member access") };
    assert!(!m.computed);
    assert!(matches!(&*m.property, Expr::Identifier(id) if id.symbol == "d"));
    let Expr::Member(inner) = &*m.object else { panic!("expected a member access") };
    assert!(inner.computed);
}

#[test]
fn chained_calls_nest() {
    let body = parse("f(1)(2, 3)").unwrap();
    let Stmt::Expr(Expr::Call(outer)) = &body[0] else { panic!("expected a call") };
    assert_eq!(outer.args.len(), 2);
    assert!(matches!(&*outer.caller, Expr::Call(inner) if inner.args.len() == 1));
}

#[test]
fn else_if_becomes_nested_body() {
    let body = parse("if a { 1 } else if b { 2 } else { 3 }").unwrap();
    let Stmt::If(i) = &body[0] else { panic!("expected an if") };
    let else_body = i.else_stmt.as_ref().unwrap();
    assert_eq!(else_body.body.len(), 1);
    assert!(matches!(&else_body.body[0], Stmt::If(inner) if inner.else_stmt.is_some()));
}

#[test]
fn object_literal_with_shorthand_and_trailing_comma() {
    let body = parse("var o = {a: 1, b, c: 2,};").unwrap();
    let Stmt::VarDeclaration(d) = &body[0] else { panic!("expected a declaration") };
    let Expr::Object(o) = &d.value else { panic!("expected an object") };
    assert_eq!(o.properties.len(), 3);
    assert!(o.properties[1].value.is_none());
    assert_eq!(o.properties[1].key, "b");
}

#[test]
fn var_without_value_is_null() {
    let body = parse("var x;").unwrap();
    let Stmt::VarDeclaration(d) = &body[0] else { panic!("expected a declaration") };
    assert!(!d.constant);
    assert!(matches!(&d.value, Expr::Identifier(id) if id.symbol == "null"));
}

#[test]
fn const_without_value_is_fatal() {
    assert!(matches!(parse("const x;"), Err(FatalError::Syntax(_))));
}

#[test]
fn missing_semicolon_after_declaration_only_warns() {
    let mut parser = Parser::new();
    let program = parser.produce_ast("var x = 1 x").unwrap();
    assert_eq!(program.body.body.len(), 2);
    assert_eq!(parser.warnings.len(), 1);
}

#[test]
fn missing_closing_brace_is_fatal() {
    assert!(matches!(parse("if a { 1"), Err(FatalError::Syntax(_))));
}

#[test]
fn numeric_literal_with_two_dots_is_fatal() {
    assert!(matches!(parse("1.2.3"), Err(FatalError::InvalidNumber(ref t)) if t == "1.2.3"));
}

#[test]
fn function_parameters_must_be_identifiers() {
    assert!(matches!(parse("function f(1) { }"), Err(FatalError::Syntax(_))));
    let body = parse("function f(a, b) { a }").unwrap();
    let Stmt::FunctionDeclaration(f) = &body[0] else { panic!("expected a function") };
    assert_eq!(f.name, "f");
    assert_eq!(f.parameters, vec!["a".to_string(), "b".to_string()]);
}

#[test]
fn while_and_for_statements() {
    let body = parse("while i < 3 { i = i + 1; } for x in [1, 2] { x }").unwrap();
    assert!(matches!(&body[0], Stmt::While(_)));
    assert!(matches!(&body[1], Stmt::For(f) if f.variable == "x"));
}

#[test]
fn semicolons_are_skipped() {
    let body = parse(";; 1; ;").unwrap();
    assert_eq!(body.len(), 1);
}

#[test]
fn lexer_error_passes_through_parser() {
    assert!(matches!(parse("#"), Err(FatalError::UnknownCharacter('#'))));
}

#[test]
fn parsing_is_repeatable() {
    let mut parser = Parser::new();
    let a = parser.produce_ast("var x = 1 + 2 * 3; x").unwrap();
    let b = parser.produce_ast("var x = 1 + 2 * 3; x").unwrap();
    assert_eq!(format!("{:?}", a), format!("{:?}", b));
}
