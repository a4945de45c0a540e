use std::ops::Range;

use learn::diag::{Diag, Expected, Found};
use learn::parser::parse;
use learn::skim::Parsed;
use learn::syntax::{Expr, Expression};
use learn::token::{Delim, Token};
use learn::types::Type;
use learn::typy::{TypeID, Typy};

fn node(expr: Expr, id: u32, span: Range<usize>) -> Expression {
    Expression { expr: Box::new(expr), ty: TypeID::from_index(id), span }
}

fn var(name: &str, id: u32, span: Range<usize>) -> Expression {
    node(Expr::Variable(String::from(name)), id, span)
}

fn num(digits: &str, id: u32, span: Range<usize>) -> Expression {
    node(Expr::Number(String::from(digits)), id, span)
}

fn fun(param: &str, body: Expression, id: u32, span: Range<usize>) -> Expression {
    node(Expr::Function(String::from(param), body), id, span)
}

fn app(a: Expression, b: Expression, id: u32, span: Range<usize>) -> Expression {
    node(Expr::Application(a, b), id, span)
}

fn add(a: Expression, b: Expression, id: u32, span: Range<usize>) -> Expression {
    node(Expr::Add(a, b), id, span)
}

fn parse_value(code: &str) -> (Expression, Typy) {
    match parse(code, Typy::new()) {
        Parsed::Value(v) => v,
        Parsed::Error(e) => panic!("error {:?}", e),
        Parsed::Fatal(e) => panic!("fatal {:?}", e),
        Parsed::Recover(e, _) => panic!("recovered {:?}", e),
    }
}

fn parse_error(code: &str) -> Parsed<(), Diag> {
    match parse(code, Typy::new()) {
        Parsed::Value(_) => panic!("parsed"),
        Parsed::Error(e) => Parsed::Error(e),
        Parsed::Fatal(e) => Parsed::Fatal(e),
        Parsed::Recover(e, _) => Parsed::Recover(e, ()),
    }
}

#[test]
fn parse_variable() {
    let (e, t) = parse_value("x");
    assert_eq!(e, var("x", 0, 0..1));
    assert_eq!(t.len(), 1);
}

#[test]
fn parse_number_gets_number_type() {
    let (e, mut t) = parse_value("42");
    assert_eq!(e, num("42", 0, 0..2));
    assert_eq!(t.len(), 1);
    assert_eq!(t.get(&e), Some(Type::Number));
}

#[test]
fn parse_function() {
    let (e, t) = parse_value("x.x");
    assert_eq!(e, fun("x", var("x", 0, 2..3), 1, 0..3));
    assert_eq!(t.len(), 2);
}

#[test]
fn parse_sample_program() {
    let (e, t) = parse_value("(x.x+(x.x)) 2");
    let inner = fun("x", var("x", 1, 8..9), 2, 6..9);
    let sum = add(var("x", 0, 3..4), inner, 3, 3..10);
    let outer = fun("x", sum, 4, 1..10);
    assert_eq!(e, app(outer, num("2", 5, 12..13), 6, 1..13));
    assert_eq!(t.len(), 7);
}

#[test]
fn parse_application_is_left_associative() {
    let (e, t) = parse_value("f a b");
    let fa = app(var("f", 0, 0..1), var("a", 1, 2..3), 3, 0..3);
    assert_eq!(e, app(fa, var("b", 2, 4..5), 4, 0..5));
    assert_eq!(t.len(), 5);
}

#[test]
fn parse_addition() {
    let (e, t) = parse_value("1 + 2");
    assert_eq!(e, add(num("1", 0, 0..1), num("2", 1, 4..5), 2, 0..5));
    assert_eq!(t.len(), 3);
}

#[test]
fn parse_addition_is_right_associative() {
    let (e, _) = parse_value("1 + 2 + 3");
    let rest = add(num("2", 1, 4..5), num("3", 2, 8..9), 3, 4..9);
    assert_eq!(e, add(num("1", 0, 0..1), rest, 4, 0..9));
}

#[test]
fn parse_let_is_an_application_of_a_function() {
    let (e, t) = parse_value("let f = x.x in f 1");
    let value = fun("x", var("x", 0, 10..11), 1, 8..11);
    let body = app(var("f", 2, 15..16), num("1", 3, 17..18), 4, 15..18);
    let function = fun("f", body, 5, 8..11);
    assert_eq!(e, app(function, value, 6, 0..18));
    assert_eq!(t.len(), 7);
}

#[test]
fn parse_parentheses_add_no_node() {
    let (e, t) = parse_value("((y))");
    assert_eq!(e, var("y", 0, 2..3));
    assert_eq!(t.len(), 1);
}

#[test]
fn parse_keeps_the_given_table() {
    let mut t0 = Typy::new();
    let first = t0.unknown();
    assert_eq!(first, TypeID::from_index(0));
    let r = parse("y", t0);
    match r {
        Parsed::Value((e, t)) => {
            assert_eq!(e, var("y", 1, 0..1));
            assert_eq!(t.len(), 2);
        },
        _ => panic!("expected a value"),
    }
}

#[test]
fn parse_error_on_closing_parenthesis() {
    assert_eq!(
        parse_error(")"),
        Parsed::Error(Diag::ExpectedFound {
            expected: Expected::Expression,
            found: Found::Token(Token::CloseParenthesis),
            span: 0..1,
        })
    );
}

#[test]
fn parse_error_on_empty_input() {
    assert_eq!(
        parse_error(""),
        Parsed::Error(Diag::ExpectedFound { expected: Expected::Expression, found: Found::Eof, span: 0..0 })
    );
}

#[test]
fn parse_error_on_trailing_token() {
    assert_eq!(
        parse_error("x)"),
        Parsed::Error(Diag::ExpectedFound {
            expected: Expected::Eof,
            found: Found::Token(Token::CloseParenthesis),
            span: 1..2,
        })
    );
}

#[test]
fn parse_fatal_on_unclosed_parenthesis() {
    assert_eq!(
        parse_error("(x"),
        Parsed::Fatal(Diag::ExpectedFound {
            expected: Expected::Delim(Delim::CloseParenthesis),
            found: Found::Eof,
            span: 1..1,
        })
    );
}

#[test]
fn parse_fatal_on_closing_with_a_bracket() {
    assert_eq!(
        parse_error("(x]"),
        Parsed::Fatal(Diag::TriedToCloseUnopenedDelimiter { span: 2..3, delim: Delim::CloseBracket })
    );
}

#[test]
fn parse_fatal_on_lexer_error() {
    assert_eq!(parse_error("x ; y"), Parsed::Fatal(Diag::LexerError { span: 2..3 }));
}

#[test]
fn parse_fatal_after_let_without_name() {
    assert_eq!(
        parse_error("let 1"),
        Parsed::Fatal(Diag::ExpectedFound {
            expected: Expected::Identifier,
            found: Found::Token(Token::Number(String::from("1"))),
            span: 4..5,
        })
    );
}

#[test]
fn parse_fatal_after_dot_without_body() {
    assert_eq!(
        parse_error("x."),
        Parsed::Fatal(Diag::ExpectedFound { expected: Expected::Expression, found: Found::Eof, span: 1..1 })
    );
}

#[test]
fn parse_fatal_after_plus_without_operand() {
    assert_eq!(
        parse_error("1 +"),
        Parsed::Fatal(Diag::ExpectedFound { expected: Expected::Expression, found: Found::Eof, span: 2..2 })
    );
}

#[test]
fn parse_fatal_after_let_without_in() {
    assert_eq!(
        parse_error("let a = 1"),
        Parsed::Fatal(Diag::ExpectedFound {
            expected: Expected::Token(Token::In),
            found: Found::Eof,
            span: 8..8,
        })
    );
}
