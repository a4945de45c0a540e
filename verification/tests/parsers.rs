use learn::diag::{Diag, Expected, Found};
use learn::parsers::{or, Eof, Just, Optional, Or, Parser, Span};
use learn::skim::{Context, Lexeme, Parsed, Spanned};
use learn::token::Token;
use learn::typy::Typy;

fn ctx_of(tokens: Vec<Lexeme>) -> Context {
    Context::new(tokens, 0..0, Typy::new())
}

#[test]
fn or_takes_the_first_that_does_not_fail() {
    let mut ctx = ctx_of(vec![(Ok(Token::Plus), 0..1)]);
    let p = or(Just(Token::Dot), Just(Token::Plus));
    assert_eq!(p.parse(&mut ctx), Parsed::Value(Token::Plus));
    assert_eq!(ctx.pos, 1);
    assert_eq!(ctx.span(), 0..1);
}

#[test]
fn or_tries_the_second_from_the_start() {
    let mut ctx = ctx_of(vec![(Ok(Token::Plus), 0..1), (Ok(Token::Dot), 2..3)]);
    let p = Or(Just(Token::Dot), Just(Token::In));
    // the second alternative reads the plus again; the first one's error is dropped
    assert_eq!(
        p.parse(&mut ctx),
        Parsed::Error(Diag::ExpectedFound {
            expected: Expected::Token(Token::In),
            found: Found::Token(Token::Plus),
            span: 0..1,
        })
    );
    assert_eq!(ctx.pos, 1);
}

#[test]
fn or_keeps_a_fatal_error_of_the_first() {
    let mut ctx = ctx_of(vec![(Err(()), 3..4), (Ok(Token::Plus), 5..6)]);
    let p = Or(Just(Token::Dot), Just(Token::Plus));
    assert_eq!(p.parse(&mut ctx), Parsed::Fatal(Diag::LexerError { span: 3..4 }));
    assert_eq!(ctx.pos, 1);
}

#[test]
fn optional_gives_nothing_and_reads_nothing_on_an_error() {
    let mut ctx = ctx_of(vec![(Ok(Token::Plus), 0..1)]);
    assert_eq!(Optional(Just(Token::Dot)).parse(&mut ctx), Parsed::Value(None));
    assert_eq!(ctx.pos, 0);
    assert_eq!(Just(Token::Plus).optional().parse(&mut ctx), Parsed::Value(Some(Token::Plus)));
    assert_eq!(ctx.pos, 1);
}

#[test]
fn spanned_pairs_the_value_with_its_span() {
    let mut ctx = ctx_of(vec![(Ok(Token::Plus), 4..5), (Ok(Token::Dot), 6..7)]);
    assert_eq!(Span(Just(Token::Plus)).parse(&mut ctx), Parsed::Value(Spanned(Token::Plus, 4..5)));
    assert_eq!(
        Just(Token::Plus).spanned().parse(&mut ctx),
        Parsed::Error(Diag::ExpectedFound {
            expected: Expected::Token(Token::Plus),
            found: Found::Token(Token::Dot),
            span: 6..7,
        })
    );
}

#[test]
fn eof_parser_at_the_end() {
    let mut ctx = ctx_of(vec![]);
    assert_eq!(Eof.parse(&mut ctx), Parsed::Value(()));
}
