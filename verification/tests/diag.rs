use learn::diag::{Diag, Expected, Found};
use learn::token::{Delim, Delimiter, Token};
use learn::types::Type;

fn found_dot(span: std::ops::Range<usize>) -> Diag {
    Diag::expected_found(Expected::Number, Token::Dot, span)
}

#[test]
fn diag_constructors() {
    assert_eq!(Diag::lexer_error(1..4), Diag::LexerError { span: 1..4 });
    assert_eq!(
        found_dot(2..3),
        Diag::ExpectedFound { expected: Expected::Number, found: Found::Token(Token::Dot), span: 2..3 }
    );
    assert_eq!(
        Diag::expected_eof_found(Token::Plus, 5..6),
        Diag::ExpectedFound { expected: Expected::Eof, found: Found::Token(Token::Plus), span: 5..6 }
    );
    assert_eq!(
        Diag::tried_to_close_unopened_delimiter(Delim::CloseBracket, 3..4),
        Diag::TriedToCloseUnopenedDelimiter { span: 3..4, delim: Delim::CloseBracket }
    );
    assert_eq!(
        Diag::did_not_close_delimiter(Delim::OpenParenthesis, 0..1, 9..10),
        Diag::DidNotCloseDelimiter { opener: Delim::OpenParenthesis, span: 0..1 }
    );
}

#[test]
fn diag_expected_found_eof_points_at_the_start() {
    assert_eq!(
        Diag::expected_found_eof(Expected::Identifier, 3..7),
        Diag::ExpectedFound { expected: Expected::Identifier, found: Found::Eof, span: 3..3 }
    );
}

#[test]
fn diag_mismatching_delimiter_fields() {
    assert_eq!(
        Diag::tried_to_close_mismatching_delimiter(
            (0..1, Delim::OpenBracket),
            (1..2, Delim::OpenParenthesis),
            (2..3, Delim::CloseBracket)
        ),
        Diag::TriedToCloseMismatchingDelimiteer {
            matching_open_span: 0..1,
            matching_open: Delim::OpenBracket,
            current_open_span: 1..2,
            current_open: Delim::OpenParenthesis,
            close_span: 2..3,
            close: Delim::CloseBracket,
        }
    );
}

#[test]
fn diag_expected_replaces_the_expectation() {
    assert_eq!(
        found_dot(2..3).expected(Expected::Expression),
        Diag::ExpectedFound { expected: Expected::Expression, found: Found::Token(Token::Dot), span: 2..3 }
    );
    // other diagnostics are left alone
    assert_eq!(Diag::lexer_error(1..2).expected(Expected::Expression), Diag::lexer_error(1..2));
}

#[test]
fn diag_expected_goes_into_the_main_of_a_merge() {
    let m = Diag::merge(found_dot(0..1), found_dot(4..5));
    assert_eq!(
        m.expected(Expected::Identifier),
        Diag::Merged {
            main: Box::new(Diag::ExpectedFound {
                expected: Expected::Identifier,
                found: Found::Token(Token::Dot),
                span: 0..1,
            }),
            other: Box::new(found_dot(4..5)),
        }
    );
}

#[test]
fn diag_merge_keeps_both() {
    let a = Diag::lexer_error(0..1);
    let b = Diag::UndefinedVariable { name: String::from("y"), span: 2..3 };
    assert_eq!(Diag::merge(a.clone(), b.clone()), Diag::Merged { main: Box::new(a), other: Box::new(b) });
}

#[test]
fn diag_clone_is_equal() {
    let d = Diag::merge(
        Diag::ExpectedFound {
            expected: Expected::Type(String::from("number"), Type::Number),
            found: Found::Type(String::from("T0"), Type::Number),
            span: 1..2,
        },
        Diag::UndefinedVariable { name: String::from("q"), span: 0..1 },
    );
    assert_eq!(d.clone(), d);
}

#[test]
fn delim_opposite_is_an_involution() {
    let all = [Delim::OpenParenthesis, Delim::CloseParenthesis, Delim::OpenBracket, Delim::CloseBracket];
    assert_eq!(Delim::OpenParenthesis.opposite(), Delim::CloseParenthesis);
    assert_eq!(Delim::CloseBracket.opposite(), Delim::OpenBracket);
    for d in all {
        assert_ne!(d.opposite(), d);
        assert_eq!(d.opposite().opposite(), d);
    }
}

#[test]
fn delim_token_round_trip() {
    let all = [Delim::OpenParenthesis, Delim::CloseParenthesis, Delim::OpenBracket, Delim::CloseBracket];
    for d in all {
        assert_eq!(Delim::try_from(Token::from(d)), Ok(d));
    }
    assert_eq!(Token::from(Delim::OpenBracket), Token::OpenBracket);
    assert_eq!(Delim::try_from(Token::CloseParenthesis), Ok(Delim::CloseParenthesis));
}

#[test]
fn delim_from_other_tokens_fails() {
    assert_eq!(Delim::try_from(Token::Dot), Err(()));
    assert_eq!(Delim::try_from(Token::Identifier(String::from("a"))), Err(()));
    assert_eq!(Delim::try_from(Token::Let), Err(()));
}

#[test]
fn token_alike_compares_text() {
    let a = Token::Identifier(String::from("a"));
    assert!(a.alike(&Token::Identifier(String::from("a"))));
    assert!(!a.alike(&Token::Identifier(String::from("b"))));
    assert!(!a.alike(&Token::Number(String::from("a"))));
    assert!(Token::Dot.alike(&Token::Dot));
    assert!(!Token::Dot.alike(&Token::Plus));
    assert_eq!(a.clone(), a);
}

#[test]
fn expected_and_found_from_their_contents() {
    assert_eq!(Expected::from(Token::In), Expected::Token(Token::In));
    assert_eq!(Expected::from(Delim::OpenBracket), Expected::Delim(Delim::OpenBracket));
    let e: Expected = (String::from("number"), Type::Number).into();
    assert_eq!(e, Expected::Type(String::from("number"), Type::Number));
    assert_eq!(Found::from(Token::Plus), Found::Token(Token::Plus));
    let f: Found = (String::from("T0"), Type::Number).into();
    assert_eq!(f, Found::Type(String::from("T0"), Type::Number));
}
