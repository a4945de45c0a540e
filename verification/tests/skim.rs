use std::ops::Range;

use learn::diag::{Diag, Expected, Found};
use learn::skim::{
    chain, eof, expect, expect_all, first, halt, just, repeat_step, second, select, try_map, Context,
    Lexeme, Merge, Parsed, RepeatStep, Spanned,
};
use learn::token::{Delim, Token};
use learn::types::Type;
use learn::typy::Typy;

fn err(n: usize) -> Diag {
    Diag::LexerError { span: n..n + 1 }
}

fn merged(a: Diag, b: Diag) -> Diag {
    Diag::Merged { main: Box::new(a), other: Box::new(b) }
}

fn ctx_of(tokens: Vec<Lexeme>) -> Context {
    Context::new(tokens, 0..0, Typy::new())
}

#[test]
fn parsed_map_applies_to_values_only() {
    let v: Parsed<u32, Diag> = Parsed::Value(2);
    assert_eq!(v.map(|x| x + 1), Parsed::Value(3));
    let r: Parsed<u32, Diag> = Parsed::Recover(err(0), 5);
    assert_eq!(r.map(|x| x * 2), Parsed::Recover(err(0), 10));
    let e: Parsed<u32, Diag> = Parsed::Error(err(1));
    assert_eq!(e.map(|x| x + 1), Parsed::Error(err(1)));
    let f: Parsed<u32, Diag> = Parsed::Fatal(err(2));
    assert_eq!(f.map(|x| x + 1), Parsed::Fatal(err(2)));
}

#[test]
fn parsed_map_identity_and_composition() {
    let p: Parsed<u32, Diag> = Parsed::Recover(err(3), 4);
    assert_eq!(p.clone().map(|x| x), p);
    let twice = p.clone().map(|x| x + 1).map(|x| x * 3);
    let once = p.map(|x| (x + 1) * 3);
    assert_eq!(twice, once);
}

#[test]
fn parsed_map_err_applies_to_errors_only() {
    let v: Parsed<u32, u32> = Parsed::Value(2);
    assert_eq!(v.map_err(|e| e + 100), Parsed::Value(2));
    let e: Parsed<u32, u32> = Parsed::Error(1);
    assert_eq!(e.map_err(|e| e + 100), Parsed::Error(101));
    let f: Parsed<u32, u32> = Parsed::Fatal(1);
    assert_eq!(f.map_err(|e| e + 100), Parsed::Fatal(101));
    let r: Parsed<u32, u32> = Parsed::Recover(1, 7);
    assert_eq!(r.map_err(|e| e + 100), Parsed::Recover(101, 7));
}

#[test]
fn chain_pairs_values() {
    let a: Parsed<u32, Diag> = Parsed::Value(1);
    let b: Parsed<u32, Diag> = Parsed::Value(2);
    assert_eq!(chain(a, b, false), Parsed::Value((1, 2)));
}

#[test]
fn chain_error_after_value_is_fatal_behind_a_cut() {
    let b: Parsed<u32, Diag> = Parsed::Error(err(1));
    assert_eq!(chain(Parsed::Value(1u32), b.clone(), false), Parsed::Error(err(1)));
    assert_eq!(chain(Parsed::Value(1u32), b, true), Parsed::Fatal(err(1)));
    let f: Parsed<u32, Diag> = Parsed::Fatal(err(2));
    assert_eq!(chain(Parsed::Value(1u32), f, false), Parsed::Fatal(err(2)));
}

#[test]
fn chain_keeps_a_first_failure() {
    let a: Parsed<u32, Diag> = Parsed::Error(err(1));
    assert_eq!(chain(a, Parsed::Value(2u32), true), Parsed::Error(err(1)));
    let a: Parsed<u32, Diag> = Parsed::Fatal(err(1));
    assert_eq!(chain(a, Parsed::Value(2u32), false), Parsed::Fatal(err(1)));
}

#[test]
fn chain_merges_recovered_errors() {
    let a: Parsed<u32, Diag> = Parsed::Recover(err(1), 1);
    assert_eq!(chain(a.clone(), Parsed::Value(2u32), false), Parsed::Recover(err(1), (1, 2)));
    assert_eq!(
        chain(a.clone(), Parsed::<u32, Diag>::Error(err(2)), false),
        Parsed::Fatal(merged(err(1), err(2)))
    );
    assert_eq!(
        chain(a.clone(), Parsed::<u32, Diag>::Fatal(err(2)), false),
        Parsed::Fatal(merged(err(1), err(2)))
    );
    assert_eq!(
        chain(a, Parsed::Recover(err(2), 2u32), false),
        Parsed::Recover(merged(err(1), err(2)), (1, 2))
    );
    assert_eq!(
        chain(Parsed::Value(1u32), Parsed::Recover(err(2), 2u32), false),
        Parsed::Recover(err(2), (1, 2))
    );
}

#[test]
fn first_and_second_pick_from_pairs() {
    let p: Parsed<(u32, u32), Diag> = Parsed::Recover(err(0), (1, 2));
    assert_eq!(first(p.clone()), Parsed::Recover(err(0), 1));
    assert_eq!(second(p), Parsed::Recover(err(0), 2));
    let e: Parsed<(u32, u32), Diag> = Parsed::Error(err(1));
    assert_eq!(first(e), Parsed::Error(err(1)));
}

#[test]
fn halt_keeps_failures() {
    let e: Parsed<u32, Diag> = Parsed::Error(err(1));
    assert_eq!(halt::<u32, bool>(e), Parsed::Error(err(1)));
    let f: Parsed<u32, Diag> = Parsed::Fatal(err(2));
    assert_eq!(halt::<u32, bool>(f), Parsed::Fatal(err(2)));
}

#[test]
fn expect_renames_what_was_expected() {
    let found = Diag::ExpectedFound { expected: Expected::Number, found: Found::Eof, span: 3..3 };
    let e: Parsed<u32, Diag> = Parsed::Error(found.clone());
    assert_eq!(
        expect(e, Expected::Expression),
        Parsed::Error(Diag::ExpectedFound { expected: Expected::Expression, found: Found::Eof, span: 3..3 })
    );
    // only errors that allow another alternative
    let f: Parsed<u32, Diag> = Parsed::Fatal(found.clone());
    assert_eq!(expect(f, Expected::Expression), Parsed::Fatal(found.clone()));
    let f: Parsed<u32, Diag> = Parsed::Fatal(found);
    assert_eq!(
        expect_all(f, Expected::Identifier),
        Parsed::Fatal(Diag::ExpectedFound { expected: Expected::Identifier, found: Found::Eof, span: 3..3 })
    );
}

#[test]
fn try_map_after_recovery_makes_failure_fatal() {
    let step: Parsed<u32, Diag> = Parsed::Error(err(2));
    assert_eq!(try_map(None, step.clone()), Parsed::Error(err(2)));
    assert_eq!(try_map(Some(err(1)), step), Parsed::Fatal(merged(err(1), err(2))));
    assert_eq!(try_map(Some(err(1)), Parsed::Value(5u32)), Parsed::Value(5));
    assert_eq!(
        try_map(Some(err(1)), Parsed::Recover(err(3), 5u32)),
        Parsed::Fatal(merged(err(1), err(3)))
    );
}

#[test]
fn repeat_step_gathers_and_backtracks() {
    match repeat_step(Ok(vec![1u32]), Parsed::Value(2)) {
        RepeatStep::Continue(Ok(v)) => assert_eq!(v, vec![1, 2]),
        _ => panic!("expected to go on"),
    }
    match repeat_step(Ok(vec![1u32]), Parsed::Error(err(0))) {
        RepeatStep::Backtrack(v) => assert_eq!(v, vec![1]),
        _ => panic!("expected to backtrack"),
    }
    match repeat_step(Ok(Vec::<u32>::new()), Parsed::Error(err(0))) {
        RepeatStep::Stop(p) => assert_eq!(p, Parsed::Error(err(0))),
        _ => panic!("expected to stop"),
    }
    match repeat_step(Err((err(1), vec![1u32])), Parsed::Recover(err(2), 2)) {
        RepeatStep::Continue(Err((e, v))) => {
            assert_eq!(e, merged(err(1), err(2)));
            assert_eq!(v, vec![1, 2]);
        },
        _ => panic!("expected to go on"),
    }
    match repeat_step(Ok(vec![1u32]), Parsed::Fatal(err(4))) {
        RepeatStep::Stop(p) => assert_eq!(p, Parsed::Fatal(err(4))),
        _ => panic!("expected to stop"),
    }
}

#[test]
fn merge_spans_and_spanned_values() {
    let r: Range<usize> = Merge::merge(2..4, 7..9);
    assert_eq!(r, 2..9);
    let s = Spanned(5u32, 1..3);
    assert_eq!(s.clone(), Spanned(5u32, 1..3));
}

#[test]
fn context_next_reads_tokens_and_spans() {
    let mut ctx = ctx_of(vec![(Ok(Token::Dot), 0..1), (Err(()), 2..3)]);
    assert_eq!(ctx.span(), 0..0);
    assert_eq!(ctx.next(), Parsed::Value(Some(Token::Dot)));
    assert_eq!(ctx.span(), 0..1);
    assert_eq!(ctx.next(), Parsed::Fatal(Diag::LexerError { span: 2..3 }));
    assert_eq!(ctx.span(), 2..3);
    assert_eq!(ctx.next(), Parsed::Value(None));
    assert_eq!(ctx.span(), 2..3);
}

#[test]
fn context_closes_matching_delimiters() {
    let mut ctx = ctx_of(vec![(Ok(Token::OpenParenthesis), 0..1), (Ok(Token::CloseParenthesis), 1..2)]);
    assert_eq!(ctx.next(), Parsed::Value(Some(Token::OpenParenthesis)));
    ctx.open_delimiter(Delim::OpenParenthesis);
    assert_eq!(ctx.next(), Parsed::Value(Some(Token::CloseParenthesis)));
    assert_eq!(ctx.close_delimiter(Delim::CloseParenthesis), Ok(()));
    // nothing is open any more
    assert_eq!(
        ctx.close_delimiter(Delim::CloseParenthesis),
        Err(Diag::TriedToCloseUnopenedDelimiter { span: 1..2, delim: Delim::CloseParenthesis })
    );
}

#[test]
fn context_reports_mismatching_delimiter() {
    let mut ctx = ctx_of(vec![
        (Ok(Token::OpenBracket), 0..1),
        (Ok(Token::OpenParenthesis), 1..2),
        (Ok(Token::CloseBracket), 2..3),
    ]);
    assert_eq!(ctx.next(), Parsed::Value(Some(Token::OpenBracket)));
    ctx.open_delimiter(Delim::OpenBracket);
    assert_eq!(ctx.next(), Parsed::Value(Some(Token::OpenParenthesis)));
    ctx.open_delimiter(Delim::OpenParenthesis);
    assert_eq!(ctx.next(), Parsed::Value(Some(Token::CloseBracket)));
    assert_eq!(
        ctx.close_delimiter(Delim::CloseBracket),
        Err(Diag::TriedToCloseMismatchingDelimiteer {
            matching_open_span: 0..1,
            matching_open: Delim::OpenBracket,
            current_open_span: 1..2,
            current_open: Delim::OpenParenthesis,
            close_span: 2..3,
            close: Delim::CloseBracket,
        })
    );
}

#[test]
fn context_breakpoint_restores_state() {
    let mut ctx = ctx_of(vec![(Ok(Token::Plus), 0..1), (Ok(Token::Dot), 1..2)]);
    let b = ctx.breakpoint();
    assert_eq!(ctx.next(), Parsed::Value(Some(Token::Plus)));
    ctx.open_delimiter(Delim::OpenBracket);
    let _ = ctx.ctx.unknown();
    ctx.restore(b);
    assert_eq!(ctx.span(), 0..0);
    assert_eq!(ctx.ctx.len(), 0);
    assert_eq!(ctx.next(), Parsed::Value(Some(Token::Plus)));
    assert_eq!(
        ctx.close_delimiter(Delim::CloseBracket),
        Err(Diag::TriedToCloseUnopenedDelimiter { span: 0..1, delim: Delim::CloseBracket })
    );
}

#[test]
fn context_take_ctx_gives_the_table() {
    let mut ctx = ctx_of(vec![]);
    let a = ctx.ctx.known(Type::Number);
    let mut t = ctx.take_ctx();
    assert_eq!(t.len(), 1);
    assert_eq!(t.get(&a), Some(Type::Number));
}

#[test]
fn just_reads_the_given_token() {
    let mut ctx = ctx_of(vec![(Ok(Token::Dot), 0..1), (Ok(Token::Plus), 2..3)]);
    assert_eq!(just(&mut ctx, Token::Dot), Parsed::Value(Token::Dot));
    assert_eq!(
        just(&mut ctx, Token::Dot),
        Parsed::Error(Diag::ExpectedFound {
            expected: Expected::Token(Token::Dot),
            found: Found::Token(Token::Plus),
            span: 2..3,
        })
    );
    assert_eq!(
        just(&mut ctx, Token::In),
        Parsed::Error(Diag::ExpectedFound { expected: Expected::Token(Token::In), found: Found::Eof, span: 2..2 })
    );
}

#[test]
fn just_compares_identifier_text() {
    let mut ctx = ctx_of(vec![(Ok(Token::Identifier(String::from("ab"))), 0..2)]);
    assert_eq!(
        just(&mut ctx, Token::Identifier(String::from("ab"))),
        Parsed::Value(Token::Identifier(String::from("ab")))
    );
    let mut ctx = ctx_of(vec![(Ok(Token::Identifier(String::from("ab"))), 0..2)]);
    assert_eq!(
        just(&mut ctx, Token::Identifier(String::from("b"))),
        Parsed::Error(Diag::ExpectedFound {
            expected: Expected::Token(Token::Identifier(String::from("b"))),
            found: Found::Token(Token::Identifier(String::from("ab"))),
            span: 0..2,
        })
    );
}

#[test]
fn select_applies_the_choice() {
    let choose = |t: Token| match t {
        Token::Number(d) => Some(d),
        _ => None,
    };
    let mut ctx = ctx_of(vec![(Ok(Token::Number(String::from("12"))), 0..2), (Ok(Token::Dot), 3..4)]);
    assert_eq!(select(&mut ctx, Expected::Number, choose), Parsed::Value(String::from("12")));
    assert_eq!(
        select(&mut ctx, Expected::Number, choose),
        Parsed::Error(Diag::ExpectedFound { expected: Expected::Number, found: Found::Token(Token::Dot), span: 3..4 })
    );
    assert_eq!(
        select(&mut ctx, Expected::Number, choose),
        Parsed::Error(Diag::ExpectedFound { expected: Expected::Number, found: Found::Eof, span: 3..3 })
    );
}

#[test]
fn eof_at_end_of_input() {
    let mut ctx = ctx_of(vec![]);
    assert_eq!(eof(&mut ctx), Parsed::Value(()));
}

#[test]
fn eof_finds_a_token() {
    let mut ctx = ctx_of(vec![(Ok(Token::Plus), 4..5)]);
    assert_eq!(
        eof(&mut ctx),
        Parsed::Error(Diag::ExpectedFound { expected: Expected::Eof, found: Found::Token(Token::Plus), span: 4..5 })
    );
}

#[test]
fn eof_reports_unclosed_delimiters_in_order() {
    let mut ctx = ctx_of(vec![(Ok(Token::OpenParenthesis), 0..1), (Ok(Token::OpenBracket), 1..2)]);
    let _ = ctx.next();
    ctx.open_delimiter(Delim::OpenParenthesis);
    let _ = ctx.next();
    ctx.open_delimiter(Delim::OpenBracket);
    assert_eq!(
        eof(&mut ctx),
        Parsed::Error(merged(
            Diag::DidNotCloseDelimiter { opener: Delim::OpenParenthesis, span: 0..1 },
            Diag::DidNotCloseDelimiter { opener: Delim::OpenBracket, span: 1..2 },
        ))
    );
    // the delimiters were drained
    assert_eq!(eof(&mut ctx), Parsed::Value(()));
}
