use learn::token::Token;

fn ident(s: &str) -> Token {
    Token::Identifier(String::from(s))
}

fn number(s: &str) -> Token {
    Token::Number(String::from(s))
}

#[test]
fn lex_sample_program() {
    let toks = Token::lex("(x.x+(x.x)) 2");
    assert_eq!(
        toks,
        vec![
            (Ok(Token::OpenParenthesis), 0..1),
            (Ok(ident("x")), 1..2),
            (Ok(Token::Dot), 2..3),
            (Ok(ident("x")), 3..4),
            (Ok(Token::Plus), 4..5),
            (Ok(Token::OpenParenthesis), 5..6),
            (Ok(ident("x")), 6..7),
            (Ok(Token::Dot), 7..8),
            (Ok(ident("x")), 8..9),
            (Ok(Token::CloseParenthesis), 9..10),
            (Ok(Token::CloseParenthesis), 10..11),
            (Ok(number("2")), 12..13),
        ]
    );
}

#[test]
fn lex_keywords() {
    let toks = Token::lex("let x = 10 in x");
    assert_eq!(
        toks,
        vec![
            (Ok(Token::Let), 0..3),
            (Ok(ident("x")), 4..5),
            (Ok(Token::Equal), 6..7),
            (Ok(number("10")), 8..10),
            (Ok(Token::In), 11..13),
            (Ok(ident("x")), 14..15),
        ]
    );
}

#[test]
fn lex_keyword_prefixes_are_identifiers() {
    let toks = Token::lex("letx inn le i");
    assert_eq!(
        toks,
        vec![
            (Ok(ident("letx")), 0..4),
            (Ok(ident("inn")), 5..8),
            (Ok(ident("le")), 9..11),
            (Ok(ident("i")), 12..13),
        ]
    );
}

#[test]
fn lex_letters_then_digits() {
    let toks = Token::lex("ab12cd");
    assert_eq!(
        toks,
        vec![(Ok(ident("ab")), 0..2), (Ok(number("12")), 2..4), (Ok(ident("cd")), 4..6)]
    );
}

#[test]
fn lex_punctuation() {
    let toks = Token::lex("\\[]+=.");
    assert_eq!(
        toks,
        vec![
            (Ok(Token::Backslash), 0..1),
            (Ok(Token::OpenBracket), 1..2),
            (Ok(Token::CloseBracket), 2..3),
            (Ok(Token::Plus), 3..4),
            (Ok(Token::Equal), 4..5),
            (Ok(Token::Dot), 5..6),
        ]
    );
}

#[test]
fn lex_skips_spaces_and_newlines() {
    let toks = Token::lex("  a\n\nb  ");
    assert_eq!(toks, vec![(Ok(ident("a")), 2..3), (Ok(ident("b")), 5..6)]);
}

#[test]
fn lex_empty_input() {
    assert_eq!(Token::lex(""), vec![]);
    assert_eq!(Token::lex(" \n "), vec![]);
}

#[test]
fn lex_error_on_unknown_character() {
    let toks = Token::lex("x ; y");
    assert_eq!(toks, vec![(Ok(ident("x")), 0..1), (Err(()), 2..3), (Ok(ident("y")), 4..5)]);
}

#[test]
fn lex_error_on_tab() {
    let toks = Token::lex("a\tb");
    assert_eq!(toks, vec![(Ok(ident("a")), 0..1), (Err(()), 1..2), (Ok(ident("b")), 2..3)]);
}

#[test]
fn lex_error_spans_a_whole_character() {
    // 'é' takes two bytes, '€' three.
    let toks = Token::lex("é€x");
    assert_eq!(toks, vec![(Err(()), 0..2), (Err(()), 2..5), (Ok(ident("x")), 5..6)]);
}

#[test]
fn lex_gives_at_most_one_token_per_byte() {
    // every byte a token of its own
    let code = "a.b+(c)[e]=1\\2";
    let toks = Token::lex(code);
    assert_eq!(code.len(), 14);
    assert_eq!(toks.len(), code.len());
    assert!(Token::lex("abc 123").len() <= "abc 123".len());
}
