use vstd::prelude::*;

verus! {

/// A token of the language.
#[derive(Debug, PartialEq)]
pub enum Token {
    Identifier(String),
    Number(String),
    Dot,
    Backslash,
    Plus,
    OpenParenthesis,
    CloseParenthesis,
    OpenBracket,
    CloseBracket,
    Let,
    Equal,
    In,
}

impl Clone for Token {
    fn clone(&self) -> (r: Self)
        ensures
            r == *self,
    {
        match self {
            Token::Identifier(s) => Token::Identifier(s.clone()),
            Token::Number(s) => Token::Number(s.clone()),
            Token::Dot => Token::Dot,
            Token::Backslash => Token::Backslash,
            Token::Plus => Token::Plus,
            Token::OpenParenthesis => Token::OpenParenthesis,
            Token::CloseParenthesis => Token::CloseParenthesis,
            Token::OpenBracket => Token::OpenBracket,
            Token::CloseBracket => Token::CloseBracket,
            Token::Let => Token::Let,
            Token::Equal => Token::Equal,
            Token::In => Token::In,
        }
    }
}

/// Two tokens are alike when they are the same kind of token and, for the
/// tokens that carry text, their texts are the same.
pub open spec fn tokens_alike(a: Token, b: Token) -> bool {
    match (a, b) {
        (Token::Identifier(x), Token::Identifier(y)) => x@ == y@,
        (Token::Number(x), Token::Number(y)) => x@ == y@,
        (Token::Identifier(_), _) | (_, Token::Identifier(_)) => false,
        (Token::Number(_), _) | (_, Token::Number(_)) => false,
        _ => a == b,
    }
}

impl Token {
    /// Whether two tokens are alike (see [`tokens_alike`]).
    pub fn alike(&self, other: &Token) -> (r: bool)
        ensures
            r == tokens_alike(*self, *other),
    {
        match (self, other) {
            (Token::Identifier(x), Token::Identifier(y)) => *x == *y,
            (Token::Number(x), Token::Number(y)) => *x == *y,
            (Token::Dot, Token::Dot) => true,
            (Token::Backslash, Token::Backslash) => true,
            (Token::Plus, Token::Plus) => true,
            (Token::OpenParenthesis, Token::OpenParenthesis) => true,
            (Token::CloseParenthesis, Token::CloseParenthesis) => true,
            (Token::OpenBracket, Token::OpenBracket) => true,
            (Token::CloseBracket, Token::CloseBracket) => true,
            (Token::Let, Token::Let) => true,
            (Token::Equal, Token::Equal) => true,
            (Token::In, Token::In) => true,
            _ => false,
        }
    }
}

/// A delimiter: an opening or closing parenthesis or bracket.
#[derive(Debug, Clone, Copy, PartialEq, Eq, Structural)]
pub enum Delim {
    OpenParenthesis,
    CloseParenthesis,
    OpenBracket,
    CloseBracket,
}

pub open spec fn delim_token(d: Delim) -> Token {
    match d {
        Delim::CloseParenthesis => Token::CloseParenthesis,
        Delim::OpenParenthesis => Token::OpenParenthesis,
        Delim::CloseBracket => Token::CloseBracket,
        Delim::OpenBracket => Token::OpenBracket,
    }
}

/// The delimiter that a token stands for, if it stands for one.
pub open spec fn token_delim(t: Token) -> Option<Delim> {
    match t {
        Token::CloseBracket => Some(Delim::CloseBracket),
        Token::CloseParenthesis => Some(Delim::CloseParenthesis),
        Token::OpenBracket => Some(Delim::OpenBracket),
        Token::OpenParenthesis => Some(Delim::OpenParenthesis),
        _ => None,
    }
}

pub open spec fn delim_opposite(d: Delim) -> Delim {
    match d {
        Delim::CloseParenthesis => Delim::OpenParenthesis,
        Delim::OpenParenthesis => Delim::CloseParenthesis,
        Delim::CloseBracket => Delim::OpenBracket,
        Delim::OpenBracket => Delim::CloseBracket,
    }
}

/// A delimiter that has an opposite: the one that closes what it opens,
/// or opens what it closes.
pub trait Delimiter: Sized {
    spec fn opposite_spec(&self) -> Self;

    fn opposite(&self) -> (r: Self)
        ensures
            r == self.opposite_spec(),
    ;
}

impl Delimiter for Delim {
    open spec fn opposite_spec(&self) -> Delim {
        delim_opposite(*self)
    }

    fn opposite(&self) -> (r: Delim) {
        match self {
            Delim::CloseParenthesis => Delim::OpenParenthesis,
            Delim::OpenParenthesis => Delim::CloseParenthesis,
            Delim::CloseBracket => Delim::OpenBracket,
            Delim::OpenBracket => Delim::CloseBracket,
        }
    }
}

/// The token that opens or closes with the given delimiter.
impl From<Delim> for Token {
    fn from(value: Delim) -> (r: Token) {
        match value {
            Delim::CloseParenthesis => Token::CloseParenthesis,
            Delim::OpenParenthesis => Token::OpenParenthesis,
            Delim::CloseBracket => Token::CloseBracket,
            Delim::OpenBracket => Token::OpenBracket,
        }
    }
}

impl vstd::std_specs::convert::FromSpecImpl<Delim> for Token {
    open spec fn obeys_from_spec() -> bool {
        true
    }

    open spec fn from_spec(v: Delim) -> Token {
        delim_token(v)
    }
}

/// The delimiter a token stands for; `Err(())` for a token that is no delimiter.
impl TryFrom<Token> for Delim {
    type Error = ();

    fn try_from(value: Token) -> (r: Result<Delim, ()>) {
        match value {
            Token::CloseBracket => Ok(Delim::CloseBracket),
            Token::CloseParenthesis => Ok(Delim::CloseParenthesis),
            Token::OpenBracket => Ok(Delim::OpenBracket),
            Token::OpenParenthesis => Ok(Delim::OpenParenthesis),
            _ => Err(()),
        }
    }
}

impl vstd::std_specs::convert::TryFromSpecImpl<Token> for Delim {
    open spec fn obeys_try_from_spec() -> bool {
        true
    }

    open spec fn try_from_spec(v: Token) -> Result<Delim, ()> {
        match token_delim(v) {
            Some(d) => Ok(d),
            None => Err(()),
        }
    }
}

/// Taking the opposite of a delimiter twice gives the delimiter back.
pub proof fn lemma_opposite_involution(d: Delim)
    ensures
        delim_opposite(delim_opposite(d)) == d,
        delim_opposite(d) != d,
{
}

/// Turning a delimiter into its token and back gives the delimiter back.
pub proof fn lemma_delim_token_roundtrip(d: Delim)
    ensures
        token_delim(delim_token(d)) == Some(d),
{
}

} // verus!
