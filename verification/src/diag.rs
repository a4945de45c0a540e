use std::ops::Range;
use vstd::prelude::*;

use crate::token::{Delim, Token};
use crate::types::Type;

verus! {

/// What the parser or the type checker expected to find.
#[derive(Debug, PartialEq)]
pub enum Expected {
    Token(Token),
    Delim(Delim),
    Eof,
    Identifier,
    Number,
    Expression,
    /// A type, with its rendering.
    Type(String, Type),
}

/// What the parser or the type checker found instead.
#[derive(Debug, PartialEq)]
pub enum Found {
    Token(Token),
    Eof,
    /// A type, with its rendering.
    Type(String, Type),
}

/// A diagnostic: what went wrong, and where.
#[derive(Debug, PartialEq)]
pub enum Diag {
    LexerError { span: Range<usize> },
    ExpectedFound { expected: Expected, found: Found, span: Range<usize> },
    DidNotCloseDelimiter { opener: Delim, span: Range<usize> },
    TriedToCloseMismatchingDelimiteer {
        matching_open_span: Range<usize>,
        matching_open: Delim,
        current_open_span: Range<usize>,
        current_open: Delim,
        close_span: Range<usize>,
        close: Delim,
    },
    TriedToCloseUnopenedDelimiter { span: Range<usize>, delim: Delim },
    /// Two diagnostics reported together: the main one, and the one that followed it.
    Merged { main: Box<Diag>, other: Box<Diag> },
    UndefinedVariable { name: String, span: Range<usize> },
}

impl Clone for Expected {
    fn clone(&self) -> (r: Self)
        ensures
            r == *self,
    {
        match self {
            Expected::Token(t) => Expected::Token(t.clone()),
            Expected::Delim(d) => Expected::Delim(*d),
            Expected::Eof => Expected::Eof,
            Expected::Identifier => Expected::Identifier,
            Expected::Number => Expected::Number,
            Expected::Expression => Expected::Expression,
            Expected::Type(s, t) => Expected::Type(s.clone(), *t),
        }
    }
}

impl Clone for Found {
    fn clone(&self) -> (r: Self)
        ensures
            r == *self,
    {
        match self {
            Found::Token(t) => Found::Token(t.clone()),
            Found::Eof => Found::Eof,
            Found::Type(s, t) => Found::Type(s.clone(), *t),
        }
    }
}

impl Clone for Diag {
    fn clone(&self) -> (r: Self)
        ensures
            r == *self,
        decreases self,
    {
        match self {
            Diag::LexerError { span } => Diag::LexerError { span: copy_span(span) },
            Diag::ExpectedFound { expected, found, span } => Diag::ExpectedFound {
                expected: expected.clone(),
                found: found.clone(),
                span: copy_span(span),
            },
            Diag::DidNotCloseDelimiter { opener, span } => Diag::DidNotCloseDelimiter {
                opener: *opener,
                span: copy_span(span),
            },
            Diag::TriedToCloseMismatchingDelimiteer {
                matching_open_span,
                matching_open,
                current_open_span,
                current_open,
                close_span,
                close,
            } => Diag::TriedToCloseMismatchingDelimiteer {
                matching_open_span: copy_span(matching_open_span),
                matching_open: *matching_open,
                current_open_span: copy_span(current_open_span),
                current_open: *current_open,
                close_span: copy_span(close_span),
                close: *close,
            },
            Diag::TriedToCloseUnopenedDelimiter { span, delim } => Diag::TriedToCloseUnopenedDelimiter {
                span: copy_span(span),
                delim: *delim,
            },
            Diag::Merged { main, other } => {
                let m: &Diag = main;
                let o: &Diag = other;
                Diag::Merged { main: Box::new(m.clone()), other: Box::new(o.clone()) }
            },
            Diag::UndefinedVariable { name, span } => Diag::UndefinedVariable {
                name: name.clone(),
                span: copy_span(span),
            },
        }
    }
}

impl From<Token> for Expected {
    fn from(t: Token) -> (r: Expected) {
        Expected::Token(t)
    }
}

impl vstd::std_specs::convert::FromSpecImpl<Token> for Expected {
    open spec fn obeys_from_spec() -> bool {
        true
    }

    open spec fn from_spec(v: Token) -> Expected {
        Expected::Token(v)
    }
}

impl From<Delim> for Expected {
    fn from(d: Delim) -> (r: Expected) {
        Expected::Delim(d)
    }
}

impl vstd::std_specs::convert::FromSpecImpl<Delim> for Expected {
    open spec fn obeys_from_spec() -> bool {
        true
    }

    open spec fn from_spec(v: Delim) -> Expected {
        Expected::Delim(v)
    }
}

impl From<(String, Type)> for Expected {
    fn from(v: (String, Type)) -> (r: Expected) {
        Expected::Type(v.0, v.1)
    }
}

impl vstd::std_specs::convert::FromSpecImpl<(String, Type)> for Expected {
    open spec fn obeys_from_spec() -> bool {
        true
    }

    open spec fn from_spec(v: (String, Type)) -> Expected {
        Expected::Type(v.0, v.1)
    }
}

impl From<Token> for Found {
    fn from(t: Token) -> (r: Found) {
        Found::Token(t)
    }
}

impl vstd::std_specs::convert::FromSpecImpl<Token> for Found {
    open spec fn obeys_from_spec() -> bool {
        true
    }

    open spec fn from_spec(v: Token) -> Found {
        Found::Token(v)
    }
}

impl From<(String, Type)> for Found {
    fn from(v: (String, Type)) -> (r: Found) {
        Found::Type(v.0, v.1)
    }
}

impl vstd::std_specs::convert::FromSpecImpl<(String, Type)> for Found {
    open spec fn obeys_from_spec() -> bool {
        true
    }

    open spec fn from_spec(v: (String, Type)) -> Found {
        Found::Type(v.0, v.1)
    }
}

/// A copy of a span.
pub fn copy_span(s: &Range<usize>) -> (r: Range<usize>)
    ensures
        r == *s,
{
    Range { start: s.start, end: s.end }
}

/// The span that starts where `a` starts and ends where `b` ends.
pub open spec fn span_merge(a: Range<usize>, b: Range<usize>) -> Range<usize> {
    Range { start: a.start, end: b.end }
}

/// An empty span at the start of `s`.
pub open spec fn span_start(s: Range<usize>) -> Range<usize> {
    Range { start: s.start, end: s.start }
}

/// What `Diag::expected` makes of a diagnostic: the expectation of the
/// main diagnostic is replaced.
pub open spec fn diag_expected(d: Diag, e: Expected) -> Diag
    decreases d,
{
    match d {
        Diag::ExpectedFound { expected: _, found, span } => Diag::ExpectedFound {
            expected: e,
            found,
            span,
        },
        Diag::Merged { main, other } => Diag::Merged {
            main: Box::new(diag_expected(*main, e)),
            other,
        },
        _ => d,
    }
}

pub open spec fn diag_merge(a: Diag, b: Diag) -> Diag {
    Diag::Merged { main: Box::new(a), other: Box::new(b) }
}

impl Diag {
    pub fn lexer_error(span: Range<usize>) -> (r: Diag)
        ensures
            r == (Diag::LexerError { span }),
    {
        Diag::LexerError { span }
    }

    pub fn expected_found(expected: Expected, found: Token, span: Range<usize>) -> (r: Diag)
        ensures
            r == (Diag::ExpectedFound { expected, found: Found::Token(found), span }),
    {
        Diag::ExpectedFound { expected, found: Found::Token(found), span }
    }

    /// The input ended where `expected` was expected; the diagnostic points at
    /// the start of the last span read.
    pub fn expected_found_eof(expected: Expected, span: Range<usize>) -> (r: Diag)
        ensures
            r == (Diag::ExpectedFound { expected, found: Found::Eof, span: span_start(span) }),
    {
        Diag::ExpectedFound { expected, found: Found::Eof, span: Range { start: span.start, end: span.start } }
    }

    pub fn expected_eof_found(found: Token, span: Range<usize>) -> (r: Diag)
        ensures
            r == (Diag::ExpectedFound { expected: Expected::Eof, found: Found::Token(found), span }),
    {
        Diag::ExpectedFound { expected: Expected::Eof, found: Found::Token(found), span }
    }

    pub fn tried_to_close_unopened_delimiter(closer: Delim, span: Range<usize>) -> (r: Diag)
        ensures
            r == (Diag::TriedToCloseUnopenedDelimiter { span, delim: closer }),
    {
        Diag::TriedToCloseUnopenedDelimiter { span, delim: closer }
    }

    pub fn tried_to_close_mismatching_delimiter(
        matching_open: (Range<usize>, Delim),
        current_open: (Range<usize>, Delim),
        close: (Range<usize>, Delim),
    ) -> (r: Diag)
        ensures
            r == (Diag::TriedToCloseMismatchingDelimiteer {
                matching_open_span: matching_open.0,
                matching_open: matching_open.1,
                current_open_span: current_open.0,
                current_open: current_open.1,
                close_span: close.0,
                close: close.1,
            }),
    {
        Diag::TriedToCloseMismatchingDelimiteer {
            matching_open_span: matching_open.0,
            matching_open: matching_open.1,
            current_open_span: current_open.0,
            current_open: current_open.1,
            close_span: close.0,
            close: close.1,
        }
    }

    /// A delimiter that was opened at `span` was still open at the end of the
    /// input (`eof`, which the diagnostic does not keep).
    pub fn did_not_close_delimiter(opener: Delim, span: Range<usize>, eof: Range<usize>) -> (r: Diag)
        ensures
            r == (Diag::DidNotCloseDelimiter { opener, span }),
    {
        Diag::DidNotCloseDelimiter { opener, span }
    }

    /// Replaces what the main diagnostic expected.
    pub fn expected(self, expected: Expected) -> (r: Diag)
        ensures
            r == diag_expected(self, expected),
        decreases self,
    {
        match self {
            Diag::ExpectedFound { expected: _, found, span } => Diag::ExpectedFound {
                expected,
                found,
                span,
            },
            Diag::Merged { main, other } => Diag::Merged {
                main: Box::new((*main).expected(expected)),
                other,
            },
            i => i,
        }
    }

    /// Reports two diagnostics together, `a` first.
    pub fn merge(a: Diag, b: Diag) -> (r: Diag)
        ensures
            r == diag_merge(a, b),
    {
        Diag::Merged { main: Box::new(a), other: Box::new(b) }
    }
}

} // verus!
