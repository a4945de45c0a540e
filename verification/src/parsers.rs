use std::ops::Range;
use vstd::prelude::*;

use crate::diag::Diag;
use crate::skim::{
    eof, just, or_spec, spanned_model, spec_eof, spec_just, Context, Lexeme, PState, Parsed, Spanned,
};
use crate::token::Token;

verus! {

/// A parser over a [`Context`], given by its model: the outcome and the
/// state it leaves, from the tokens and the state it starts in.
pub trait Parser<T>: Sized {
    spec fn model(&self, toks: Seq<Lexeme>, st: PState) -> (Parsed<T, Diag>, PState);

    fn parse(&self, ctx: &mut Context) -> (r: Parsed<T, Diag>)
        requires
            old(ctx).wf(),
        ensures
            final(ctx).tokens@ == old(ctx).tokens@,
            final(ctx).wf(),
            (r, final(ctx).state()) == self.model(old(ctx).tokens@, old(ctx).state()),
    ;

    /// This parser, or nothing (see [`Optional`]).
    fn optional(self) -> (r: Optional<Self>)
        ensures
            r == Optional(self),
    {
        Optional(self)
    }

    /// This parser, its value with its span (see [`Span`]).
    fn spanned(self) -> (r: Span<Self>)
        ensures
            r == Span(self),
    {
        Span(self)
    }
}

/// `p`, or else `q` (see [`Or`]).
pub fn or<T, P: Parser<T>, Q: Parser<T>>(p: P, q: Q) -> (r: Or<P, Q>)
    ensures
        r == Or(p, q),
{
    Or(p, q)
}

/// The first parser, or else, where it fails with an error that allows
/// another alternative, the second from the state the first started in.
pub struct Or<P, Q>(pub P, pub Q);

impl<T, P: Parser<T>, Q: Parser<T>> Parser<T> for Or<P, Q> {
    open spec fn model(&self, toks: Seq<Lexeme>, st: PState) -> (Parsed<T, Diag>, PState) {
        or_spec(self.0.model(toks, st), self.1.model(toks, st))
    }

    fn parse(&self, ctx: &mut Context) -> (r: Parsed<T, Diag>) {
        let b = ctx.breakpoint();
        let r = self.0.parse(ctx);
        match r {
            Parsed::Error(_) => {
                ctx.restore(b);
                self.1.parse(ctx)
            },
            _ => r,
        }
    }
}

/// A parser's value if it gives one, or nothing, from the state it started
/// in, where it fails with an error that allows another alternative.
pub struct Optional<P>(pub P);

/// The model of [`Optional`].
pub open spec fn optional_model<T>(o: (Parsed<T, Diag>, PState), st: PState) -> (
    Parsed<Option<T>, Diag>,
    PState,
) {
    match o.0 {
        Parsed::Value(v) => (Parsed::Value(Some(v)), o.1),
        Parsed::Fatal(e) => (Parsed::Fatal(e), o.1),
        Parsed::Recover(e, v) => (Parsed::Recover(e, Some(v)), o.1),
        Parsed::Error(_) => (Parsed::Value(None), st),
    }
}

impl<T, P: Parser<T>> Parser<Option<T>> for Optional<P> {
    open spec fn model(&self, toks: Seq<Lexeme>, st: PState) -> (Parsed<Option<T>, Diag>, PState) {
        optional_model(self.0.model(toks, st), st)
    }

    fn parse(&self, ctx: &mut Context) -> (r: Parsed<Option<T>, Diag>) {
        let b = ctx.breakpoint();
        match self.0.parse(ctx) {
            Parsed::Value(v) => Parsed::Value(Some(v)),
            Parsed::Fatal(e) => Parsed::Fatal(e),
            Parsed::Recover(e, v) => Parsed::Recover(e, Some(v)),
            Parsed::Error(_) => {
                ctx.restore(b);
                Parsed::Value(None)
            },
        }
    }
}

/// A parser's value with its span: from the start of the next token (looked
/// at, not read) to the end of the last token read.
pub struct Span<P>(pub P);

impl<T, P: Parser<T>> Parser<Spanned<T, Range<usize>>> for Span<P> {
    open spec fn model(&self, toks: Seq<Lexeme>, st: PState) -> (
        Parsed<Spanned<T, Range<usize>>, Diag>,
        PState,
    ) {
        spanned_model(|t: Seq<Lexeme>, s: PState| self.0.model(t, s), toks, st)
    }

    fn parse(&self, ctx: &mut Context) -> (r: Parsed<Spanned<T, Range<usize>>, Diag>) {
        let before = ctx.peek_span();
        let r = self.0.parse(ctx);
        let after = ctx.span();
        match r {
            Parsed::Value(v) => Parsed::Value(Spanned(v, Range { start: before.start, end: after.end })),
            Parsed::Error(e) => Parsed::Error(e),
            Parsed::Fatal(e) => Parsed::Fatal(e),
            Parsed::Recover(e, v) => Parsed::Recover(
                e,
                Spanned(v, Range { start: before.start, end: after.end }),
            ),
        }
    }
}

/// The token given (see [`just`]).
pub struct Just(pub Token);

impl Parser<Token> for Just {
    open spec fn model(&self, toks: Seq<Lexeme>, st: PState) -> (Parsed<Token, Diag>, PState) {
        spec_just(toks, st, self.0)
    }

    fn parse(&self, ctx: &mut Context) -> (r: Parsed<Token, Diag>) {
        just(ctx, self.0.clone())
    }
}

/// The end of the input (see [`eof`]).
pub struct Eof;

impl Parser<()> for Eof {
    open spec fn model(&self, toks: Seq<Lexeme>, st: PState) -> (Parsed<(), Diag>, PState) {
        spec_eof(toks, st)
    }

    fn parse(&self, ctx: &mut Context) -> (r: Parsed<(), Diag>) {
        eof(ctx)
    }
}

} // verus!
