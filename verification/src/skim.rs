use std::ops::Range;
use vstd::prelude::*;

use crate::diag::{copy_span, diag_merge, span_start, Diag, Expected, Found};
use crate::token::{delim_opposite, Delim, Delimiter, Token};
use crate::typy::{Ty, Typy, TypyV};

verus! {

/// The outcome of a parser: a value; an error after which another
/// alternative may be tried; a fatal error; or a value together with an
/// error that was recovered from.
#[derive(Debug, Clone, PartialEq)]
pub enum Parsed<T, E> {
    Value(T),
    Error(E),
    Fatal(E),
    Recover(E, T),
}

/// The outcome with `f` applied to its value.
pub open spec fn parsed_map<T, U, E>(p: Parsed<T, E>, f: spec_fn(T) -> U) -> Parsed<U, E> {
    match p {
        Parsed::Value(v) => Parsed::Value(f(v)),
        Parsed::Error(e) => Parsed::Error(e),
        Parsed::Fatal(e) => Parsed::Fatal(e),
        Parsed::Recover(e, v) => Parsed::Recover(e, f(v)),
    }
}

impl<T, E> Parsed<T, E> {
    /// Applies `f` to the value of the outcome, if it has one.
    pub fn map<U, F: FnOnce(T) -> U>(self, f: F) -> (r: Parsed<U, E>)
        requires
            match self {
                Parsed::Value(v) => f.requires((v,)),
                Parsed::Recover(_, v) => f.requires((v,)),
                _ => true,
            },
        ensures
            match (self, r) {
                (Parsed::Value(v), Parsed::Value(u)) => f.ensures((v,), u),
                (Parsed::Error(e), Parsed::Error(e2)) => e2 == e,
                (Parsed::Fatal(e), Parsed::Fatal(e2)) => e2 == e,
                (Parsed::Recover(e, v), Parsed::Recover(e2, u)) => e2 == e && f.ensures((v,), u),
                _ => false,
            },
            forall|g: spec_fn(T) -> U|
                (forall|v: T, u: U| f.ensures((v,), u) ==> u == g(v)) ==> r == #[trigger] parsed_map(
                    self,
                    g,
                ),
    {
        match self {
            Parsed::Value(value) => Parsed::Value(f(value)),
            Parsed::Error(err) => Parsed::Error(err),
            Parsed::Fatal(err) => Parsed::Fatal(err),
            Parsed::Recover(err, value) => Parsed::Recover(err, f(value)),
        }
    }

    /// Applies `f` to the error of the outcome, if it has one.
    pub fn map_err<E2, F: Fn(E) -> E2>(self, f: F) -> (r: Parsed<T, E2>)
        requires
            match self {
                Parsed::Error(e) => f.requires((e,)),
                Parsed::Fatal(e) => f.requires((e,)),
                Parsed::Recover(e, _) => f.requires((e,)),
                _ => true,
            },
        ensures
            match (self, r) {
                (Parsed::Value(v), Parsed::Value(u)) => u == v,
                (Parsed::Error(e), Parsed::Error(e2)) => f.ensures((e,), e2),
                (Parsed::Fatal(e), Parsed::Fatal(e2)) => f.ensures((e,), e2),
                (Parsed::Recover(e, v), Parsed::Recover(e2, u)) => u == v && f.ensures((e,), e2),
                _ => false,
            },
    {
        match self {
            Parsed::Value(ok) => Parsed::Value(ok),
            Parsed::Recover(err, ok) => Parsed::Recover(f(err), ok),
            Parsed::Error(err) => Parsed::Error(f(err)),
            Parsed::Fatal(err) => Parsed::Fatal(f(err)),
        }
    }
}

/// Mapping the identity changes nothing.
pub proof fn lemma_map_identity<T, E>(p: Parsed<T, E>)
    ensures
        parsed_map(p, |x: T| x) == p,
{
}

/// Mapping `g` and then `f` is mapping their composition.
pub proof fn lemma_map_compose<T, U, V, E>(p: Parsed<T, E>, g: spec_fn(T) -> U, f: spec_fn(U) -> V)
    ensures
        parsed_map(parsed_map(p, g), f) == parsed_map(p, |x: T| f(g(x))),
{
}

/// A value with the span it was parsed from.
#[derive(Debug, Clone, PartialEq, Eq, Hash)]
pub struct Spanned<T, S>(pub T, pub S);

/// Spans that can be joined: the span from the start of one to the end of another.
pub trait Merge: Sized {
    spec fn merge_spec(a: Self, b: Self) -> Self;

    fn merge(a: Self, b: Self) -> (r: Self)
        ensures
            r == Self::merge_spec(a, b),
    ;
}

impl<T> Merge for Range<T> {
    open spec fn merge_spec(a: Self, b: Self) -> Self {
        Range { start: a.start, end: b.end }
    }

    fn merge(a: Self, b: Self) -> (r: Self) {
        Range { start: a.start, end: b.end }
    }
}

// ---------------------------------------------------------------------------
// How a parser's outcome combines with the next one's.
/// The outcome of a parser that failed, for a parser of another type.
pub open spec fn halt_spec<A, B>(p: Parsed<A, Diag>) -> Parsed<B, Diag> {
    match p {
        Parsed::Fatal(e) => Parsed::Fatal(e),
        Parsed::Error(e) => Parsed::Error(e),
        _ => Parsed::Fatal(Diag::LexerError { span: Range { start: 0, end: 0 } }),
    }
}

pub fn halt<A, B>(p: Parsed<A, Diag>) -> (r: Parsed<B, Diag>)
    requires
        p is Error || p is Fatal,
    ensures
        r == halt_spec::<A, B>(p),
{
    match p {
        Parsed::Fatal(e) => Parsed::Fatal(e),
        Parsed::Error(e) => Parsed::Error(e),
        _ => Parsed::Fatal(Diag::LexerError { span: Range { start: 0, end: 0 } }),
    }
}

/// Two parsers in sequence, once the first one has a value: the pair of
/// their values, with the errors recovered from merged. Behind a cut, an
/// error of the second parser is fatal.
pub open spec fn chain_spec<A, B>(a: Parsed<A, Diag>, b: Parsed<B, Diag>, cut: bool) -> Parsed<(A, B), Diag> {
    match a {
        Parsed::Value(x) => match b {
            Parsed::Error(e) => if cut {
                Parsed::Fatal(e)
            } else {
                Parsed::Error(e)
            },
            Parsed::Fatal(e) => Parsed::Fatal(e),
            Parsed::Recover(e, y) => Parsed::Recover(e, (x, y)),
            Parsed::Value(y) => Parsed::Value((x, y)),
        },
        Parsed::Recover(e, x) => match b {
            Parsed::Value(y) => Parsed::Recover(e, (x, y)),
            Parsed::Error(e2) => Parsed::Fatal(diag_merge(e, e2)),
            Parsed::Fatal(e2) => Parsed::Fatal(diag_merge(e, e2)),
            Parsed::Recover(e2, y) => Parsed::Recover(diag_merge(e, e2), (x, y)),
        },
        Parsed::Error(e) => Parsed::Error(e),
        Parsed::Fatal(e) => Parsed::Fatal(e),
    }
}

pub fn chain<A, B>(a: Parsed<A, Diag>, b: Parsed<B, Diag>, cut: bool) -> (r: Parsed<(A, B), Diag>)
    ensures
        r == chain_spec(a, b, cut),
{
    match a {
        Parsed::Value(x) => match b {
            Parsed::Error(e) => if cut {
                Parsed::Fatal(e)
            } else {
                Parsed::Error(e)
            },
            Parsed::Fatal(e) => Parsed::Fatal(e),
            Parsed::Recover(e, y) => Parsed::Recover(e, (x, y)),
            Parsed::Value(y) => Parsed::Value((x, y)),
        },
        Parsed::Recover(e, x) => match b {
            Parsed::Value(y) => Parsed::Recover(e, (x, y)),
            Parsed::Error(e2) => Parsed::Fatal(Diag::merge(e, e2)),
            Parsed::Fatal(e2) => Parsed::Fatal(Diag::merge(e, e2)),
            Parsed::Recover(e2, y) => Parsed::Recover(Diag::merge(e, e2), (x, y)),
        },
        Parsed::Error(e) => Parsed::Error(e),
        Parsed::Fatal(e) => Parsed::Fatal(e),
    }
}

/// The first value of a pair.
pub open spec fn firsts<A, B>(p: Parsed<(A, B), Diag>) -> Parsed<A, Diag> {
    parsed_map(p, |v: (A, B)| v.0)
}

pub fn first<A, B>(p: Parsed<(A, B), Diag>) -> (r: Parsed<A, Diag>)
    ensures
        r == firsts(p),
{
    match p {
        Parsed::Value(v) => Parsed::Value(v.0),
        Parsed::Error(e) => Parsed::Error(e),
        Parsed::Fatal(e) => Parsed::Fatal(e),
        Parsed::Recover(e, v) => Parsed::Recover(e, v.0),
    }
}

/// The second value of a pair.
pub open spec fn seconds<A, B>(p: Parsed<(A, B), Diag>) -> Parsed<B, Diag> {
    parsed_map(p, |v: (A, B)| v.1)
}

pub fn second<A, B>(p: Parsed<(A, B), Diag>) -> (r: Parsed<B, Diag>)
    ensures
        r == seconds(p),
{
    match p {
        Parsed::Value(v) => Parsed::Value(v.1),
        Parsed::Error(e) => Parsed::Error(e),
        Parsed::Fatal(e) => Parsed::Fatal(e),
        Parsed::Recover(e, v) => Parsed::Recover(e, v.1),
    }
}

/// An error after which another alternative may be tried gets a new expectation.
pub open spec fn expect_spec<T>(p: Parsed<T, Diag>, expected: Expected) -> Parsed<T, Diag> {
    match p {
        Parsed::Error(e) => Parsed::Error(crate::diag::diag_expected(e, expected)),
        _ => p,
    }
}

pub fn expect<T>(p: Parsed<T, Diag>, expected: Expected) -> (r: Parsed<T, Diag>)
    ensures
        r == expect_spec(p, expected),
{
    match p {
        Parsed::Error(e) => Parsed::Error(e.expected(expected)),
        _ => p,
    }
}

/// Every error of the outcome gets a new expectation.
pub open spec fn expect_all_spec<T>(p: Parsed<T, Diag>, expected: Expected) -> Parsed<T, Diag> {
    match p {
        Parsed::Value(v) => Parsed::Value(v),
        Parsed::Error(e) => Parsed::Error(crate::diag::diag_expected(e, expected)),
        Parsed::Fatal(e) => Parsed::Fatal(crate::diag::diag_expected(e, expected)),
        Parsed::Recover(e, v) => Parsed::Recover(crate::diag::diag_expected(e, expected), v),
    }
}

pub fn expect_all<T>(p: Parsed<T, Diag>, expected: Expected) -> (r: Parsed<T, Diag>)
    ensures
        r == expect_all_spec(p, expected),
{
    match p {
        Parsed::Value(ok) => Parsed::Value(ok),
        Parsed::Recover(err, ok) => Parsed::Recover(err.expected(expected), ok),
        Parsed::Error(err) => Parsed::Error(err.expected(expected)),
        Parsed::Fatal(err) => Parsed::Fatal(err.expected(expected)),
    }
}

/// A parser whose value is checked by a second step: the step decides,
/// but an error recovered from before makes the step's failure fatal.
pub open spec fn try_map_spec<T>(recovered: Option<Diag>, step: Parsed<T, Diag>) -> Parsed<T, Diag> {
    match recovered {
        None => step,
        Some(err) => match step {
            Parsed::Error(err2) => Parsed::Fatal(diag_merge(err, err2)),
            Parsed::Fatal(err2) => Parsed::Fatal(diag_merge(err, err2)),
            Parsed::Value(ok) => Parsed::Value(ok),
            Parsed::Recover(err2, _) => Parsed::Fatal(diag_merge(err, err2)),
        },
    }
}

pub fn try_map<T>(recovered: Option<Diag>, step: Parsed<T, Diag>) -> (r: Parsed<T, Diag>)
    ensures
        r == try_map_spec(recovered, step),
{
    match recovered {
        None => step,
        Some(err) => match step {
            Parsed::Error(err2) => Parsed::Fatal(Diag::merge(err, err2)),
            Parsed::Fatal(err2) => Parsed::Fatal(Diag::merge(err, err2)),
            Parsed::Value(ok) => Parsed::Value(ok),
            Parsed::Recover(err2, _) => Parsed::Fatal(Diag::merge(err, err2)),
        },
    }
}

/// One step of a repetition, given what was gathered so far (with the
/// errors recovered from) and the outcome of the next try.
pub enum RepeatStep<T> {
    /// Go on with what was gathered.
    Continue(Result<Vec<T>, (Diag, Vec<T>)>),
    /// Stop with the values gathered, at the state before the last try.
    Backtrack(Vec<T>),
    /// Stop with this outcome.
    Stop(Parsed<Vec<T>, Diag>),
}

/// What a repetition gathered so far, in the model.
pub type Gathered<T> = Result<Seq<T>, (Diag, Seq<T>)>;

pub open spec fn gathered_view<T>(g: Result<Vec<T>, (Diag, Vec<T>)>) -> Gathered<T> {
    match g {
        Ok(v) => Ok(v@),
        Err((e, v)) => Err((e, v@)),
    }
}

/// The step of a repetition, in the model: `Continue`, `Backtrack` or `Stop`
/// as in [`RepeatStep`].
pub enum RepeatStepV<T> {
    Continue(Gathered<T>),
    Backtrack(Seq<T>),
    Stop(Parsed<Seq<T>, Diag>),
}

/// A repetition gathers values until a try fails: it stops with the values
/// (backtracking over the failed try) when there are some and no error was
/// recovered from; otherwise a failure ends the repetition with that failure.
pub open spec fn repeat_step_spec<T>(state: Gathered<T>, next: Parsed<T, Diag>) -> RepeatStepV<T> {
    match (state, next) {
        (Ok(v), Parsed::Value(x)) => RepeatStepV::Continue(Ok(v.push(x))),
        (Err((e, v)), Parsed::Value(x)) => RepeatStepV::Continue(Err((e, v.push(x)))),
        (Ok(v), Parsed::Recover(e, x)) => RepeatStepV::Continue(Err((e, v.push(x)))),
        (Err((e, v)), Parsed::Recover(e2, x)) => RepeatStepV::Continue(
            Err((diag_merge(e, e2), v.push(x))),
        ),
        (_, Parsed::Fatal(e)) => RepeatStepV::Stop(Parsed::Fatal(e)),
        (Ok(v), Parsed::Error(e)) => if v.len() > 0 {
            RepeatStepV::Backtrack(v)
        } else {
            RepeatStepV::Stop(Parsed::Error(e))
        },
        (Err(_), Parsed::Error(e)) => RepeatStepV::Stop(Parsed::Error(e)),
    }
}

pub open spec fn repeat_step_view<T>(s: RepeatStep<T>) -> RepeatStepV<T> {
    match s {
        RepeatStep::Continue(g) => RepeatStepV::Continue(gathered_view(g)),
        RepeatStep::Backtrack(v) => RepeatStepV::Backtrack(v@),
        RepeatStep::Stop(p) => RepeatStepV::Stop(
            match p {
                Parsed::Value(v) => Parsed::Value(v@),
                Parsed::Error(e) => Parsed::Error(e),
                Parsed::Fatal(e) => Parsed::Fatal(e),
                Parsed::Recover(e, v) => Parsed::Recover(e, v@),
            },
        ),
    }
}

pub fn repeat_step<T>(state: Result<Vec<T>, (Diag, Vec<T>)>, next: Parsed<T, Diag>) -> (r: RepeatStep<T>)
    ensures
        repeat_step_view(r) == repeat_step_spec(gathered_view(state), next),
{
    match (state, next) {
        (Ok(mut vec), Parsed::Value(next)) => {
            vec.push(next);
            RepeatStep::Continue(Ok(vec))
        },
        (Err((err, mut vec)), Parsed::Value(next)) => {
            vec.push(next);
            RepeatStep::Continue(Err((err, vec)))
        },
        (Ok(mut vec), Parsed::Recover(err, next)) => {
            vec.push(next);
            RepeatStep::Continue(Err((err, vec)))
        },
        (Err((err, mut vec)), Parsed::Recover(err2, next)) => {
            vec.push(next);
            RepeatStep::Continue(Err((Diag::merge(err, err2), vec)))
        },
        (_, Parsed::Fatal(err)) => RepeatStep::Stop(Parsed::Fatal(err)),
        (Ok(vec), Parsed::Error(err)) => if vec.len() > 0 {
            RepeatStep::Backtrack(vec)
        } else {
            RepeatStep::Stop(Parsed::Error(err))
        },
        (Err(_), Parsed::Error(err)) => RepeatStep::Stop(Parsed::Error(err)),
    }
}

// ---------------------------------------------------------------------------
/// A token as the lexer gives it, with its span.
pub type Lexeme = (Result<Token, ()>, Range<usize>);

/// The state of a parse, in the model: the position in the tokens, the span
/// of the last token read, the delimiters still open (each with the span
/// where it was opened), and the table of type variables.
pub struct PState {
    pub pos: nat,
    pub span: Range<usize>,
    pub stack: Seq<(Range<usize>, Delim)>,
    pub typy: TypyV,
}

/// The state of a parse over a list of tokens.
pub struct Context {
    pub tokens: Vec<Lexeme>,
    pub pos: usize,
    pub span: Range<usize>,
    pub stack: Vec<(Range<usize>, Delim)>,
    pub ctx: Typy,
}

/// A saved state of a parse, to go back to.
pub struct Breakpoint {
    pos: usize,
    span: Range<usize>,
    stack: Vec<(Range<usize>, Delim)>,
    ctx: Typy,
}

impl Breakpoint {
    pub closed spec fn state(&self) -> PState {
        PState { pos: self.pos as nat, span: self.span, stack: self.stack@, typy: self.ctx@ }
    }
}

/// The state after reading the next token.
pub open spec fn spec_next(toks: Seq<Lexeme>, st: PState) -> (Parsed<Option<Token>, Diag>, PState) {
    if st.pos >= toks.len() {
        (Parsed::Value(None), st)
    } else {
        let (res, sp) = toks[st.pos as int];
        let st1 = PState { pos: st.pos + 1, span: sp, ..st };
        match res {
            Ok(t) => (Parsed::Value(Some(t)), st1),
            Err(_) => (Parsed::Fatal(Diag::LexerError { span: sp }), st1),
        }
    }
}

/// The span of the next token, or of the last one read at the end.
pub open spec fn spec_peek_span(toks: Seq<Lexeme>, st: PState) -> Range<usize> {
    if st.pos < toks.len() {
        toks[st.pos as int].1
    } else {
        st.span
    }
}

/// The innermost open delimiter that `closer` closes, counted from the bottom.
pub open spec fn find_opener(stack: Seq<(Range<usize>, Delim)>, closer: Delim) -> Option<int>
    decreases stack.len(),
{
    if stack.len() == 0 {
        None
    } else if delim_opposite(stack.last().1) == closer {
        Some(stack.len() - 1)
    } else {
        find_opener(stack.drop_last(), closer)
    }
}

/// Closing a delimiter: it closes the innermost open one if it is its
/// opposite; otherwise it is an error, naming the open delimiter it would
/// have closed if there is one.
pub open spec fn spec_close(st: PState, closer: Delim) -> (Result<(), Diag>, PState) {
    let stack = st.stack;
    if stack.len() > 0 && delim_opposite(stack.last().1) == closer {
        (Ok(()), PState { stack: stack.drop_last(), ..st })
    } else if stack.len() > 0 && find_opener(stack, closer) is Some {
        let k = find_opener(stack, closer)->0;
        (
            Err(
                Diag::TriedToCloseMismatchingDelimiteer {
                    matching_open_span: stack[k].0,
                    matching_open: stack[k].1,
                    current_open_span: stack.last().0,
                    current_open: stack.last().1,
                    close_span: st.span,
                    close: closer,
                },
            ),
            st,
        )
    } else {
        (Err(Diag::TriedToCloseUnopenedDelimiter { span: st.span, delim: closer }), st)
    }
}

/// The diagnostics of the delimiters left open, merged in the order they were opened.
pub open spec fn unclosed(stack: Seq<(Range<usize>, Delim)>) -> Diag
    recommends
        stack.len() > 0,
    decreases stack.len(),
{
    if stack.len() <= 1 {
        Diag::DidNotCloseDelimiter { opener: stack[0].1, span: stack[0].0 }
    } else {
        diag_merge(
            unclosed(stack.drop_last()),
            Diag::DidNotCloseDelimiter { opener: stack.last().1, span: stack.last().0 },
        )
    }
}

/// The end of the input: no token may be left, nor a delimiter open.
pub open spec fn spec_eof(toks: Seq<Lexeme>, st: PState) -> (Parsed<(), Diag>, PState) {
    let (n, s1) = spec_next(toks, st);
    match n {
        Parsed::Error(e) => (Parsed::Error(e), s1),
        Parsed::Fatal(e) => (Parsed::Fatal(e), s1),
        Parsed::Recover(e, _) => (Parsed::Fatal(e), s1),
        Parsed::Value(Some(item)) => (
            Parsed::Error(
                Diag::ExpectedFound { expected: Expected::Eof, found: Found::Token(item), span: s1.span },
            ),
            s1,
        ),
        Parsed::Value(None) => {
            let s2 = PState { stack: Seq::empty(), ..s1 };
            if s1.stack.len() == 0 {
                (Parsed::Value(()), s2)
            } else {
                (Parsed::Error(unclosed(s1.stack)), s2)
            }
        },
    }
}

/// The token `item`, or an error.
pub open spec fn spec_just(toks: Seq<Lexeme>, st: PState, item: Token) -> (Parsed<Token, Diag>, PState) {
    let (n, s1) = spec_next(toks, st);
    let other = |t: Token|
        Diag::ExpectedFound { expected: Expected::Token(item), found: Found::Token(t), span: s1.span };
    let at_eof = Diag::ExpectedFound {
        expected: Expected::Token(item),
        found: Found::Eof,
        span: span_start(s1.span),
    };
    match n {
        Parsed::Value(Some(i)) => if crate::token::tokens_alike(i, item) {
            (Parsed::Value(i), s1)
        } else {
            (Parsed::Error(other(i)), s1)
        },
        Parsed::Value(None) => (Parsed::Error(at_eof), s1),
        Parsed::Error(e) => (Parsed::Error(e), s1),
        Parsed::Fatal(e) => (Parsed::Fatal(e), s1),
        Parsed::Recover(ee, Some(t)) => if crate::token::tokens_alike(t, item) {
            (Parsed::Recover(ee, t), s1)
        } else {
            (Parsed::Error(diag_merge(other(t), ee)), s1)
        },
        Parsed::Recover(ee, None) => (Parsed::Fatal(diag_merge(at_eof, ee)), s1),
    }
}

/// The outcome of a selection, given the token read and what the selector made of it.
pub open spec fn select_outcome<O>(
    n: Parsed<Option<Token>, Diag>,
    chosen: Option<O>,
    expected: Expected,
    span: Range<usize>,
) -> Parsed<O, Diag> {
    let other = |t: Token| Diag::ExpectedFound { expected, found: Found::Token(t), span };
    let at_eof = Diag::ExpectedFound { expected, found: Found::Eof, span: span_start(span) };
    match n {
        Parsed::Error(e) => Parsed::Error(e),
        Parsed::Fatal(e) => Parsed::Fatal(e),
        Parsed::Value(Some(t)) => match chosen {
            Some(v) => Parsed::Value(v),
            None => Parsed::Error(other(t)),
        },
        Parsed::Value(None) => Parsed::Error(at_eof),
        Parsed::Recover(err, Some(t)) => match chosen {
            Some(v) => Parsed::Recover(err, v),
            None => Parsed::Fatal(diag_merge(other(t), err)),
        },
        Parsed::Recover(err, None) => Parsed::Fatal(diag_merge(at_eof, err)),
    }
}

pub open spec fn token_of(n: Parsed<Option<Token>, Diag>) -> Option<Token> {
    match n {
        Parsed::Value(Some(t)) => Some(t),
        Parsed::Recover(_, Some(t)) => Some(t),
        _ => None,
    }
}

impl Context {
    pub open spec fn state(&self) -> PState {
        PState { pos: self.pos as nat, span: self.span, stack: self.stack@, typy: self.ctx@ }
    }

    pub open spec fn wf(&self) -> bool {
        &&& self.ctx@.wf()
        &&& self.pos <= self.tokens@.len()
    }

    /// A parse at the start of `tokens`, at `span`, with context `ctx`.
    pub fn new(tokens: Vec<Lexeme>, span: Range<usize>, ctx: Typy) -> (r: Context)
        ensures
            r.tokens@ == tokens@,
            r.state() == (PState { pos: 0, span, stack: Seq::empty(), typy: ctx@ }),
    {
        Context { tokens, pos: 0, span, stack: Vec::new(), ctx }
    }

    /// Reads the next token: its value, nothing at the end of the input, or
    /// a fatal error where the lexer failed.
    pub fn next(&mut self) -> (r: Parsed<Option<Token>, Diag>)
        requires
            old(self).wf(),
        ensures
            (r, final(self).state()) == spec_next(old(self).tokens@, old(self).state()),
            final(self).tokens@ == old(self).tokens@,
            final(self).wf(),
    {
        if self.pos >= self.tokens.len() {
            return Parsed::Value(None);
        }
        let span = copy_span(&self.tokens[self.pos].1);
        let res = match &self.tokens[self.pos].0 {
            Ok(item) => Ok(item.clone()),
            Err(_) => Err(()),
        };
        self.pos = self.pos + 1;
        match res {
            Ok(item) => {
                self.span = span;
                Parsed::Value(Some(item))
            },
            Err(_) => {
                self.span = copy_span(&span);
                Parsed::Fatal(Diag::lexer_error(span))
            },
        }
    }

    /// The span of the next token, or of the last one read at the end.
    pub fn peek_span(&self) -> (r: Range<usize>)
        requires
            self.wf(),
        ensures
            r == spec_peek_span(self.tokens@, self.state()),
    {
        if self.pos < self.tokens.len() {
            copy_span(&self.tokens[self.pos].1)
        } else {
            copy_span(&self.span)
        }
    }

    /// Notes that a delimiter was opened at the current span.
    pub fn open_delimiter(&mut self, opener: Delim)
        ensures
            final(self).state() == (PState {
                stack: old(self).state().stack.push((old(self).span, opener)),
                ..old(self).state()
            }),
            final(self).tokens@ == old(self).tokens@,
    {
        let span = self.span();
        self.stack.push((span, opener))
    }

    /// Closes a delimiter (see [`spec_close`]).
    pub fn close_delimiter(&mut self, closer: Delim) -> (r: Result<(), Diag>)
        ensures
            (r, final(self).state()) == spec_close(old(self).state(), closer),
            final(self).tokens@ == old(self).tokens@,
    {
        let n = self.stack.len();
        if n > 0 {
            if self.stack[n - 1].1.opposite() == closer {
                self.stack.pop();
                return Ok(());
            }
            let mut i = n;
            assert(self.stack@.subrange(0, n as int) =~= self.stack@);
            while i > 0
                invariant
                    i <= n,
                    n == self.stack@.len(),
                    n > 0,
                    self.state() == old(self).state(),
                    self.tokens@ == old(self).tokens@,
                    delim_opposite(self.stack@.last().1) != closer,
                    find_opener(self.stack@, closer) == find_opener(self.stack@.subrange(0, i as int), closer),
                decreases i,
            {
                let ghost sub = self.stack@.subrange(0, i as int);
                assert(sub.last() == self.stack@[i - 1]);
                if self.stack[i - 1].1.opposite() == closer {
                    let matching = (copy_span(&self.stack[i - 1].0), self.stack[i - 1].1);
                    let current = (copy_span(&self.stack[n - 1].0), self.stack[n - 1].1);
                    return Err(
                        Diag::tried_to_close_mismatching_delimiter(
                            matching,
                            current,
                            (self.span(), closer),
                        ),
                    );
                }
                assert(sub.drop_last() =~= self.stack@.subrange(0, i - 1));
                i -= 1;
            }
            assert(self.stack@.subrange(0, 0) =~= Seq::<(Range<usize>, Delim)>::empty());
        }
        Err(Diag::tried_to_close_unopened_delimiter(closer, self.span()))
    }

    /// The span of the last token read.
    pub fn span(&self) -> (r: Range<usize>)
        ensures
            r == self.span,
    {
        copy_span(&self.span)
    }

    /// Saves the state of the parse.
    pub fn breakpoint(&self) -> (b: Breakpoint)
        ensures
            b.state() == self.state(),
    {
        let mut stack: Vec<(Range<usize>, Delim)> = Vec::new();
        let mut i: usize = 0;
        while i < self.stack.len()
            invariant
                i <= self.stack@.len(),
                stack@ == self.stack@.subrange(0, i as int),
            decreases self.stack@.len() - i,
        {
            stack.push((copy_span(&self.stack[i].0), self.stack[i].1));
            i += 1;
            assert(stack@ =~= self.stack@.subrange(0, i as int));
        }
        assert(self.stack@.subrange(0, self.stack@.len() as int) =~= self.stack@);
        Breakpoint { pos: self.pos, span: copy_span(&self.span), stack, ctx: self.ctx.clone() }
    }

    /// Goes back to a saved state.
    pub fn restore(&mut self, b: Breakpoint)
        ensures
            final(self).state() == b.state(),
            final(self).tokens@ == old(self).tokens@,
    {
        self.pos = b.pos;
        self.span = b.span;
        self.stack = b.stack;
        self.ctx = b.ctx;
    }

    /// The context, once the parse is done.
    pub fn take_ctx(self) -> (r: Typy)
        ensures
            r@ == self.ctx@,
    {
        self.ctx
    }
}

/// Reads the token `item` (see [`spec_just`]).
pub fn just(ctx: &mut Context, item: Token) -> (r: Parsed<Token, Diag>)
    requires
        old(ctx).wf(),
    ensures
        (r, final(ctx).state()) == spec_just(old(ctx).tokens@, old(ctx).state(), item),
        final(ctx).tokens@ == old(ctx).tokens@,
        final(ctx).wf(),
{
    match ctx.next() {
        Parsed::Value(Some(i)) => if i.alike(&item) {
            Parsed::Value(i)
        } else {
            Parsed::Error(Diag::expected_found(Expected::Token(item), i, ctx.span()))
        },
        Parsed::Value(None) => Parsed::Error(Diag::expected_found_eof(Expected::Token(item), ctx.span())),
        Parsed::Error(e) => Parsed::Error(e),
        Parsed::Fatal(e) => Parsed::Fatal(e),
        Parsed::Recover(ee, Some(t)) => if t.alike(&item) {
            Parsed::Recover(ee, t)
        } else {
            Parsed::Error(Diag::merge(Diag::expected_found(Expected::Token(item), t, ctx.span()), ee))
        },
        Parsed::Recover(ee, None) => Parsed::Fatal(
            Diag::merge(Diag::expected_found_eof(Expected::Token(item), ctx.span()), ee),
        ),
    }
}

/// Reads a token and lets `func` choose a value from it; where `func`
/// chooses nothing, `expected` was expected.
pub fn select<O, F: Fn(Token) -> Option<O>>(ctx: &mut Context, expected: Expected, func: F) -> (r: Parsed<O, Diag>)
    requires
        old(ctx).wf(),
        forall|t: Token| func.requires((t,)),
    ensures
        ({
            let (n, s1) = spec_next(old(ctx).tokens@, old(ctx).state());
            &&& final(ctx).state() == s1
            &&& match token_of(n) {
                Some(t) => exists|o: Option<O>|
                    func.ensures((t,), o) && r == select_outcome(n, o, expected, s1.span),
                None => r == select_outcome(n, None::<O>, expected, s1.span),
            }
        }),
        final(ctx).tokens@ == old(ctx).tokens@,
        final(ctx).wf(),
{
    let token = ctx.next();
    let ghost n = token;
    match token {
        Parsed::Error(err) => Parsed::Error(err),
        Parsed::Fatal(err) => Parsed::Fatal(err),
        Parsed::Value(Some(item)) => {
            let keep = item.clone();
            let chosen = func(item);
            let ghost g = chosen;
            let r = match chosen {
                Some(value) => Parsed::Value(value),
                None => Parsed::Error(Diag::expected_found(expected, keep, ctx.span())),
            };
            assert(func.ensures((keep,), g) && r == select_outcome(n, g, expected, ctx.span));
            r
        },
        Parsed::Value(None) => Parsed::Error(Diag::expected_found_eof(expected, ctx.span())),
        Parsed::Recover(err, Some(item)) => {
            let keep = item.clone();
            let chosen = func(item);
            let ghost g = chosen;
            let r = match chosen {
                Some(value) => Parsed::Recover(err, value),
                None => Parsed::Fatal(Diag::merge(Diag::expected_found(expected, keep, ctx.span()), err)),
            };
            assert(func.ensures((keep,), g) && r == select_outcome(n, g, expected, ctx.span));
            r
        },
        Parsed::Recover(err, None) => Parsed::Fatal(
            Diag::merge(Diag::expected_found_eof(expected, ctx.span()), err),
        ),
    }
}

/// The end of the input (see [`spec_eof`]).
pub fn eof(ctx: &mut Context) -> (r: Parsed<(), Diag>)
    requires
        old(ctx).wf(),
    ensures
        (r, final(ctx).state()) == spec_eof(old(ctx).tokens@, old(ctx).state()),
        final(ctx).tokens@ == old(ctx).tokens@,
        final(ctx).wf(),
{
    match ctx.next() {
        Parsed::Error(err) => {
            return Parsed::Error(err);
        },
        Parsed::Fatal(err) => {
            return Parsed::Fatal(err);
        },
        Parsed::Recover(err, _) => {
            return Parsed::Fatal(err);
        },
        Parsed::Value(Some(item)) => {
            return Parsed::Error(Diag::expected_eof_found(item, ctx.span()));
        },
        Parsed::Value(None) => {},
    };
    let eof = ctx.span();
    let ghost stack = ctx.stack@;
    let mut drained: Vec<(Range<usize>, Delim)> = Vec::new();
    std::mem::swap(&mut drained, &mut ctx.stack);
    if drained.len() == 0 {
        return Parsed::Value(());
    }
    let mut acc = Diag::did_not_close_delimiter(drained[0].1, copy_span(&drained[0].0), copy_span(&eof));
    let mut i: usize = 1;
    assert(stack.subrange(0, 1).drop_last() =~= Seq::<(Range<usize>, Delim)>::empty());
    while i < drained.len()
        invariant
            1 <= i <= drained@.len(),
            drained@ == stack,
            acc == unclosed(stack.subrange(0, i as int)),
        decreases drained@.len() - i,
    {
        let d = Diag::did_not_close_delimiter(drained[i].1, copy_span(&drained[i].0), copy_span(&eof));
        acc = Diag::merge(acc, d);
        i += 1;
        assert(stack.subrange(0, i as int).drop_last() =~= stack.subrange(0, i - 1));
    }
    assert(stack.subrange(0, stack.len() as int) =~= stack);
    Parsed::Error(acc)
}

// ---------------------------------------------------------------------------
// Laws of the combinators, for any parser given by its model: what it gives
// and the state it leaves, from the tokens and the state it starts in.

/// `p` spanned: its value paired with the span from the start of the next
/// token (looked at, not read) to the end of the last token `p` read.
pub open spec fn spanned_model<T>(
    p: spec_fn(Seq<Lexeme>, PState) -> (Parsed<T, Diag>, PState),
    toks: Seq<Lexeme>,
    st: PState,
) -> (Parsed<Spanned<T, Range<usize>>, Diag>, PState) {
    let (r, s1) = p(toks, st);
    let b = spec_peek_span(toks, st);
    (parsed_map(r, |v: T| Spanned(v, Range { start: b.start, end: s1.span.end })), s1)
}

/// Spanning keeps the state `p` leaves and its errors; a value gets the
/// span from the next token's start to the end of the last token read.
pub proof fn lemma_spanned<T>(p: spec_fn(Seq<Lexeme>, PState) -> (Parsed<T, Diag>, PState), toks: Seq<Lexeme>, st: PState)
    ensures
        spanned_model(p, toks, st).1 == p(toks, st).1,
        p(toks, st).0 matches Parsed::Value(v) ==> spanned_model(p, toks, st).0 == Parsed::<Spanned<T, Range<usize>>, Diag>::Value(
            Spanned(v, Range { start: spec_peek_span(toks, st).start, end: p(toks, st).1.span.end }),
        ),
        p(toks, st).0 matches Parsed::Error(e) ==> spanned_model(p, toks, st).0 == Parsed::<
            Spanned<T, Range<usize>>,
            Diag,
        >::Error(e),
        p(toks, st).0 matches Parsed::Fatal(e) ==> spanned_model(p, toks, st).0 == Parsed::<
            Spanned<T, Range<usize>>,
            Diag,
        >::Fatal(e),
{
}

/// Alternation of two outcomes, each with the state it leaves: the first,
/// unless it is an error that allows another alternative; then the second.
pub open spec fn or_spec<T>(first: (Parsed<T, Diag>, PState), second: (Parsed<T, Diag>, PState)) -> (
    Parsed<T, Diag>,
    PState,
) {
    if first.0 is Error {
        second
    } else {
        first
    }
}

/// `p` or else `q`: where `p` fails with an error that allows another
/// alternative, `q` from the state `p` started in, and `p`'s error is
/// dropped; otherwise what `p` gives, and `q` is not tried.
pub open spec fn or_model<T>(
    p: spec_fn(Seq<Lexeme>, PState) -> (Parsed<T, Diag>, PState),
    q: spec_fn(Seq<Lexeme>, PState) -> (Parsed<T, Diag>, PState),
    toks: Seq<Lexeme>,
    st: PState,
) -> (Parsed<T, Diag>, PState) {
    or_spec(p(toks, st), q(toks, st))
}

/// Repetition of `p` from what was gathered so far: `p` again from the state
/// it left while it gives values (and moves on); at the first try that
/// fails, the values gathered (the failed try undone) if there are some and
/// no error was recovered from, otherwise that failure.
pub open spec fn repeat_model<T>(
    p: spec_fn(Seq<Lexeme>, PState) -> (Parsed<T, Diag>, PState),
    toks: Seq<Lexeme>,
    st: PState,
    g: Gathered<T>,
) -> (Parsed<Seq<T>, Diag>, PState)
    decreases toks.len() - st.pos,
{
    if st.pos > toks.len() {
        (Parsed::Error(Diag::LexerError { span: st.span }), st)
    } else {
        let (r, s1) = p(toks, st);
        match repeat_step_spec(g, r) {
            RepeatStepV::Continue(g2) => if st.pos < s1.pos <= toks.len() {
                repeat_model(p, toks, s1, g2)
            } else {
                (Parsed::Error(Diag::LexerError { span: st.span }), s1)
            },
            RepeatStepV::Backtrack(v) => (Parsed::Value(v), st),
            RepeatStepV::Stop(o) => (o, s1),
        }
    }
}

/// The number of times a repetition runs `p`.
pub open spec fn repeat_calls<T>(
    p: spec_fn(Seq<Lexeme>, PState) -> (Parsed<T, Diag>, PState),
    toks: Seq<Lexeme>,
    st: PState,
    g: Gathered<T>,
) -> nat
    decreases toks.len() - st.pos,
{
    if st.pos > toks.len() {
        0
    } else {
        let (r, s1) = p(toks, st);
        match repeat_step_spec(g, r) {
            RepeatStepV::Continue(g2) => if st.pos < s1.pos <= toks.len() {
                1 + repeat_calls(p, toks, s1, g2)
            } else {
                1
            },
            _ => 1,
        }
    }
}

/// Repetition, step by step, from values gathered without error: a fatal
/// try ends it with that failure; a try that fails with an error gives the
/// values gathered, in the state before the try, or that error where none
/// were gathered; a value (from a try that moved on) is gathered and `p` is
/// tried again from the state it left.
pub proof fn lemma_repeat_step<T>(
    p: spec_fn(Seq<Lexeme>, PState) -> (Parsed<T, Diag>, PState),
    toks: Seq<Lexeme>,
    st: PState,
    v0: Seq<T>,
)
    requires
        st.pos <= toks.len(),
    ensures
        ({
            let (r, s1) = p(toks, st);
            let out = repeat_model(p, toks, st, Ok(v0));
            &&& r matches Parsed::Fatal(e) ==> out == (Parsed::<Seq<T>, Diag>::Fatal(e), s1)
            &&& r matches Parsed::Error(e) ==> out == if v0.len() > 0 {
                (Parsed::<Seq<T>, Diag>::Value(v0), st)
            } else {
                (Parsed::<Seq<T>, Diag>::Error(e), s1)
            }
            &&& r matches Parsed::Value(x) ==> (st.pos < s1.pos && s1.pos <= toks.len() ==> out
                == repeat_model(p, toks, s1, Ok(v0.push(x))))
        }),
{
}

/// A repetition runs `p` at most once for each token left, and once more.
pub proof fn lemma_repeat_calls<T>(
    p: spec_fn(Seq<Lexeme>, PState) -> (Parsed<T, Diag>, PState),
    toks: Seq<Lexeme>,
    st: PState,
    g: Gathered<T>,
)
    requires
        st.pos <= toks.len(),
    ensures
        repeat_calls(p, toks, st, g) <= toks.len() - st.pos + 1,
    decreases toks.len() - st.pos,
{
    let (r, s1) = p(toks, st);
    match repeat_step_spec(g, r) {
        RepeatStepV::Continue(g2) => if st.pos < s1.pos <= toks.len() {
            lemma_repeat_calls(p, toks, s1, g2);
        },
        _ => {},
    }
}

/// A repetition gives values only if no error was recovered from; then it
/// gives the values gathered so far followed by those of the later tries,
/// at least one in all.
pub proof fn lemma_repeat_gathers<T>(
    p: spec_fn(Seq<Lexeme>, PState) -> (Parsed<T, Diag>, PState),
    toks: Seq<Lexeme>,
    st: PState,
    g: Gathered<T>,
)
    requires
        st.pos <= toks.len(),
    ensures
        g is Err ==> !(repeat_model(p, toks, st, g).0 is Value),
        g matches Ok(v0) ==> (repeat_model(p, toks, st, g).0 matches Parsed::Value(v) ==> v.len() > 0
            && v0.len() <= v.len() && v.subrange(0, v0.len() as int) == v0),
    decreases toks.len() - st.pos,
{
    let (r, s1) = p(toks, st);
    match repeat_step_spec(g, r) {
        RepeatStepV::Continue(g2) => {
            if st.pos < s1.pos <= toks.len() {
                lemma_repeat_gathers(p, toks, s1, g2);
                if let Ok(v0) = g {
                    if let Ok(v1) = g2 {
                        if let Parsed::Value(v) = repeat_model(p, toks, st, g).0 {
                            assert(v1 == v0.push(r->Value_0));
                            assert(v.subrange(0, v0.len() as int) =~= v.subrange(
                                0,
                                v1.len() as int,
                            ).subrange(0, v0.len() as int));
                            assert(v1.subrange(0, v0.len() as int) =~= v0);
                        }
                    }
                }
            }
        },
        RepeatStepV::Backtrack(v) => {
            assert(v.subrange(0, v.len() as int) =~= v);
        },
        _ => {},
    }
}

} // verus!
