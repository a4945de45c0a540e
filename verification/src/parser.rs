use std::ops::Range;
use vstd::prelude::*;
use vstd::string::StringSliceAdditionalSpecFns;

use crate::check::next_id;
use crate::lexer::{lemma_lex_len, lex_from, lexeme_view};
use crate::diag::{copy_span, span_merge, Diag, Expected};
use crate::skim::{
    chain, chain_spec, eof, expect, gathered_view, expect_all, expect_all_spec, expect_spec, first, firsts, halt,
    halt_spec, just, parsed_map, repeat_step, repeat_step_spec, second, seconds, select,
    select_outcome, spec_close, spec_eof, spec_just, spec_next, spec_peek_span, token_of,
    try_map, try_map_spec, Context, Gathered, Lexeme, PState, Parsed, RepeatStep, RepeatStepV,
    or_spec, repeat_model,
};
use crate::syntax::{ids_valid, numbers_known, size, Expr, Expression};
use crate::token::{delim_token, token_delim, tokens_alike, Delim, Token};
use crate::types::Type;
use crate::typy::{refines, Ty, TypeID, Typy, TypyV};

verus! {

// The grammar, as a model of what each parser gives. A rule that goes on to
// parse an expression after reading tokens first checks that it has moved
// forward (`st.pos < s.pos`), which keeps the recursion of the model finite.
// Every parser that gives a value has read at least one token (`parsed_ok`
// below states it, and the parsers are proved to keep it), so the error in
// those branches never occurs.

/// A fresh type variable, and the state that hands it out.
pub open spec fn fresh(st: PState) -> (TypeID<Type>, PState) {
    (next_id(st.typy), PState { typy: st.typy.push(Ty::Unknown), ..st })
}

pub open spec fn ident_of(t: Token) -> Option<String> {
    match t {
        Token::Identifier(n) => Some(n),
        _ => None,
    }
}

pub open spec fn failed<T>(p: Parsed<T, Diag>) -> bool {
    p is Error || p is Fatal
}

/// An identifier.
pub open spec fn spec_identifier(toks: Seq<Lexeme>, st: PState) -> (Parsed<String, Diag>, PState) {
    let (n, s1) = spec_next(toks, st);
    let chosen = match token_of(n) {
        Some(t) => ident_of(t),
        None => None,
    };
    (select_outcome(n, chosen, Expected::Identifier, s1.span), s1)
}

/// A number literal, which gets a type variable of type number.
pub open spec fn spec_number(toks: Seq<Lexeme>, st: PState) -> (Parsed<Expression, Diag>, PState) {
    let (n, s1) = spec_next(toks, st);
    match token_of(n) {
        Some(Token::Number(d)) => {
            let e = Expression { expr: Box::new(Expr::Number(d)), ty: next_id(s1.typy), span: s1.span };
            (
                select_outcome(n, Some(e), Expected::Number, s1.span),
                PState { typy: s1.typy.push(Ty::Type(Type::Number)), ..s1 },
            )
        },
        _ => (select_outcome(n, None::<Expression>, Expected::Number, s1.span), s1),
    }
}

/// An expression of the given shape over `span`, with a fresh type variable.
pub open spec fn node(r: Parsed<Expr, Diag>, span: Range<usize>, s: PState) -> (Parsed<Expression, Diag>, PState) {
    let (id, s2) = fresh(s);
    match r {
        Parsed::Value(x) => (Parsed::Value(Expression { expr: Box::new(x), ty: id, span }), s2),
        Parsed::Recover(e, x) => (Parsed::Recover(e, Expression { expr: Box::new(x), ty: id, span }), s2),
        Parsed::Error(e) => (Parsed::Error(e), s),
        Parsed::Fatal(e) => (Parsed::Fatal(e), s),
    }
}

/// A variable: an identifier.
pub open spec fn spec_variable(toks: Seq<Lexeme>, st: PState) -> (Parsed<Expression, Diag>, PState) {
    let before = spec_peek_span(toks, st);
    let (r, s1) = spec_identifier(toks, st);
    node(parsed_map(r, |n: String| Expr::Variable(n)), span_merge(before, s1.span), s1)
}

/// A delimiter that closes what `d` stands for, closing it in the state.
pub open spec fn spec_close_delimiter(toks: Seq<Lexeme>, st: PState, d: Delim) -> (Parsed<Delim, Diag>, PState) {
    let (n, s1) = spec_next(toks, st);
    let chosen = match token_of(n) {
        Some(t) => if tokens_alike(t, delim_token(d)) {
            Some(d)
        } else {
            token_delim(t)
        },
        None => None,
    };
    let sel = select_outcome(n, chosen, Expected::Delim(d), s1.span);
    match sel {
        Parsed::Value(x) => {
            let (c, s2) = spec_close(s1, x);
            (
                match c {
                    Ok(_) => Parsed::Value(x),
                    Err(e) => Parsed::Error(e),
                },
                s2,
            )
        },
        Parsed::Recover(err, x) => {
            let (c, s2) = spec_close(s1, x);
            (
                try_map_spec(
                    Some(err),
                    match c {
                        Ok(_) => Parsed::Value(x),
                        Err(e) => Parsed::Error(e),
                    },
                ),
                s2,
            )
        },
        Parsed::Error(e) => (Parsed::Error(e), s1),
        Parsed::Fatal(e) => (Parsed::Fatal(e), s1),
    }
}

/// The fold of a list of expressions into applications, left to right.
pub open spec fn fold_apps(acc: Expression, rest: Seq<Expression>, t: TypyV) -> (Expression, TypyV)
    decreases rest.len(),
{
    if rest.len() == 0 {
        (acc, t)
    } else {
        let e = Expression {
            expr: Box::new(Expr::Application(acc, rest[0])),
            ty: next_id(t),
            span: span_merge(acc.span, rest[0].span),
        };
        fold_apps(e, rest.drop_first(), t.push(Ty::Unknown))
    }
}

/// A function `x . body`.
pub open spec fn spec_function(toks: Seq<Lexeme>, st: PState) -> (Parsed<Expression, Diag>, PState)
    decreases toks.len() - st.pos, 3nat,
{
    if st.pos > toks.len() {
        (Parsed::Error(Diag::LexerError { span: st.span }), st)
    } else {
        let before = spec_peek_span(toks, st);
        let (r1, s1) = spec_identifier(toks, st);
        if failed(r1) {
            (halt_spec(r1), s1)
        } else {
            let (r2, s2) = spec_just(toks, s1, Token::Dot);
            let c1 = firsts(chain_spec(r1, r2, false));
            if failed(c1) {
                (halt_spec(c1), s2)
            } else if !(st.pos < s2.pos <= toks.len()) {
                (Parsed::Error(Diag::LexerError { span: st.span }), s2)
            } else {
                let (r3, s3) = spec_expr(toks, s2);
                let c2 = chain_spec(c1, r3, true);
                node(
                    parsed_map(c2, |v: (String, Expression)| Expr::Function(v.0, v.1)),
                    span_merge(before, s3.span),
                    s3,
                )
            }
        }
    }
}

/// The binding `let x = value in body`, which stands for `(x . body) value`.
pub open spec fn spec_let(toks: Seq<Lexeme>, st: PState) -> (Parsed<Expression, Diag>, PState)
    decreases toks.len() - st.pos, 3nat,
{
    if st.pos > toks.len() {
        (Parsed::Error(Diag::LexerError { span: st.span }), st)
    } else {
        let before = spec_peek_span(toks, st);
        let (r1, s1) = spec_just(toks, st, Token::Let);
        if failed(r1) {
            (halt_spec(r1), s1)
        } else {
            let (r2, s2) = spec_identifier(toks, s1);
            let c2 = seconds(chain_spec(r1, r2, true));
            if failed(c2) {
                (halt_spec(c2), s2)
            } else {
                let (r3, s3) = spec_just(toks, s2, Token::Equal);
                let c3 = firsts(chain_spec(c2, r3, true));
                if failed(c3) {
                    (halt_spec(c3), s3)
                } else if !(st.pos < s3.pos <= toks.len()) {
                    (Parsed::Error(Diag::LexerError { span: st.span }), s3)
                } else {
                    let (r4, s4) = spec_expr(toks, s3);
                    let c4 = chain_spec(c3, r4, true);
                    if failed(c4) {
                        (halt_spec(c4), s4)
                    } else {
                        let (r5, s5) = spec_just(toks, s4, Token::In);
                        let c5 = firsts(chain_spec(c4, r5, true));
                        if failed(c5) {
                            (halt_spec(c5), s5)
                        } else if !(st.pos < s5.pos <= toks.len()) {
                            (Parsed::Error(Diag::LexerError { span: st.span }), s5)
                        } else {
                            let (r6, s6) = spec_expr(toks, s5);
                            let c6 = chain_spec(c5, r6, true);
                            let (id1, s7) = fresh(s6);
                            let (id2, s8) = fresh(s7);
                            let span = span_merge(before, s6.span);
                            let mk = |v: ((String, Expression), Expression)|
                                Expression {
                                    expr: Box::new(
                                        Expr::Application(
                                            Expression {
                                                expr: Box::new(Expr::Function(v.0.0, v.1)),
                                                ty: id1,
                                                span: v.0.1.span,
                                            },
                                            v.0.1,
                                        ),
                                    ),
                                    ty: id2,
                                    span,
                                };
                            match c6 {
                                Parsed::Value(v) => (Parsed::Value(mk(v)), s8),
                                Parsed::Recover(e, v) => (Parsed::Recover(e, mk(v)), s8),
                                Parsed::Error(e) => (Parsed::Error(e), s6),
                                Parsed::Fatal(e) => (Parsed::Fatal(e), s6),
                            }
                        }
                    }
                }
            }
        }
    }
}

/// An opening delimiter `d`, which is noted as open in the state.
pub open spec fn spec_open_delimiter(toks: Seq<Lexeme>, st: PState, d: Delim) -> (Parsed<Delim, Diag>, PState) {
    let (r1, s1) = spec_just(toks, st, delim_token(d));
    let r1e = expect_all_spec(r1, Expected::Delim(d));
    let s1o = PState { stack: s1.stack.push((s1.span, d)), ..s1 };
    match r1e {
        Parsed::Value(_) => (Parsed::Value(d), s1o),
        Parsed::Recover(e, _) => (Parsed::Recover(e, d), s1o),
        Parsed::Error(e) => (Parsed::Error(e), s1),
        Parsed::Fatal(e) => (Parsed::Fatal(e), s1),
    }
}

/// An expression in parentheses.
pub open spec fn spec_paren(toks: Seq<Lexeme>, st: PState) -> (Parsed<Expression, Diag>, PState)
    decreases toks.len() - st.pos, 3nat,
{
    if st.pos > toks.len() {
        (Parsed::Error(Diag::LexerError { span: st.span }), st)
    } else {
        let (r1, s1) = spec_open_delimiter(toks, st, Delim::OpenParenthesis);
        if failed(r1) {
            (halt_spec(r1), s1)
        } else if !(st.pos < s1.pos <= toks.len()) {
            (Parsed::Error(Diag::LexerError { span: st.span }), s1)
        } else {
            let (r2, s2) = spec_expr(toks, s1);
            let c2 = seconds(chain_spec(r1, r2, true));
            if failed(c2) {
                (halt_spec(c2), s2)
            } else {
                let (r3, s3) = spec_close_delimiter(toks, s2, Delim::CloseParenthesis);
                (firsts(chain_spec(c2, r3, true)), s3)
            }
        }
    }
}

/// An atom: the first of a function, a binding, a variable, a number and an
/// expression in parentheses that does not fail (with backtracking).
pub open spec fn spec_atom(toks: Seq<Lexeme>, st: PState) -> (Parsed<Expression, Diag>, PState)
    decreases toks.len() - st.pos, 4nat,
{
    if st.pos > toks.len() {
        (Parsed::Error(Diag::LexerError { span: st.span }), st)
    } else {
        let (r1, s1) = spec_function(toks, st);
        if !(r1 is Error) {
            (r1, s1)
        } else {
            let (r2, s2) = spec_let(toks, st);
            if !(r2 is Error) {
                (r2, s2)
            } else {
                let (r3, s3) = spec_variable(toks, st);
                if !(r3 is Error) {
                    (r3, s3)
                } else {
                    let (r4, s4) = spec_number(toks, st);
                    if !(r4 is Error) {
                        (r4, s4)
                    } else {
                        spec_paren(toks, st)
                    }
                }
            }
        }
    }
}

/// Atoms, as many as there are.
pub open spec fn spec_repeat(toks: Seq<Lexeme>, st: PState, g: Gathered<Expression>) -> (
    Parsed<Seq<Expression>, Diag>,
    PState,
)
    decreases toks.len() - st.pos, 5nat,
{
    if st.pos > toks.len() {
        (Parsed::Error(Diag::LexerError { span: st.span }), st)
    } else {
        let (r, s1) = spec_atom(toks, st);
        match repeat_step_spec(g, r) {
            RepeatStepV::Continue(g2) => if st.pos < s1.pos <= toks.len() {
                spec_repeat(toks, s1, g2)
            } else {
                (Parsed::Error(Diag::LexerError { span: st.span }), s1)
            },
            RepeatStepV::Backtrack(v) => (Parsed::Value(v), st),
            RepeatStepV::Stop(p) => (p, s1),
        }
    }
}

/// One or more atoms, applied to each other from the left.
pub open spec fn spec_application(toks: Seq<Lexeme>, st: PState) -> (Parsed<Expression, Diag>, PState)
    decreases toks.len() - st.pos, 6nat,
{
    if st.pos > toks.len() {
        (Parsed::Error(Diag::LexerError { span: st.span }), st)
    } else {
        let (r, s1) = spec_repeat(toks, st, Ok(seq![]));
        match r {
            Parsed::Value(atoms) => if atoms.len() > 0 {
                let (e, t) = fold_apps(atoms[0], atoms.drop_first(), s1.typy);
                (Parsed::Value(e), PState { typy: t, ..s1 })
            } else {
                (Parsed::Error(Diag::LexerError { span: st.span }), s1)
            },
            Parsed::Recover(err, atoms) => if atoms.len() > 0 {
                let (e, t) = fold_apps(atoms[0], atoms.drop_first(), s1.typy);
                (Parsed::Recover(err, e), PState { typy: t, ..s1 })
            } else {
                (Parsed::Error(Diag::LexerError { span: st.span }), s1)
            },
            Parsed::Error(e) => (Parsed::Error(e), s1),
            Parsed::Fatal(e) => (Parsed::Fatal(e), s1),
        }
    }
}

/// The sum `application + expression`.
pub open spec fn spec_sum(toks: Seq<Lexeme>, st: PState) -> (Parsed<Expression, Diag>, PState)
    decreases toks.len() - st.pos, 7nat,
{
    if st.pos > toks.len() {
        (Parsed::Error(Diag::LexerError { span: st.span }), st)
    } else {
        let before = spec_peek_span(toks, st);
        let (r1, s1) = spec_application(toks, st);
        if failed(r1) {
            (halt_spec(r1), s1)
        } else {
            let (r2, s2) = spec_just(toks, s1, Token::Plus);
            let c = firsts(chain_spec(r1, r2, false));
            if failed(c) {
                (halt_spec(c), s2)
            } else if !(st.pos < s2.pos <= toks.len()) {
                (Parsed::Error(Diag::LexerError { span: st.span }), s2)
            } else {
                let (r3, s3) = spec_expr(toks, s2);
                let c2 = chain_spec(c, r3, true);
                node(
                    parsed_map(c2, |v: (Expression, Expression)| Expr::Add(v.0, v.1)),
                    span_merge(before, s3.span),
                    s3,
                )
            }
        }
    }
}

/// An expression: a sum, or else an application.
pub open spec fn spec_expr(toks: Seq<Lexeme>, st: PState) -> (Parsed<Expression, Diag>, PState)
    decreases toks.len() - st.pos, 8nat,
{
    if st.pos > toks.len() {
        (Parsed::Error(Diag::LexerError { span: st.span }), st)
    } else {
        let (o, so) = or_spec(spec_sum(toks, st), spec_application(toks, st));
        (expect_spec(o, Expected::Expression), so)
    }
}

/// A whole input: an expression, then the end.
pub open spec fn spec_parse(toks: Seq<Lexeme>, typy: TypyV) -> (Parsed<Expression, Diag>, TypyV) {
    let st0 = PState { pos: 0, span: Range { start: 0, end: 0 }, stack: Seq::empty(), typy };
    let (r1, s1) = spec_expr(toks, st0);
    if failed(r1) {
        (halt_spec(r1), s1.typy)
    } else {
        let (r2, s2) = spec_eof(toks, s1);
        (firsts(chain_spec(r1, r2, false)), s2.typy)
    }
}

// ---------------------------------------------------------------------------
// Laws of the combinators, as the grammar uses them.

/// An atom is the alternation of its five rules, each run from the state
/// the atom starts in: what a failed alternative read or allocated is undone.
pub proof fn lemma_atom_alternation(toks: Seq<Lexeme>, st: PState)
    requires
        st.pos <= toks.len(),
    ensures
        spec_atom(toks, st) == or_spec(
            spec_function(toks, st),
            or_spec(
                spec_let(toks, st),
                or_spec(spec_variable(toks, st), or_spec(spec_number(toks, st), spec_paren(toks, st))),
            ),
        ),
{
}

/// An expression is the alternation of a sum and an application, both run
/// from the state the expression starts in.
pub proof fn lemma_expr_alternation(toks: Seq<Lexeme>, st: PState)
    requires
        st.pos <= toks.len(),
    ensures
        ({
            let (o, so) = or_spec(spec_sum(toks, st), spec_application(toks, st));
            spec_expr(toks, st) == (expect_spec(o, Expected::Expression), so)
        }),
{
}

/// Bindings: in `let x = v in b`, the bound value `v` is a whole expression,
/// parsed as an expression on its own from the token after `=`, and the
/// body `b` is the expression after `in`; the binding stands for the
/// function `x . b` applied to `v`.
pub proof fn lemma_let_value(toks: Seq<Lexeme>, st: PState, x: String, v: Expression, b: Expression)
    requires
        st.pos + 3 <= toks.len(),
        toks[st.pos as int].0 == Ok::<Token, ()>(Token::Let),
        toks[st.pos + 1int].0 == Ok::<Token, ()>(Token::Identifier(x)),
        toks[st.pos + 2int].0 == Ok::<Token, ()>(Token::Equal),
        ({
            let s3 = PState { pos: st.pos + 3, span: toks[st.pos + 2int].1, ..st };
            let (r4, s4) = spec_expr(toks, s3);
            &&& r4 == Parsed::<Expression, Diag>::Value(v)
            &&& s3.pos <= s4.pos < toks.len()
            &&& toks[s4.pos as int].0 == Ok::<Token, ()>(Token::In)
            &&& spec_expr(toks, PState { pos: s4.pos + 1, span: toks[s4.pos as int].1, ..s4 }).0
                == Parsed::<Expression, Diag>::Value(b)
        }),
    ensures
        spec_let(toks, st).0 matches Parsed::Value(e) && (match *e.expr {
            Expr::Application(f, a) => a == v && *f.expr == Expr::Function(x, b),
            _ => false,
        }),
{
    let s3 = PState { pos: st.pos + 3, span: toks[st.pos + 2int].1, ..st };
    let (r4, s4) = spec_expr(toks, s3);
    let s5 = PState { pos: s4.pos + 1, span: toks[s4.pos as int].1, ..s4 };
    let (r1, s1) = spec_just(toks, st, Token::Let);
    assert(s1 == PState { pos: st.pos + 1, span: toks[st.pos as int].1, ..st });
    let (r2, s2) = spec_identifier(toks, s1);
    assert(r2 == Parsed::<String, Diag>::Value(x));
    let (r3, s3b) = spec_just(toks, s2, Token::Equal);
    assert(s3b == s3);
    let (r5, s5b) = spec_just(toks, s4, Token::In);
    assert(s5b == s5);
}

/// Spans: a variable, a function or a binding that parses spans from the
/// start of the token it begins with (looked at without being read) to the
/// end of the last token it read.
pub proof fn lemma_rule_spans(toks: Seq<Lexeme>, st: PState)
    requires
        st.pos <= toks.len(),
    ensures
        spec_variable(toks, st).0 matches Parsed::Value(e) ==> e.span == span_merge(
            spec_peek_span(toks, st),
            spec_variable(toks, st).1.span,
        ),
        spec_function(toks, st).0 matches Parsed::Value(e) ==> e.span == span_merge(
            spec_peek_span(toks, st),
            spec_function(toks, st).1.span,
        ),
        spec_let(toks, st).0 matches Parsed::Value(e) ==> e.span == span_merge(
            spec_peek_span(toks, st),
            spec_let(toks, st).1.span,
        ),
        spec_sum(toks, st).0 matches Parsed::Value(e) ==> e.span == span_merge(
            spec_peek_span(toks, st),
            spec_sum(toks, st).1.span,
        ),
{
}

/// The repetition of atoms is the repetition of [`spec_atom`] (see
/// [`repeat_model`] and its laws).
pub proof fn lemma_repeat_is_model(toks: Seq<Lexeme>, st: PState, g: Gathered<Expression>)
    ensures
        spec_repeat(toks, st, g) == repeat_model(|t: Seq<Lexeme>, s: PState| spec_atom(t, s), toks, st, g),
    decreases toks.len() - st.pos,
{
    let p = |t: Seq<Lexeme>, s: PState| spec_atom(t, s);
    if st.pos <= toks.len() {
        let (r, s1) = spec_atom(toks, st);
        assert(p(toks, st) == (r, s1));
        match repeat_step_spec(g, r) {
            RepeatStepV::Continue(g2) => if st.pos < s1.pos <= toks.len() {
                lemma_repeat_is_model(toks, s1, g2);
            },
            _ => {},
        }
    }
}

// ---------------------------------------------------------------------------
/// The parse can hand out two type variables for each token left.
pub open spec fn bound(c: Context) -> bool {
    c.ctx@.len() + 2 * (c.tokens@.len() - c.pos) < u32::MAX
}

/// What a parser of expressions keeps: the tokens, a well-formed state, the
/// outcome and the final state that the grammar gives (on every outcome, so
/// that an alternative that failed is undone exactly as the model says); on
/// a value, at least one token read, at most two type variables for each
/// token read but one, a table that only grew, and an expression whose type
/// variables are keys of it and whose numbers it knows to be numbers.
pub open spec fn parsed_ok(
    old: Context,
    new: Context,
    spec: (Parsed<Expression, Diag>, PState),
    r: Parsed<Expression, Diag>,
) -> bool {
    &&& new.tokens@ == old.tokens@
    &&& new.wf()
    &&& r == spec.0
    &&& new.state() == spec.1
    &&& !(r is Recover)
    &&& match r {
        Parsed::Value(e) => {
            &&& old.pos < new.pos
            &&& new.ctx@.len() + 1 <= old.ctx@.len() + 2 * (new.pos - old.pos)
            &&& refines(old.ctx@, new.ctx@)
            &&& ids_valid(new.ctx@, e)
            &&& numbers_known(new.ctx@, e)
            &&& old.ctx@.len() + size(e) <= new.ctx@.len()
        },
        _ => true,
    }
}

/// The text of an identifier token.
fn ident_token(token: Token) -> (o: Option<String>)
    ensures
        o == ident_of(token),
{
    match token {
        Token::Identifier(ident) => Some(ident),
        _ => None,
    }
}

fn identifier(ctx: &mut Context) -> (r: Parsed<String, Diag>)
    requires
        old(ctx).wf(),
    ensures
        final(ctx).tokens@ == old(ctx).tokens@,
        final(ctx).wf(),
        (r, final(ctx).state()) == spec_identifier(old(ctx).tokens@, old(ctx).state()),
        !(r is Recover),
        r is Value ==> final(ctx).pos == old(ctx).pos + 1 && final(ctx).ctx@ == old(ctx).ctx@,
{
    select(ctx, Expected::Identifier, ident_token)
}

fn number(ctx: &mut Context) -> (r: Parsed<Expression, Diag>)
    requires
        old(ctx).wf(),
        bound(*old(ctx)),
    ensures
        parsed_ok(*old(ctx), *final(ctx), spec_number(old(ctx).tokens@, old(ctx).state()), r),
{
    let ghost t0 = ctx.ctx@;
    let token = ctx.next();
    match token {
        Parsed::Value(Some(Token::Number(d))) => {
            let ty = ctx.ctx.known(Type::Number);
            let e = Expression { expr: Box::new(Expr::Number(d)), ty, span: ctx.span() };
            Parsed::Value(e)
        },
        Parsed::Value(Some(t)) => Parsed::Error(Diag::expected_found(Expected::Number, t, ctx.span())),
        Parsed::Value(None) => Parsed::Error(Diag::expected_found_eof(Expected::Number, ctx.span())),
        Parsed::Error(e) => Parsed::Error(e),
        Parsed::Fatal(e) => Parsed::Fatal(e),
        Parsed::Recover(err, Some(Token::Number(d))) => {
            let ty = ctx.ctx.known(Type::Number);
            let e = Expression { expr: Box::new(Expr::Number(d)), ty, span: ctx.span() };
            Parsed::Recover(err, e)
        },
        Parsed::Recover(err, Some(t)) => Parsed::Fatal(
            Diag::merge(Diag::expected_found(Expected::Number, t, ctx.span()), err),
        ),
        Parsed::Recover(err, None) => Parsed::Fatal(
            Diag::merge(Diag::expected_found_eof(Expected::Number, ctx.span()), err),
        ),
    }
}

fn variable(ctx: &mut Context) -> (r: Parsed<Expression, Diag>)
    requires
        old(ctx).wf(),
        bound(*old(ctx)),
    ensures
        parsed_ok(*old(ctx), *final(ctx), spec_variable(old(ctx).tokens@, old(ctx).state()), r),
{
    let before = ctx.peek_span();
    let r = identifier(ctx);
    let after = ctx.span();
    let span = Range { start: before.start, end: after.end };
    match r {
        Parsed::Value(n) => {
            let ty = ctx.ctx.unknown();
            Parsed::Value(Expression { expr: Box::new(Expr::Variable(n)), ty, span })
        },
        Parsed::Recover(e, n) => {
            let ty = ctx.ctx.unknown();
            Parsed::Recover(e, Expression { expr: Box::new(Expr::Variable(n)), ty, span })
        },
        Parsed::Error(e) => Parsed::Error(e),
        Parsed::Fatal(e) => Parsed::Fatal(e),
    }
}

/// An opening delimiter (see [`spec_open_delimiter`]).
pub fn open_delimiter(ctx: &mut Context, delim: Delim) -> (r: Parsed<Delim, Diag>)
    requires
        old(ctx).wf(),
    ensures
        final(ctx).tokens@ == old(ctx).tokens@,
        final(ctx).wf(),
        (r, final(ctx).state()) == spec_open_delimiter(old(ctx).tokens@, old(ctx).state(), delim),
        !(r is Recover),
        r is Value ==> final(ctx).pos == old(ctx).pos + 1 && final(ctx).ctx@ == old(ctx).ctx@,
{
    let r1 = just(ctx, Token::from(delim));
    let r1e = expect_all(r1, Expected::Delim(delim));
    match r1e {
        Parsed::Value(_) => {
            ctx.open_delimiter(delim);
            Parsed::Value(delim)
        },
        Parsed::Recover(e, _) => {
            ctx.open_delimiter(delim);
            Parsed::Recover(e, delim)
        },
        Parsed::Error(e) => Parsed::Error(e),
        Parsed::Fatal(e) => Parsed::Fatal(e),
    }
}

fn close_choice(t: &Token, d: Delim) -> (r: Option<Delim>)
    ensures
        r == (if tokens_alike(*t, delim_token(d)) {
            Some(d)
        } else {
            token_delim(*t)
        }),
{
    if t.alike(&Token::from(d)) {
        Some(d)
    } else {
        match Delim::try_from(t.clone()) {
            Ok(x) => Some(x),
            Err(_) => None,
        }
    }
}

/// A closing delimiter (see [`spec_close_delimiter`]).
pub fn close_delimiter(ctx: &mut Context, delim: Delim) -> (r: Parsed<Delim, Diag>)
    requires
        old(ctx).wf(),
    ensures
        final(ctx).tokens@ == old(ctx).tokens@,
        final(ctx).wf(),
        (r, final(ctx).state()) == spec_close_delimiter(old(ctx).tokens@, old(ctx).state(), delim),
        !(r is Recover),
        r is Value ==> final(ctx).pos == old(ctx).pos + 1 && final(ctx).ctx@ == old(ctx).ctx@,
{
    let token = ctx.next();
    let sel: Parsed<Delim, Diag> = match token {
        Parsed::Value(Some(t)) => match close_choice(&t, delim) {
            Some(x) => Parsed::Value(x),
            None => Parsed::Error(Diag::expected_found(Expected::Delim(delim), t, ctx.span())),
        },
        Parsed::Value(None) => Parsed::Error(Diag::expected_found_eof(Expected::Delim(delim), ctx.span())),
        Parsed::Error(e) => Parsed::Error(e),
        Parsed::Fatal(e) => Parsed::Fatal(e),
        Parsed::Recover(err, Some(t)) => match close_choice(&t, delim) {
            Some(x) => Parsed::Recover(err, x),
            None => Parsed::Fatal(
                Diag::merge(Diag::expected_found(Expected::Delim(delim), t, ctx.span()), err),
            ),
        },
        Parsed::Recover(err, None) => Parsed::Fatal(
            Diag::merge(Diag::expected_found_eof(Expected::Delim(delim), ctx.span()), err),
        ),
    };
    match sel {
        Parsed::Value(x) => match ctx.close_delimiter(x) {
            Ok(_) => Parsed::Value(x),
            Err(e) => Parsed::Error(e),
        },
        Parsed::Recover(err, x) => {
            let c = match ctx.close_delimiter(x) {
                Ok(_) => Parsed::Value(x),
                Err(e) => Parsed::Error(e),
            };
            try_map(Some(err), c)
        },
        Parsed::Error(e) => Parsed::Error(e),
        Parsed::Fatal(e) => Parsed::Fatal(e),
    }
}

fn function(ctx: &mut Context) -> (r: Parsed<Expression, Diag>)
    requires
        old(ctx).wf(),
        bound(*old(ctx)),
    ensures
        parsed_ok(*old(ctx), *final(ctx), spec_function(old(ctx).tokens@, old(ctx).state()), r),
    decreases old(ctx).tokens@.len() - old(ctx).pos, 3nat,
{
    let ghost c0 = *ctx;
    let before = ctx.peek_span();
    let r1 = identifier(ctx);
    if let Parsed::Error(_) | Parsed::Fatal(_) = r1 {
        return halt(r1);
    }
    let r2 = just(ctx, Token::Dot);
    let c1 = first(chain(r1, r2, false));
    if let Parsed::Error(_) | Parsed::Fatal(_) = c1 {
        return halt(c1);
    }
    let ghost c2s = *ctx;
    let r3 = expr(ctx);
    let ghost c3s = *ctx;
    let c2 = chain(c1, r3, true);
    let after = ctx.span();
    let span = Range { start: before.start, end: after.end };
    match c2 {
        Parsed::Value((n, b)) => {
            let ty = ctx.ctx.unknown();
            proof {
                crate::typy::lemma_refines_trans(c0.ctx@, c3s.ctx@, ctx.ctx@);
                crate::check::lemma_ids_valid_mono(c3s.ctx@, ctx.ctx@, b);
                crate::check::lemma_numbers_known_mono(c3s.ctx@, ctx.ctx@, b);
            }
            Parsed::Value(Expression { expr: Box::new(Expr::Function(n, b)), ty, span })
        },
        Parsed::Recover(e, (n, b)) => {
            let ty = ctx.ctx.unknown();
            Parsed::Recover(e, Expression { expr: Box::new(Expr::Function(n, b)), ty, span })
        },
        Parsed::Error(e) => Parsed::Error(e),
        Parsed::Fatal(e) => Parsed::Fatal(e),
    }
}

#[verifier::rlimit(80)]
fn let_expr(ctx: &mut Context) -> (r: Parsed<Expression, Diag>)
    requires
        old(ctx).wf(),
        bound(*old(ctx)),
    ensures
        parsed_ok(*old(ctx), *final(ctx), spec_let(old(ctx).tokens@, old(ctx).state()), r),
    decreases old(ctx).tokens@.len() - old(ctx).pos, 3nat,
{
    let ghost c0 = *ctx;
    let before = ctx.peek_span();
    let r1 = just(ctx, Token::Let);
    if let Parsed::Error(_) | Parsed::Fatal(_) = r1 {
        return halt(r1);
    }
    let r2 = identifier(ctx);
    let c2 = second(chain(r1, r2, true));
    if let Parsed::Error(_) | Parsed::Fatal(_) = c2 {
        return halt(c2);
    }
    let r3 = just(ctx, Token::Equal);
    let c3 = first(chain(c2, r3, true));
    if let Parsed::Error(_) | Parsed::Fatal(_) = c3 {
        return halt(c3);
    }
    let ghost c3s = *ctx;
    let r4 = expr(ctx);
    let ghost c4s = *ctx;
    let c4 = chain(c3, r4, true);
    if let Parsed::Error(_) | Parsed::Fatal(_) = c4 {
        return halt(c4);
    }
    let r5 = just(ctx, Token::In);
    let c5 = first(chain(c4, r5, true));
    if let Parsed::Error(_) | Parsed::Fatal(_) = c5 {
        return halt(c5);
    }
    let ghost c5s = *ctx;
    let r6 = expr(ctx);
    let ghost c6s = *ctx;
    let c6 = chain(c5, r6, true);
    let after = ctx.span();
    let span = Range { start: before.start, end: after.end };
    match c6 {
        Parsed::Value(((n, v), b)) => {
            let id1 = ctx.ctx.unknown();
            let id2 = ctx.ctx.unknown();
            proof {
                crate::typy::lemma_refines_trans(c0.ctx@, c4s.ctx@, c6s.ctx@);
                crate::typy::lemma_refines_trans(c0.ctx@, c6s.ctx@, ctx.ctx@);
                crate::check::lemma_ids_valid_mono(c4s.ctx@, ctx.ctx@, v);
                crate::check::lemma_ids_valid_mono(c4s.ctx@, c6s.ctx@, v);
                crate::check::lemma_numbers_known_mono(c4s.ctx@, c6s.ctx@, v);
                crate::check::lemma_numbers_known_mono(c6s.ctx@, ctx.ctx@, v);
                crate::check::lemma_ids_valid_mono(c6s.ctx@, ctx.ctx@, b);
                crate::check::lemma_numbers_known_mono(c6s.ctx@, ctx.ctx@, b);
            }
            let vspan = copy_span(&v.span);
            let f = Expression { expr: Box::new(Expr::Function(n, b)), ty: id1, span: vspan };
            proof {
                assert(ids_valid(ctx.ctx@, f));
                assert(numbers_known(ctx.ctx@, f));
            }
            let res = Parsed::Value(Expression { expr: Box::new(Expr::Application(f, v)), ty: id2, span });
            proof {
                assert(r4 is Value && r4->Value_0 == v);
                assert(r6 is Value && r6->Value_0 == b);
                assert(c3s.ctx@.len() + size(v) <= c4s.ctx@.len());
                assert(c5s.ctx@.len() + size(b) <= c6s.ctx@.len());
                assert(c0.ctx@.len() <= c3s.ctx@.len());
                assert(c4s.ctx@.len() <= c5s.ctx@.len());
                assert(size(f) == 1 + size(b));
                assert(size(res->Value_0) == 1 + size(f) + size(v));
                let sp = spec_let(c0.tokens@, c0.state());
                assert(res == sp.0);
                assert(ctx.state() == sp.1);
                assert(ctx.ctx@.len() + 1 <= c0.ctx@.len() + 2 * (ctx.pos - c0.pos));
                assert(ids_valid(ctx.ctx@, res->Value_0));
                assert(numbers_known(ctx.ctx@, res->Value_0));
            }
            res
        },
        Parsed::Recover(e, ((n, v), b)) => {
            let id1 = ctx.ctx.unknown();
            let id2 = ctx.ctx.unknown();
            let vspan = copy_span(&v.span);
            let f = Expression { expr: Box::new(Expr::Function(n, b)), ty: id1, span: vspan };
            Parsed::Recover(e, Expression { expr: Box::new(Expr::Application(f, v)), ty: id2, span })
        },
        Parsed::Error(e) => Parsed::Error(e),
        Parsed::Fatal(e) => Parsed::Fatal(e),
    }
}

fn paren(ctx: &mut Context) -> (r: Parsed<Expression, Diag>)
    requires
        old(ctx).wf(),
        bound(*old(ctx)),
    ensures
        parsed_ok(*old(ctx), *final(ctx), spec_paren(old(ctx).tokens@, old(ctx).state()), r),
    decreases old(ctx).tokens@.len() - old(ctx).pos, 3nat,
{
    let r1 = open_delimiter(ctx, Delim::OpenParenthesis);
    if let Parsed::Error(_) | Parsed::Fatal(_) = r1 {
        return halt(r1);
    }
    let r2 = expr(ctx);
    let c2 = second(chain(r1, r2, true));
    if let Parsed::Error(_) | Parsed::Fatal(_) = c2 {
        return halt(c2);
    }
    let r3 = close_delimiter(ctx, Delim::CloseParenthesis);
    first(chain(c2, r3, true))
}

fn atom(ctx: &mut Context) -> (r: Parsed<Expression, Diag>)
    requires
        old(ctx).wf(),
        bound(*old(ctx)),
    ensures
        parsed_ok(*old(ctx), *final(ctx), spec_atom(old(ctx).tokens@, old(ctx).state()), r),
    decreases old(ctx).tokens@.len() - old(ctx).pos, 4nat,
{
    let ghost c0 = *ctx;
    let bp = ctx.breakpoint();
    let r1 = function(ctx);
    if let Parsed::Error(_) = r1 {
    } else {
        return r1;
    }
    ctx.restore(bp);
    assert(ctx.state() == c0.state());
    let bp = ctx.breakpoint();
    let r2 = let_expr(ctx);
    if let Parsed::Error(_) = r2 {
    } else {
        return r2;
    }
    ctx.restore(bp);
    assert(ctx.state() == c0.state());
    let bp = ctx.breakpoint();
    let r3 = variable(ctx);
    if let Parsed::Error(_) = r3 {
    } else {
        return r3;
    }
    ctx.restore(bp);
    assert(ctx.state() == c0.state());
    let bp = ctx.breakpoint();
    let r4 = number(ctx);
    if let Parsed::Error(_) = r4 {
    } else {
        return r4;
    }
    ctx.restore(bp);
    assert(ctx.state() == c0.state());
    paren(ctx)
}

/// Every expression gathered is valid in the table and has its numbers known.
pub open spec fn all_ok(t: TypyV, v: Seq<Expression>) -> bool {
    forall|i: int| 0 <= i < v.len() ==> ids_valid(t, #[trigger] v[i]) && numbers_known(t, v[i])
}

proof fn lemma_all_ok_mono(t1: TypyV, t2: TypyV, v: Seq<Expression>)
    requires
        all_ok(t1, v),
        refines(t1, t2),
    ensures
        all_ok(t2, v),
{
    assert forall|i: int| 0 <= i < v.len() implies ids_valid(t2, #[trigger] v[i]) && numbers_known(
        t2,
        v[i],
    ) by {
        crate::check::lemma_ids_valid_mono(t1, t2, v[i]);
        crate::check::lemma_numbers_known_mono(t1, t2, v[i]);
    }
}

/// The number of nodes of a list of expressions.
pub open spec fn sizes(v: Seq<Expression>) -> nat
    decreases v.len(),
{
    if v.len() == 0 {
        0
    } else {
        sizes(v.drop_last()) + size(v.last())
    }
}

proof fn lemma_sizes_first(v: Seq<Expression>)
    requires
        v.len() > 0,
    ensures
        sizes(v) == size(v[0]) + sizes(v.drop_first()),
    decreases v.len(),
{
    if v.len() > 1 {
        lemma_sizes_first(v.drop_last());
        assert(v.drop_last().drop_first() =~= v.drop_first().drop_last());
        assert(v.drop_last()[0] == v[0]);
        assert(v.drop_first().last() == v.last());
    } else {
        assert(v.drop_last() =~= Seq::<Expression>::empty());
        assert(v.drop_first() =~= Seq::<Expression>::empty());
    }
}

pub open spec fn vec_parsed(r: Parsed<Vec<Expression>, Diag>) -> Parsed<Seq<Expression>, Diag> {
    match r {
        Parsed::Value(v) => Parsed::Value(v@),
        Parsed::Error(e) => Parsed::Error(e),
        Parsed::Fatal(e) => Parsed::Fatal(e),
        Parsed::Recover(e, v) => Parsed::Recover(e, v@),
    }
}

fn repeated(ctx: &mut Context) -> (r: Parsed<Vec<Expression>, Diag>)
    requires
        old(ctx).wf(),
        bound(*old(ctx)),
    ensures
        final(ctx).tokens@ == old(ctx).tokens@,
        final(ctx).wf(),
        vec_parsed(r) == spec_repeat(old(ctx).tokens@, old(ctx).state(), Ok(seq![])).0,
        final(ctx).state() == spec_repeat(old(ctx).tokens@, old(ctx).state(), Ok(seq![])).1,
        !(r is Recover),
        match r {
            Parsed::Value(v) => {
                &&& v@.len() > 0
                &&& old(ctx).pos < final(ctx).pos
                &&& final(ctx).ctx@.len() + v@.len() <= old(ctx).ctx@.len() + 2 * (final(ctx).pos - old(ctx).pos)
                &&& refines(old(ctx).ctx@, final(ctx).ctx@)
                &&& all_ok(final(ctx).ctx@, v@)
                &&& old(ctx).ctx@.len() + sizes(v@) <= final(ctx).ctx@.len()
            },
            _ => true,
        },
    decreases old(ctx).tokens@.len() - old(ctx).pos, 5nat,
{
    let ghost c0 = *ctx;
    let ghost toks = ctx.tokens@;
    let mut state: Result<Vec<Expression>, (Diag, Vec<Expression>)> = Ok(Vec::new());
    proof {
        crate::typy::lemma_refines_refl(c0.ctx@);
    }
    loop
        invariant
            ctx.tokens@ == toks,
            toks == c0.tokens@,
            c0 == *old(ctx),
            c0.ctx@.wf(),
            ctx.wf(),
            c0.pos <= ctx.pos,
            state is Ok,
            spec_repeat(toks, ctx.state(), gathered_view(state)) == spec_repeat(toks, c0.state(), Ok(seq![])),
            match state {
                Ok(v) => {
                    &&& ctx.ctx@.len() + v@.len() <= c0.ctx@.len() + 2 * (ctx.pos - c0.pos)
                    &&& v@.len() <= ctx.pos - c0.pos
                    &&& all_ok(ctx.ctx@, v@)
                    &&& c0.ctx@.len() + sizes(v@) <= ctx.ctx@.len()
                },
                Err(_) => true,
            },
            refines(c0.ctx@, ctx.ctx@),
            bound(c0),
        decreases toks.len() - ctx.pos,
    {
        let ghost ci = *ctx;
        let bp = ctx.breakpoint();
        let r = atom(ctx);
        let ghost g = gathered_view(state);
        proof {
            if r is Value {
                crate::typy::lemma_refines_trans(c0.ctx@, ci.ctx@, ctx.ctx@);
                lemma_all_ok_mono(ci.ctx@, ctx.ctx@, g->Ok_0);
            }
        }
        match repeat_step(state, r) {
            RepeatStep::Continue(g2) => {
                state = g2;
                proof {
                    assert(gathered_view(state)->Ok_0 =~= g->Ok_0.push(r->Value_0));
                    assert(gathered_view(state)->Ok_0.drop_last() =~= g->Ok_0);
                }
            },
            RepeatStep::Backtrack(v) => {
                ctx.restore(bp);
                return Parsed::Value(v);
            },
            RepeatStep::Stop(p) => {
                return p;
            },
        }
    }
}

fn fold(atoms: Vec<Expression>, ctx: &mut Context, Ghost(base): Ghost<nat>) -> (e: Expression)
    requires
        old(ctx).wf(),
        atoms@.len() > 0,
        old(ctx).ctx@.len() + atoms@.len() <= u32::MAX,
        all_ok(old(ctx).ctx@, atoms@),
    ensures
        (e, final(ctx).ctx@) == fold_apps(atoms@[0], atoms@.drop_first(), old(ctx).ctx@),
        final(ctx).state() == (PState { typy: final(ctx).ctx@, ..old(ctx).state() }),
        final(ctx).tokens@ == old(ctx).tokens@,
        final(ctx).wf(),
        final(ctx).ctx@.len() + 1 == old(ctx).ctx@.len() + atoms@.len(),
        refines(old(ctx).ctx@, final(ctx).ctx@),
        ids_valid(final(ctx).ctx@, e),
        numbers_known(final(ctx).ctx@, e),
        old(ctx).ctx@.len() >= base + sizes(atoms@) ==> final(ctx).ctx@.len() >= base + size(e),
{
    let ghost c0 = *ctx;
    let ghost a0 = atoms@;
    proof {
        lemma_sizes_first(a0);
    }
    let mut atoms = atoms;
    let mut acc = atoms.remove(0);
    proof {
        crate::typy::lemma_refines_refl(c0.ctx@);
        assert(atoms@ == a0.drop_first());
        assert(a0[0] == acc);
        assert forall|i: int| 0 <= i < atoms@.len() implies ids_valid(ctx.ctx@, #[trigger] atoms@[i])
            && numbers_known(ctx.ctx@, atoms@[i]) by {
            assert(atoms@[i] == a0[i + 1]);
        }
    }
    while atoms.len() > 0
        invariant
            ctx.tokens@ == c0.tokens@,
            ctx.wf(),
            c0.ctx@.wf(),
            ctx.state() == (PState { typy: ctx.ctx@, ..c0.state() }),
            fold_apps(acc, atoms@, ctx.ctx@) == fold_apps(a0[0], a0.drop_first(), c0.ctx@),
            ctx.ctx@.len() + atoms@.len() + 1 == c0.ctx@.len() + a0.len(),
            c0.ctx@.len() + a0.len() <= u32::MAX,
            refines(c0.ctx@, ctx.ctx@),
            ids_valid(ctx.ctx@, acc),
            numbers_known(ctx.ctx@, acc),
            all_ok(ctx.ctx@, atoms@),
            c0.ctx@.len() >= base + sizes(a0) ==> ctx.ctx@.len() >= base + size(acc) + sizes(atoms@),
        decreases atoms@.len(),
    {
        let ghost t = ctx.ctx@;
        let ghost rest = atoms@;
        let ghost prev = acc;
        proof {
            lemma_sizes_first(atoms@);
        }
        let b = atoms.remove(0);
        let ty = ctx.ctx.unknown();
        let span = Range { start: acc.span.start, end: b.span.end };
        acc = Expression { expr: Box::new(Expr::Application(acc, b)), ty, span };
        proof {
            assert(b == rest[0]);
            assert(atoms@ == rest.drop_first());
            crate::typy::lemma_refines_trans(c0.ctx@, t, ctx.ctx@);
            lemma_all_ok_mono(t, ctx.ctx@, rest);
            assert(ids_valid(ctx.ctx@, rest[0]));
            assert forall|i: int| 0 <= i < atoms@.len() implies ids_valid(ctx.ctx@, #[trigger] atoms@[i])
                && numbers_known(ctx.ctx@, atoms@[i]) by {
                assert(atoms@[i] == rest[i + 1]);
            }
            crate::check::lemma_ids_valid_mono(t, ctx.ctx@, prev);
            crate::check::lemma_numbers_known_mono(t, ctx.ctx@, prev);
        }
    }
    acc
}

fn application(ctx: &mut Context) -> (r: Parsed<Expression, Diag>)
    requires
        old(ctx).wf(),
        bound(*old(ctx)),
    ensures
        parsed_ok(*old(ctx), *final(ctx), spec_application(old(ctx).tokens@, old(ctx).state()), r),
    decreases old(ctx).tokens@.len() - old(ctx).pos, 6nat,
{
    let ghost c0 = *ctx;
    let r = repeated(ctx);
    let ghost c1 = *ctx;
    match r {
        Parsed::Value(atoms) => {
            let e = fold(atoms, ctx, Ghost(c0.ctx@.len()));
            proof {
                crate::typy::lemma_refines_trans(c0.ctx@, c1.ctx@, ctx.ctx@);
            }
            Parsed::Value(e)
        },
        Parsed::Recover(err, atoms) => {
            if atoms.len() > 0 {
                Parsed::Recover(err, fold(atoms, ctx, Ghost(0)))
            } else {
                Parsed::Error(Diag::LexerError { span: copy_span(&ctx.span) })
            }
        },
        Parsed::Error(e) => Parsed::Error(e),
        Parsed::Fatal(e) => Parsed::Fatal(e),
    }
}

#[verifier::rlimit(80)]
fn expr(ctx: &mut Context) -> (r: Parsed<Expression, Diag>)
    requires
        old(ctx).wf(),
        bound(*old(ctx)),
    ensures
        parsed_ok(*old(ctx), *final(ctx), spec_expr(old(ctx).tokens@, old(ctx).state()), r),
    decreases old(ctx).tokens@.len() - old(ctx).pos, 7nat,
{
    let ghost c0 = *ctx;
    let bp = ctx.breakpoint();
    let before = ctx.peek_span();
    let r1 = application(ctx);
    let a = if let Parsed::Error(_) | Parsed::Fatal(_) = r1 {
        halt(r1)
    } else {
        let ghost c1 = *ctx;
        let r2 = just(ctx, Token::Plus);
        let c = first(chain(r1, r2, false));
        if let Parsed::Error(_) | Parsed::Fatal(_) = c {
            halt(c)
        } else {
            let r3 = expr(ctx);
            let ghost c3 = *ctx;
            let c2 = chain(c, r3, true);
            let after = ctx.span();
            let span = Range { start: before.start, end: after.end };
            match c2 {
                Parsed::Value((x, y)) => {
                    let ty = ctx.ctx.unknown();
                    proof {
                        crate::typy::lemma_refines_trans(c0.ctx@, c1.ctx@, c3.ctx@);
                        crate::typy::lemma_refines_trans(c0.ctx@, c3.ctx@, ctx.ctx@);
                        crate::check::lemma_ids_valid_mono(c1.ctx@, ctx.ctx@, x);
                        crate::check::lemma_ids_valid_mono(c1.ctx@, c3.ctx@, x);
                        crate::check::lemma_numbers_known_mono(c1.ctx@, c3.ctx@, x);
                        crate::check::lemma_numbers_known_mono(c3.ctx@, ctx.ctx@, x);
                        crate::check::lemma_ids_valid_mono(c3.ctx@, ctx.ctx@, y);
                        crate::check::lemma_numbers_known_mono(c3.ctx@, ctx.ctx@, y);
                    }
                    Parsed::Value(Expression { expr: Box::new(Expr::Add(x, y)), ty, span })
                },
                Parsed::Recover(e, (x, y)) => {
                    let ty = ctx.ctx.unknown();
                    Parsed::Recover(e, Expression { expr: Box::new(Expr::Add(x, y)), ty, span })
                },
                Parsed::Error(e) => Parsed::Error(e),
                Parsed::Fatal(e) => Parsed::Fatal(e),
            }
        }
    };
    let o = match a {
        Parsed::Error(_) => {
            ctx.restore(bp);
            application(ctx)
        },
        other => other,
    };
    expect(o, Expected::Expression)
}

/// What a parse of `tokens` from the table `t0` gives back, against the
/// model: the same outcome and the same expression, and on success a table
/// that refines `t0` and types every node of the expression.
pub open spec fn parse_matches(tokens: Seq<Lexeme>, t0: TypyV, r: Parsed<(Expression, Typy), Diag>) -> bool {
    match (r, spec_parse(tokens, t0).0) {
        (Parsed::Value((e, t)), Parsed::Value(e2)) => {
            &&& e == e2
            &&& t@ == spec_parse(tokens, t0).1
            &&& t@.wf()
            &&& refines(t0, t@)
            &&& ids_valid(t@, e)
            &&& numbers_known(t@, e)
            &&& t0.len() + size(e) <= t@.len()
            &&& t@.len() <= t0.len() + 2 * tokens.len()
        },
        (Parsed::Error(d), Parsed::Error(d2)) => d == d2,
        (Parsed::Fatal(d), Parsed::Fatal(d2)) => d == d2,
        _ => false,
    }
}

/// Parses a list of tokens as a whole expression, with `typy` to hand out
/// the type variables; gives the expression and the table.
pub fn parse_tokens(tokens: Vec<Lexeme>, typy: Typy) -> (r: Parsed<(Expression, Typy), Diag>)
    requires
        typy@.wf(),
        typy@.len() + 2 * tokens@.len() < u32::MAX,
    ensures
        parse_matches(tokens@, typy@, r),
{
    let mut ctx = Context::new(tokens, Range { start: 0, end: 0 }, typy);
    let r1 = expr(&mut ctx);
    if let Parsed::Error(_) | Parsed::Fatal(_) = r1 {
        return halt(r1);
    }
    let ghost c1 = ctx;
    let r2 = eof(&mut ctx);
    assert(ctx.ctx@ == c1.ctx@);
    let c = first(chain(r1, r2, false));
    match c {
        Parsed::Value(v) => Parsed::Value((v, ctx.take_ctx())),
        Parsed::Recover(e, v) => Parsed::Recover(e, (v, ctx.take_ctx())),
        Parsed::Error(e) => Parsed::Error(e),
        Parsed::Fatal(e) => Parsed::Fatal(e),
    }
}

/// Lexes `code` and parses it as a whole expression, with `typy` to hand out
/// the type variables; gives the expression and the table.
pub fn parse(code: &str, typy: Typy) -> (r: Parsed<(Expression, Typy), Diag>)
    requires
        typy@.wf(),
        typy@.len() + 2 * code.spec_bytes().len() < u32::MAX,
    ensures
        exists|tokens: Seq<Lexeme>|
            {
                &&& tokens.map_values(|l: Lexeme| lexeme_view(l)) == lex_from(code.spec_bytes(), 0)
                &&& parse_matches(tokens, typy@, r)
            },
{
    let tokens = Token::lex(code);
    proof {
        lemma_lex_len(code.spec_bytes(), 0);
        assert(tokens@.len() == lex_from(code.spec_bytes(), 0).len());
    }
    let ghost toks = tokens@;
    let r = parse_tokens(tokens, typy);
    assert(toks.map_values(|l: Lexeme| lexeme_view(l)) == lex_from(code.spec_bytes(), 0));
    r
}

} // verus!
