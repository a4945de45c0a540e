use vstd::prelude::*;
use vstd::string::StringSliceAdditionalSpecFns;

use crate::check::{check_reports, lemma_ids_valid_mono, spec_type_chk, type_chk};
use crate::diag::Diag;
use crate::lexer::{lemma_lex_len, lex_from, lexeme_view};
use crate::parser::{parse, parse_matches, spec_parse};
use crate::skim::{Lexeme, Parsed};
use crate::syntax::{ids_valid, typed, Expression};
use crate::typy::{Typy, TypyV};

verus! {

/// What checking a program whose tokens are `tokens` gives, in the model:
/// the parse from an empty table, then the type check of the expression it
/// gives. A parse that recovered from an error is type checked too, and
/// reported by its own error, followed by the checker's where both failed.
pub open spec fn source_outcome(tokens: Seq<Lexeme>, r: Result<(Expression, Typy), Diag>) -> bool {
    let (p, t1) = spec_parse(tokens, TypyV::empty());
    match p {
        Parsed::Value(e) => {
            let (c, t2) = spec_type_chk(t1, e);
            match (c, r) {
                (Ok(_), Ok((e2, t))) => e2 == e && t@ == t2,
                (Err(ce), Err(d)) => check_reports(Err(d), Err(ce)),
                _ => false,
            }
        },
        Parsed::Error(d) => r == Err::<(Expression, Typy), Diag>(d),
        Parsed::Fatal(d) => r == Err::<(Expression, Typy), Diag>(d),
        Parsed::Recover(_, _) => r is Err,
    }
}

/// Parses a program and type checks it: the expression and the table of its
/// types, or the first error. An expression that checks is well typed: every
/// node obeys its typing rule in the table given back.
pub fn check_source(code: &str) -> (r: Result<(Expression, Typy), Diag>)
    requires
        6 * code.spec_bytes().len() < u32::MAX,
    ensures
        exists|tokens: Seq<Lexeme>|
            {
                &&& tokens.map_values(|l: Lexeme| lexeme_view(l)) == lex_from(code.spec_bytes(), 0)
                &&& source_outcome(tokens, r)
            },
        match r {
            Ok((e, t)) => t@.wf() && ids_valid(t@, e) && typed(t@, e, seq![]),
            Err(_) => true,
        },
{
    let parsed = parse(code, Typy::new());
    let ghost tokens = choose|tokens: Seq<Lexeme>|
        {
            &&& tokens.map_values(|l: Lexeme| lexeme_view(l)) == lex_from(code.spec_bytes(), 0)
            &&& parse_matches(tokens, TypyV::empty(), parsed)
        };
    proof {
        lemma_lex_len(code.spec_bytes(), 0);
        assert(tokens.len() == lex_from(code.spec_bytes(), 0).len());
    }
    let r = match parsed {
        Parsed::Value((e, t)) => {
            let mut t = t;
            let ghost t1 = t@;
            match type_chk(&e, &mut t) {
                Ok(()) => {
                    proof {
                        lemma_ids_valid_mono(t1, t@, e);
                    }
                    Ok((e, t))
                },
                Err(d) => Err(d),
            }
        },
        Parsed::Error(d) => Err(d),
        Parsed::Fatal(d) => Err(d),
        Parsed::Recover(err, (e, t)) => {
            let mut t = t;
            match type_chk(&e, &mut t) {
                Ok(()) => Err(err),
                Err(d) => Err(Diag::merge(err, d)),
            }
        },
    };
    assert(source_outcome(tokens, r));
    r
}

} // verus!
