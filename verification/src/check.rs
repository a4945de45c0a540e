use std::marker::PhantomData;
use std::ops::Range;
use vstd::prelude::*;

use crate::diag::{copy_span, Diag};
use crate::syntax::{ids_valid, lookup, numbers_known, size, typed, Expr, Expression};
use crate::types::Type;
use crate::typy::{
    lemma_refines_refl, lemma_refines_trans, merges, refines, reports, spec_eq, spec_set, Mismatch,
    Ty, TypeID, Typed, Typy, TypyV,
};

verus! {

/// What went wrong while checking, in the model.
pub enum CheckErr {
    Undefined(String, Range<usize>),
    Mismatch(Mismatch),
}

/// `r` is the result that `s` describes.
pub open spec fn check_reports(r: Result<(), Diag>, s: Result<(), CheckErr>) -> bool {
    match (r, s) {
        (Ok(_), Ok(_)) => true,
        (Err(d), Err(CheckErr::Undefined(n, sp))) => d == Diag::UndefinedVariable { name: n, span: sp },
        (Err(d), Err(CheckErr::Mismatch(m))) => reports(d, m),
        _ => false,
    }
}

pub open spec fn lift(r: Result<(), Mismatch>) -> Result<(), CheckErr> {
    match r {
        Ok(_) => Ok(()),
        Err(m) => Err(CheckErr::Mismatch(m)),
    }
}

/// The key that the table will hand out next.
pub open spec fn next_id(t: TypyV) -> TypeID<Type> {
    TypeID(t.len() as u32, PhantomData)
}

/// Every binding of the environment names a key of the table.
pub open spec fn env_valid(t: TypyV, env: Seq<(String, TypeID<Type>)>) -> bool {
    forall|i: int| 0 <= i < env.len() ==> t.valid(#[trigger] env[i].1.0)
}

/// Two environments bind the same names, in the same order, to type
/// variables of the same classes.
pub open spec fn env_alike(t: TypyV, e1: Seq<(String, TypeID<Type>)>, e2: Seq<(String, TypeID<Type>)>) -> bool {
    &&& e1.len() == e2.len()
    &&& forall|i: int|
        0 <= i < e1.len() ==> (#[trigger] e1[i]).0@ == e2[i].0@ && t.same(e1[i].1.0, e2[i].1.0)
}

/// The scoping pass: each function gets a fresh type variable for its
/// parameter and a function type from it to its body's type; each variable
/// is unified with the parameter that binds it; a variable that nothing
/// binds is an error.
pub open spec fn spec_vars(t: TypyV, e: Expression, env: Seq<(String, TypeID<Type>)>) -> (
    Result<(), CheckErr>,
    TypyV,
)
    decreases e,
{
    match *e.expr {
        Expr::Number(_) => (Ok(()), t),
        Expr::Add(a, b) => {
            let (r1, t1) = spec_vars(t, a, env);
            match r1 {
                Err(x) => (Err(x), t1),
                Ok(_) => spec_vars(t1, b, env),
            }
        },
        Expr::Application(a, b) => {
            let (r1, t1) = spec_vars(t, a, env);
            match r1 {
                Err(x) => (Err(x), t1),
                Ok(_) => spec_vars(t1, b, env),
            }
        },
        Expr::Function(x, body) => {
            let var = next_id(t);
            let t1 = t.push(Ty::Unknown);
            let (r2, t2) = spec_set(t1, e.span, e.ty.0, Type::Function(var, body.ty));
            match r2 {
                Err(m) => (Err(CheckErr::Mismatch(m)), t2),
                Ok(_) => spec_vars(t2, body, env.push((x, var))),
            }
        },
        Expr::Variable(x) => match lookup(env, x@) {
            Some(id) => {
                let (r, t1) = spec_eq(t, e.span, id.0, e.ty.0);
                (lift(r), t1)
            },
            None => (Err(CheckErr::Undefined(x, e.span)), t),
        },
    }
}

/// What the scoping pass establishes: variables are bound, and have the
/// type of their binder's parameter; functions have a function type whose
/// result is their body's type.
pub open spec fn vars_ok(t: TypyV, e: Expression, env: Seq<(String, TypeID<Type>)>) -> bool
    decreases e,
{
    match *e.expr {
        Expr::Number(_) => true,
        Expr::Variable(x) => match lookup(env, x@) {
            Some(v) => t.same(v.0, e.ty.0),
            None => false,
        },
        Expr::Function(x, body) => match t.get(e.ty.0) {
            Some(Type::Function(p, q)) => t.same(q.0, body.ty.0) && vars_ok(t, body, env.push((x, p))),
            _ => false,
        },
        Expr::Application(a, b) => vars_ok(t, a, env) && vars_ok(t, b, env),
        Expr::Add(a, b) => vars_ok(t, a, env) && vars_ok(t, b, env),
    }
}

/// The rule of one node: a function gets a function type if it has none,
/// an addition unifies its operands and itself, an application gives its
/// function part the type from its argument to itself.
pub open spec fn spec_rule(t: TypyV, e: Expression) -> (Result<(), Mismatch>, TypyV) {
    match *e.expr {
        Expr::Function(_, body) => match t.get(e.ty.0) {
            Some(Type::Function(_, _)) => (Ok(()), t),
            _ => {
                let input = next_id(t);
                spec_set(t.push(Ty::Unknown), e.span, e.ty.0, Type::Function(input, body.ty))
            },
        },
        Expr::Add(a, b) => {
            let (r1, t1) = spec_eq(t, b.span, a.ty.0, b.ty.0);
            match r1 {
                Err(m) => (Err(m), t1),
                Ok(_) => spec_eq(t1, a.span, a.ty.0, e.ty.0),
            }
        },
        Expr::Application(a, b) => spec_set(t, e.span, a.ty.0, Type::Function(b.ty, e.ty)),
        _ => (Ok(()), t),
    }
}

/// The rules applied to every node, parents before children, left to right.
pub open spec fn spec_rules(t: TypyV, e: Expression) -> (Result<(), Mismatch>, TypyV)
    decreases e,
{
    let (r0, t0) = spec_rule(t, e);
    match r0 {
        Err(m) => (Err(m), t0),
        Ok(_) => match *e.expr {
            Expr::Function(_, body) => spec_rules(t0, body),
            Expr::Add(a, b) => {
                let (r1, t1) = spec_rules(t0, a);
                match r1 {
                    Err(m) => (Err(m), t1),
                    Ok(_) => spec_rules(t1, b),
                }
            },
            Expr::Application(a, b) => {
                let (r1, t1) = spec_rules(t0, a);
                match r1 {
                    Err(m) => (Err(m), t1),
                    Ok(_) => spec_rules(t1, b),
                }
            },
            _ => (Ok(()), t0),
        },
    }
}

/// What the rule of one node establishes.
pub open spec fn local_ok(t: TypyV, e: Expression) -> bool {
    match *e.expr {
        Expr::Function(_, _) => match t.get(e.ty.0) {
            Some(Type::Function(_, _)) => true,
            _ => false,
        },
        Expr::Add(a, b) => t.same(a.ty.0, b.ty.0) && t.same(a.ty.0, e.ty.0),
        Expr::Application(a, b) => match t.get(a.ty.0) {
            Some(Type::Function(p, q)) => t.same(p.0, b.ty.0) && t.same(q.0, e.ty.0),
            _ => false,
        },
        _ => true,
    }
}

/// What the rules establish, at every node.
pub open spec fn rules_ok(t: TypyV, e: Expression) -> bool
    decreases e,
{
    local_ok(t, e) && match *e.expr {
        Expr::Function(_, body) => rules_ok(t, body),
        Expr::Add(a, b) => rules_ok(t, a) && rules_ok(t, b),
        Expr::Application(a, b) => rules_ok(t, a) && rules_ok(t, b),
        _ => true,
    }
}

/// Type checking: the scoping pass, then the rules.
pub open spec fn spec_type_chk(t: TypyV, e: Expression) -> (Result<(), CheckErr>, TypyV) {
    let (r1, t1) = spec_vars(t, e, seq![]);
    match r1 {
        Err(x) => (Err(x), t1),
        Ok(_) => {
            let (r2, t2) = spec_rules(t1, e);
            (lift(r2), t2)
        },
    }
}

// ---------------------------------------------------------------------------
/// The type variables of an expression stay keys of a table that grows.
pub proof fn lemma_ids_valid_mono(t1: TypyV, t2: TypyV, e: Expression)
    requires
        ids_valid(t1, e),
        t1.len() <= t2.len(),
    ensures
        ids_valid(t2, e),
    decreases e,
{
    match *e.expr {
        Expr::Function(_, body) => lemma_ids_valid_mono(t1, t2, body),
        Expr::Application(a, b) => {
            lemma_ids_valid_mono(t1, t2, a);
            lemma_ids_valid_mono(t1, t2, b);
        },
        Expr::Add(a, b) => {
            lemma_ids_valid_mono(t1, t2, a);
            lemma_ids_valid_mono(t1, t2, b);
        },
        _ => {},
    }
}

proof fn lemma_lookup_alike(t: TypyV, e1: Seq<(String, TypeID<Type>)>, e2: Seq<(String, TypeID<Type>)>, name: Seq<char>)
    requires
        env_alike(t, e1, e2),
    ensures
        lookup(e1, name) is Some <==> lookup(e2, name) is Some,
        lookup(e1, name) is Some ==> t.same((lookup(e1, name)->0).0, (lookup(e2, name)->0).0),
    decreases e1.len(),
{
    if e1.len() > 0 {
        assert(e1.last() == e1[e1.len() - 1]);
        let d1 = e1.drop_last();
        let d2 = e2.drop_last();
        assert forall|i: int| 0 <= i < d1.len() implies (#[trigger] d1[i]).0@ == d2[i].0@ && t.same(
            d1[i].1.0,
            d2[i].1.0,
        ) by {
            assert(d1[i] == e1[i]);
            assert(d2[i] == e2[i]);
        }
        lemma_lookup_alike(t, d1, d2, name);
    }
}

proof fn lemma_lookup_valid(t: TypyV, env: Seq<(String, TypeID<Type>)>, name: Seq<char>)
    requires
        env_valid(t, env),
    ensures
        lookup(env, name) matches Some(v) ==> t.valid(v.0),
    decreases env.len(),
{
    if env.len() > 0 {
        assert(t.valid(env[env.len() - 1].1.0));
        let d = env.drop_last();
        assert forall|i: int| 0 <= i < d.len() implies t.valid(#[trigger] d[i].1.0) by {
            assert(d[i] == env[i]);
        }
        lemma_lookup_valid(t, d, name);
    }
}

proof fn lemma_env_alike_refl(t: TypyV, env: Seq<(String, TypeID<Type>)>)
    ensures
        env_alike(t, env, env),
{
}

/// `vars_ok` survives refinement of the table, with an alike environment.
proof fn lemma_vars_ok_mono(
    t1: TypyV,
    t2: TypyV,
    e: Expression,
    env1: Seq<(String, TypeID<Type>)>,
    env2: Seq<(String, TypeID<Type>)>,
)
    requires
        t1.wf(),
        t2.wf(),
        refines(t1, t2),
        ids_valid(t1, e),
        env_valid(t1, env1),
        env_valid(t2, env2),
        env_alike(t2, env1, env2),
        vars_ok(t1, e, env1),
    ensures
        vars_ok(t2, e, env2),
    decreases e,
{
    match *e.expr {
        Expr::Variable(x) => {
            lemma_lookup_alike(t2, env1, env2, x@);
            lemma_lookup_valid(t1, env1, x@);
            let v1 = lookup(env1, x@)->0;
            assert(t1.same(v1.0, e.ty.0));
            assert(t2.same(v1.0, e.ty.0));
        },
        Expr::Function(x, body) => {
            let (p, q) = match t1.get(e.ty.0) {
                Some(Type::Function(p, q)) => (p, q),
                _ => { return; },
            };
            assert(t1.get(e.ty.0) is Some);
            assert(t1.ty_valid(t1.values[t1.rep[e.ty.0 as int] as int]));
            let (p2, q2) = match t2.get(e.ty.0) {
                Some(Type::Function(p2, q2)) => (p2, q2),
                _ => { return; },
            };
            assert(t2.get(e.ty.0) is Some);
            assert(t2.ty_valid(t2.values[t2.rep[e.ty.0 as int] as int]));
            assert(t1.valid(e.ty.0));
            assert(ids_valid(t1, body));
            assert(t1.valid(body.ty.0));
            assert(t1.type_valid(Type::Function(p, q)));
            assert(t2.same(p.0, p2.0));
            assert(t2.same(q.0, q2.0));
            assert(t1.same(q.0, body.ty.0));
            assert(t2.same(q.0, body.ty.0));
            assert(t2.type_valid(Type::Function(p2, q2)));
            let n1 = env1.push((x, p));
            let n2 = env2.push((x, p2));
            assert forall|i: int| 0 <= i < n1.len() implies t1.valid(#[trigger] n1[i].1.0) by {
                if i < env1.len() {
                    assert(n1[i] == env1[i]);
                }
            }
            assert forall|i: int| 0 <= i < n2.len() implies t2.valid(#[trigger] n2[i].1.0) by {
                if i < env2.len() {
                    assert(n2[i] == env2[i]);
                    assert(t2.valid(env2[i].1.0));
                } else {
                    assert(n2[i] == (x, p2));
                    assert(t2.valid(p2.0));
                }
            }
            assert forall|i: int| 0 <= i < n1.len() implies (#[trigger] n1[i]).0@ == n2[i].0@ && t2.same(
                n1[i].1.0,
                n2[i].1.0,
            ) by {
                if i < env1.len() {
                    assert(n1[i] == env1[i]);
                    assert(n2[i] == env2[i]);
                }
            }
            lemma_vars_ok_mono(t1, t2, body, n1, n2);
        },
        Expr::Application(a, b) => {
            lemma_vars_ok_mono(t1, t2, a, env1, env2);
            lemma_vars_ok_mono(t1, t2, b, env1, env2);
        },
        Expr::Add(a, b) => {
            lemma_vars_ok_mono(t1, t2, a, env1, env2);
            lemma_vars_ok_mono(t1, t2, b, env1, env2);
        },
        _ => {},
    }
}

proof fn lemma_local_ok_mono(t1: TypyV, t2: TypyV, e: Expression)
    requires
        t1.wf(),
        t2.wf(),
        refines(t1, t2),
        ids_valid(t1, e),
        local_ok(t1, e),
    ensures
        local_ok(t2, e),
{
    assert(t1.valid(e.ty.0));
    match *e.expr {
        Expr::Function(_, body) => {
            assert(t1.get(e.ty.0) is Some);
            assert(t2.get(e.ty.0) is Some);
            assert(t2.equiv(t1.get(e.ty.0)->0, t2.get(e.ty.0)->0));
            assert(t1.get(e.ty.0)->0 is Function);
            assert(t2.get(e.ty.0)->0 is Function);
        },
        Expr::Application(a, b) => {
            assert(ids_valid(t1, a));
            assert(ids_valid(t1, b));
            assert(t1.valid(a.ty.0));
            assert(t1.valid(b.ty.0));
            assert(t1.get(a.ty.0) is Some);
            assert(t1.ty_valid(t1.values[t1.rep[a.ty.0 as int] as int]));
            assert(t2.ty_valid(t2.values[t2.rep[a.ty.0 as int] as int]));
            if let Some(Type::Function(p, q)) = t1.get(a.ty.0) {
                assert(t1.type_valid(Type::Function(p, q)));
                assert(t2.same(p.0, b.ty.0));
                assert(t2.same(q.0, e.ty.0));
                assert(t2.get(a.ty.0) is Some);
            }
        },
        Expr::Add(a, b) => {
            assert(ids_valid(t1, a));
            assert(ids_valid(t1, b));
            assert(t1.valid(a.ty.0));
            assert(t1.valid(b.ty.0));
            assert(t2.same(a.ty.0, b.ty.0));
            assert(t2.same(a.ty.0, e.ty.0));
        },
        _ => {},
    }
}

/// `rules_ok` survives refinement of the table.
proof fn lemma_rules_ok_mono(t1: TypyV, t2: TypyV, e: Expression)
    requires
        t1.wf(),
        t2.wf(),
        refines(t1, t2),
        ids_valid(t1, e),
        rules_ok(t1, e),
    ensures
        rules_ok(t2, e),
    decreases e,
{
    lemma_local_ok_mono(t1, t2, e);
    match *e.expr {
        Expr::Function(_, body) => {
            lemma_rules_ok_mono(t1, t2, body);
        },
        Expr::Application(a, b) => {
            lemma_rules_ok_mono(t1, t2, a);
            lemma_rules_ok_mono(t1, t2, b);
        },
        Expr::Add(a, b) => {
            lemma_rules_ok_mono(t1, t2, a);
            lemma_rules_ok_mono(t1, t2, b);
        },
        _ => {},
    }
}

/// Number literals stay numbers when the table is refined.
pub proof fn lemma_numbers_known_mono(t1: TypyV, t2: TypyV, e: Expression)
    requires
        refines(t1, t2),
        ids_valid(t1, e),
        numbers_known(t1, e),
    ensures
        numbers_known(t2, e),
    decreases e,
{
    match *e.expr {
        Expr::Number(_) => {
            assert(t1.get(e.ty.0) is Some);
        },
        Expr::Function(_, body) => lemma_numbers_known_mono(t1, t2, body),
        Expr::Application(a, b) => {
            lemma_numbers_known_mono(t1, t2, a);
            lemma_numbers_known_mono(t1, t2, b);
        },
        Expr::Add(a, b) => {
            lemma_numbers_known_mono(t1, t2, a);
            lemma_numbers_known_mono(t1, t2, b);
        },
        _ => {},
    }
}

proof fn lemma_typed_of(t: TypyV, e: Expression, env: Seq<(String, TypeID<Type>)>)
    requires
        vars_ok(t, e, env),
        rules_ok(t, e),
        numbers_known(t, e),
    ensures
        typed(t, e, env),
    decreases e,
{
    match *e.expr {
        Expr::Function(x, body) => {
            match t.get(e.ty.0) {
                Some(Type::Function(p, q)) => lemma_typed_of(t, body, env.push((x, p))),
                _ => {},
            }
        },
        Expr::Application(a, b) => {
            lemma_typed_of(t, a, env);
            lemma_typed_of(t, b, env);
        },
        Expr::Add(a, b) => {
            lemma_typed_of(t, a, env);
            lemma_typed_of(t, b, env);
        },
        _ => {},
    }
}

// ---------------------------------------------------------------------------
/// The variables in scope, each bound to the type variable of its
/// parameter; an inner binding hides an outer one of the same name.
pub struct Namespace {
    pub variables: Vec<(String, TypeID<Type>)>,
}

impl Namespace {
    /// A scope inside `parent` (or a first scope): it sees what the parent binds.
    pub fn new(parent: Option<&Namespace>) -> (r: Namespace)
        ensures
            r.variables@ == (match parent {
                Some(p) => p.variables@,
                None => Seq::empty(),
            }),
    {
        let mut variables: Vec<(String, TypeID<Type>)> = Vec::new();
        match parent {
            Some(p) => {
                let mut i: usize = 0;
                while i < p.variables.len()
                    invariant
                        i <= p.variables@.len(),
                        variables@ == p.variables@.subrange(0, i as int),
                    decreases p.variables@.len() - i,
                {
                    let name = p.variables[i].0.clone();
                    variables.push((name, p.variables[i].1));
                    i += 1;
                    assert(variables@ =~= p.variables@.subrange(0, i as int));
                }
                assert(p.variables@.subrange(0, p.variables@.len() as int) =~= p.variables@);
            },
            None => {},
        }
        Namespace { variables }
    }

    /// Binds a name in this scope.
    pub fn insert(&mut self, name: String, id: TypeID<Type>)
        ensures
            final(self).variables@ == old(self).variables@.push((name, id)),
    {
        self.variables.push((name, id));
    }

    /// The type variable that the innermost binding of `s` stands for.
    pub fn get(&self, s: &String) -> (r: Option<TypeID<Type>>)
        ensures
            r == lookup(self.variables@, s@),
    {
        let mut i = self.variables.len();
        assert(self.variables@.subrange(0, i as int) =~= self.variables@);
        while i > 0
            invariant
                i <= self.variables@.len(),
                lookup(self.variables@, s@) == lookup(self.variables@.subrange(0, i as int), s@),
            decreases i,
        {
            let ghost sub = self.variables@.subrange(0, i as int);
            assert(sub.last() == self.variables@[i - 1]);
            if self.variables[i - 1].0 == *s {
                return Some(self.variables[i - 1].1);
            }
            assert(sub.drop_last() =~= self.variables@.subrange(0, i - 1));
            i -= 1;
        }
        assert(self.variables@.subrange(0, 0) =~= Seq::<(String, TypeID<Type>)>::empty());
        None
    }
}

#[verifier::rlimit(60)]
fn visit(expression: &Expression, typy: &mut Typy, namespace: Namespace) -> (r: Result<(), Diag>)
    requires
        old(typy)@.wf(),
        ids_valid(old(typy)@, *expression),
        env_valid(old(typy)@, namespace.variables@),
        old(typy)@.len() + size(*expression) <= u32::MAX,
    ensures
        check_reports(r, spec_vars(old(typy)@, *expression, namespace.variables@).0),
        final(typy)@ == spec_vars(old(typy)@, *expression, namespace.variables@).1,
        final(typy)@.wf(),
        merges(old(typy)@, final(typy)@),
        final(typy)@.len() <= old(typy)@.len() + size(*expression),
        r is Ok ==> refines(old(typy)@, final(typy)@) && vars_ok(
            final(typy)@,
            *expression,
            namespace.variables@,
        ),
    decreases expression,
{
    let ghost t = typy@;
    let ghost env = namespace.variables@;
    match &*expression.expr {
        Expr::Number(_) => {
            proof {
                lemma_refines_refl(t);
            }
            Ok(())
        },
        Expr::Add(a, b) | Expr::Application(a, b) => {
            visit(a, typy, Namespace::new(Some(&namespace)))?;
            let ghost t1 = typy@;
            proof {
                lemma_ids_valid_mono(t, t1, *b);
                assert(env_valid(t1, env));
            }
            visit(b, typy, Namespace::new(Some(&namespace)))?;
            proof {
                let t2 = typy@;
                lemma_refines_trans(t, t1, t2);
                lemma_ids_valid_mono(t, t1, *a);
                lemma_env_alike_refl(t2, env);
                lemma_vars_ok_mono(t1, t2, *a, env, env);
            }
            Ok(())
        },
        Expr::Function(ident, body) => {
            let var = typy.unknown();
            let ghost t1 = typy@;
            let mut namespace = namespace;
            namespace.insert(ident.clone(), var);
            proof {
                lemma_ids_valid_mono(t, t1, *expression);
                assert(ids_valid(t1, *body));
                assert(t1.valid(body.ty.0));
            }
            typy.set(copy_span(&expression.span), expression, Type::Function(var, body.ty))?;
            let ghost t2 = typy@;
            proof {
                lemma_ids_valid_mono(t, t2, *body);
                let n = namespace.variables@;
                assert forall|i: int| 0 <= i < n.len() implies t2.valid(#[trigger] n[i].1.0) by {
                    if i < env.len() {
                        assert(n[i] == env[i]);
                        assert(t.valid(env[i].1.0));
                    } else {
                        assert(n[i].1 == var);
                    }
                }
            }
            visit(body, typy, namespace)?;
            proof {
                let t3 = typy@;
                lemma_refines_trans(t, t1, t2);
                lemma_refines_trans(t, t2, t3);
                let z = t2.get(expression.ty.0)->0;
                assert(t2.get(expression.ty.0) is Some);
                assert(t2.ty_valid(t2.values[t2.rep[expression.ty.0 as int] as int]));
                assert(t3.ty_valid(t3.values[t3.rep[expression.ty.0 as int] as int]));
                assert(t3.get(expression.ty.0) is Some);
                if let Type::Function(p, q) = z {
                    if let Type::Function(p3, q3) = t3.get(expression.ty.0)->0 {
                        assert(t3.same(p.0, p3.0));
                        assert(t2.same(p.0, var.0));
                        assert(t3.same(p.0, var.0));
                        assert(t3.same(q.0, body.ty.0));
                        let n1 = env.push((*ident, var));
                        let n2 = env.push((*ident, p3));
                        assert(namespace.variables@ == n1) by {
                            assert(namespace.variables@ =~= n1);
                        }
                        assert forall|i: int| 0 <= i < n1.len() implies t3.valid(#[trigger] n1[i].1.0) by {
                            if i < env.len() {
                                assert(n1[i] == env[i]);
                                assert(t.valid(env[i].1.0));
                            } else {
                                assert(n1[i] == (*ident, var));
                            }
                        }
                        assert forall|i: int| 0 <= i < n2.len() implies t3.valid(#[trigger] n2[i].1.0) by {
                            if i < env.len() {
                                assert(n2[i] == env[i]);
                                assert(t.valid(env[i].1.0));
                            } else {
                                assert(n2[i] == (*ident, p3));
                                assert(t3.type_valid(Type::Function(p3, q3)));
                            }
                        }
                        assert forall|i: int| 0 <= i < n1.len() implies (#[trigger] n1[i]).0@ == n2[i].0@
                            && t3.same(n1[i].1.0, n2[i].1.0) by {
                            if i < env.len() {
                                assert(n1[i] == env[i]);
                                assert(n2[i] == env[i]);
                            }
                        }
                        lemma_refines_refl(t3);
                        lemma_ids_valid_mono(t, t3, *body);
                        lemma_vars_ok_mono(t3, t3, *body, n1, n2);
                    }
                }
            }
            Ok(())
        },
        Expr::Variable(x) => {
            match namespace.get(x) {
                Some(type_id) => {
                    proof {
                        lemma_lookup_valid(t, env, x@);
                    }
                    typy.eq(copy_span(&expression.span), &type_id, expression)
                },
                None => Err(Diag::UndefinedVariable { name: x.clone(), span: copy_span(&expression.span) }),
            }
        },
    }
}

/// The scoping pass over a whole expression: functions get function types
/// from a fresh parameter type, variables the type of their parameter; a
/// variable that nothing binds is an error.
pub fn variables(expression: &Expression, typy: &mut Typy) -> (r: Result<(), Diag>)
    requires
        old(typy)@.wf(),
        ids_valid(old(typy)@, *expression),
        old(typy)@.len() + size(*expression) <= u32::MAX,
    ensures
        check_reports(r, spec_vars(old(typy)@, *expression, seq![]).0),
        final(typy)@ == spec_vars(old(typy)@, *expression, seq![]).1,
        final(typy)@.wf(),
        merges(old(typy)@, final(typy)@),
        final(typy)@.len() <= old(typy)@.len() + size(*expression),
        r is Ok ==> refines(old(typy)@, final(typy)@) && vars_ok(final(typy)@, *expression, seq![]),
{
    let parent = Namespace::new(None);
    assert(parent.variables@ =~= seq![]);
    visit(expression, typy, parent)
}

/// The rule of one node.
fn rule(expression: &Expression, typy: &mut Typy) -> (r: Result<(), Diag>)
    requires
        old(typy)@.wf(),
        ids_valid(old(typy)@, *expression),
        old(typy)@.len() < u32::MAX,
    ensures
        check_reports(r, lift(spec_rule(old(typy)@, *expression).0)),
        final(typy)@ == spec_rule(old(typy)@, *expression).1,
        final(typy)@.wf(),
        merges(old(typy)@, final(typy)@),
        final(typy)@.len() <= old(typy)@.len() + 1,
        r is Ok ==> refines(old(typy)@, final(typy)@) && local_ok(final(typy)@, *expression),
{
    let ghost t = typy@;
    proof {
        assert(t.valid(expression.ty.0));
    }
    match &*expression.expr {
        Expr::Function(_, body) => {
            match typy.get(expression) {
                Some(Type::Function(_, _)) => {
                    proof {
                        lemma_refines_refl(t);
                    }
                    Ok(())
                },
                _ => {
                    let input = typy.unknown();
                    proof {
                        lemma_ids_valid_mono(t, typy@, *expression);
                        assert(ids_valid(typy@, *body));
                    }
                    let r = typy.set(copy_span(&expression.span), expression, Type::Function(input, body.ty));
                    proof {
                        if r is Ok {
                            lemma_refines_trans(t, t.push(Ty::Unknown), typy@);
                        }
                    }
                    r
                },
            }
        },
        Expr::Add(a, b) => {
            proof {
                assert(ids_valid(t, *a));
                assert(ids_valid(t, *b));
            }
            typy.eq(copy_span(&b.span), a, b)?;
            let ghost t1 = typy@;
            let r = typy.eq(copy_span(&a.span), a, expression);
            proof {
                if r is Ok {
                    lemma_refines_trans(t, t1, typy@);
                    assert(typy@.same(a.ty.0, b.ty.0));
                }
            }
            r
        },
        Expr::Application(a, b) => {
            proof {
                assert(ids_valid(t, *a));
                assert(ids_valid(t, *b));
            }
            let r = typy.set(copy_span(&expression.span), a, Type::Function(b.ty, expression.ty));
            proof {
                if r is Ok {
                    assert(typy@.get(a.ty.0) is Some);
                }
            }
            r
        },
        _ => {
            proof {
                lemma_refines_refl(t);
            }
            Ok(())
        },
    }
}

/// The rules applied to every node of `a`, then, if that succeeds, of `b`.
pub open spec fn spec_rules_pair(t: TypyV, a: Expression, b: Expression) -> (Result<(), Mismatch>, TypyV) {
    let (r1, t1) = spec_rules(t, a);
    match r1 {
        Err(m) => (Err(m), t1),
        Ok(_) => spec_rules(t1, b),
    }
}

fn apply_rules(expression: &Expression, typy: &mut Typy) -> (r: Result<(), Diag>)
    requires
        old(typy)@.wf(),
        ids_valid(old(typy)@, *expression),
        old(typy)@.len() + size(*expression) <= u32::MAX,
    ensures
        check_reports(r, lift(spec_rules(old(typy)@, *expression).0)),
        final(typy)@ == spec_rules(old(typy)@, *expression).1,
        final(typy)@.wf(),
        merges(old(typy)@, final(typy)@),
        final(typy)@.len() <= old(typy)@.len() + size(*expression),
        r is Ok ==> refines(old(typy)@, final(typy)@) && rules_ok(final(typy)@, *expression),
    decreases size(*expression), 1nat,
{
    let ghost t = typy@;
    rule(expression, typy)?;
    let ghost t0 = typy@;
    proof {
        lemma_ids_valid_mono(t, t0, *expression);
    }
    match &*expression.expr {
        Expr::Function(_, body) => {
            apply_rules(body, typy)?;
            proof {
                lemma_refines_trans(t, t0, typy@);
                lemma_local_ok_mono(t0, typy@, *expression);
            }
            Ok(())
        },
        Expr::Add(a, b) | Expr::Application(a, b) => {
            apply_pair(a, b, typy)?;
            proof {
                lemma_refines_trans(t, t0, typy@);
                lemma_local_ok_mono(t0, typy@, *expression);
            }
            Ok(())
        },
        _ => Ok(()),
    }
}

/// Applies the rules to `a`, then to `b`.
fn apply_pair(a: &Expression, b: &Expression, typy: &mut Typy) -> (r: Result<(), Diag>)
    requires
        old(typy)@.wf(),
        ids_valid(old(typy)@, *a),
        ids_valid(old(typy)@, *b),
        old(typy)@.len() + size(*a) + size(*b) <= u32::MAX,
    ensures
        check_reports(r, lift(spec_rules_pair(old(typy)@, *a, *b).0)),
        final(typy)@ == spec_rules_pair(old(typy)@, *a, *b).1,
        final(typy)@.wf(),
        merges(old(typy)@, final(typy)@),
        final(typy)@.len() <= old(typy)@.len() + size(*a) + size(*b),
        r is Ok ==> refines(old(typy)@, final(typy)@) && rules_ok(final(typy)@, *a) && rules_ok(
            final(typy)@,
            *b,
        ),
    decreases size(*a) + size(*b), 2nat,
{
    let ghost t0 = typy@;
    apply_rules(a, typy)?;
    let ghost t1 = typy@;
    proof {
        lemma_ids_valid_mono(t0, t1, *a);
        lemma_ids_valid_mono(t0, t1, *b);
    }
    apply_rules(b, typy)?;
    proof {
        let t2 = typy@;
        lemma_refines_trans(t0, t1, t2);
        lemma_rules_ok_mono(t1, t2, *a);
    }
    Ok(())
}

impl Typy {
    /// Applies the typing rules to every node of an expression, parents
    /// before children, left to right, stopping at the first error.
    pub fn apply(&mut self, v: &Expression) -> (r: Result<(), Diag>)
        requires
            old(self)@.wf(),
            ids_valid(old(self)@, *v),
            old(self)@.len() + size(*v) <= u32::MAX,
        ensures
            check_reports(r, lift(spec_rules(old(self)@, *v).0)),
            final(self)@ == spec_rules(old(self)@, *v).1,
            final(self)@.wf(),
            merges(old(self)@, final(self)@),
            r is Ok ==> refines(old(self)@, final(self)@) && rules_ok(final(self)@, *v),
    {
        apply_rules(v, self)
    }
}

/// Type checks an expression: the scoping pass, then the typing rules.
/// When it succeeds and the table knew the number literals to be numbers,
/// the typing rules hold of every node in the final table.
pub fn type_chk(expression: &Expression, typy: &mut Typy) -> (r: Result<(), Diag>)
    requires
        old(typy)@.wf(),
        ids_valid(old(typy)@, *expression),
        old(typy)@.len() + 2 * size(*expression) <= u32::MAX,
    ensures
        check_reports(r, spec_type_chk(old(typy)@, *expression).0),
        final(typy)@ == spec_type_chk(old(typy)@, *expression).1,
        final(typy)@.wf(),
        r is Ok ==> refines(old(typy)@, final(typy)@) && vars_ok(final(typy)@, *expression, seq![])
            && rules_ok(final(typy)@, *expression),
        r is Ok && numbers_known(old(typy)@, *expression) ==> typed(final(typy)@, *expression, seq![]),
{
    let ghost t = typy@;
    variables(expression, typy)?;
    let ghost t1 = typy@;
    proof {
        lemma_ids_valid_mono(t, t1, *expression);
    }
    let r = typy.apply(expression);
    proof {
        if r is Ok {
            let t2 = typy@;
            lemma_refines_trans(t, t1, t2);
            lemma_env_alike_refl(t2, seq![]);
            lemma_vars_ok_mono(t1, t2, *expression, seq![], seq![]);
            if numbers_known(t, *expression) {
                lemma_numbers_known_mono(t, t2, *expression);
                lemma_typed_of(t2, *expression, seq![]);
            }
        }
    }
    r
}

} // verus!
