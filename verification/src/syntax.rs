use std::ops::Range;
use vstd::prelude::*;

use crate::types::Type;
use crate::typy::{TypeID, Typed, TypyV};

verus! {

/// An expression: its shape, its type variable, and where it stands in the source.
#[derive(Debug, PartialEq)]
pub struct Expression {
    pub expr: Box<Expr>,
    pub ty: TypeID<Type>,
    pub span: Range<usize>,
}

/// The shapes of expressions. A number keeps the digits it was written with.
#[derive(Debug, PartialEq)]
pub enum Expr {
    Number(String),
    Variable(String),
    Function(String, Expression),
    Application(Expression, Expression),
    Add(Expression, Expression),
}

impl Clone for Expression {
    fn clone(&self) -> (r: Self)
        ensures
            r == *self,
        decreases self,
    {
        let e: &Expr = &self.expr;
        Expression {
            expr: Box::new(e.clone()),
            ty: self.ty,
            span: Range { start: self.span.start, end: self.span.end },
        }
    }
}

impl Clone for Expr {
    fn clone(&self) -> (r: Self)
        ensures
            r == *self,
        decreases self,
    {
        match self {
            Expr::Number(d) => Expr::Number(d.clone()),
            Expr::Variable(x) => Expr::Variable(x.clone()),
            Expr::Function(x, body) => Expr::Function(x.clone(), body.clone()),
            Expr::Application(a, b) => Expr::Application(a.clone(), b.clone()),
            Expr::Add(a, b) => Expr::Add(a.clone(), b.clone()),
        }
    }
}

impl Typed<Type> for Expression {
    type Match = Expr;

    open spec fn type_id_spec(&self) -> TypeID<Type> {
        self.ty
    }

    open spec fn match_spec(&self) -> Expr {
        *self.expr
    }

    fn get_match(&self) -> (r: &Expr) {
        &self.expr
    }

    fn type_id(&self) -> (r: TypeID<Type>) {
        self.ty
    }
}

/// The number of nodes of an expression.
pub open spec fn size(e: Expression) -> nat
    decreases e,
{
    1 + match *e.expr {
        Expr::Number(_) => 0,
        Expr::Variable(_) => 0,
        Expr::Function(_, body) => size(body),
        Expr::Application(a, b) => size(a) + size(b),
        Expr::Add(a, b) => size(a) + size(b),
    }
}

/// Every type variable of the expression is a key of the table.
pub open spec fn ids_valid(t: TypyV, e: Expression) -> bool
    decreases e,
{
    t.valid(e.ty.0) && match *e.expr {
        Expr::Number(_) => true,
        Expr::Variable(_) => true,
        Expr::Function(_, body) => ids_valid(t, body),
        Expr::Application(a, b) => ids_valid(t, a) && ids_valid(t, b),
        Expr::Add(a, b) => ids_valid(t, a) && ids_valid(t, b),
    }
}

/// The table knows every number literal of the expression to be a number.
pub open spec fn numbers_known(t: TypyV, e: Expression) -> bool
    decreases e,
{
    match *e.expr {
        Expr::Number(_) => t.get(e.ty.0) == Some(Type::Number),
        Expr::Variable(_) => true,
        Expr::Function(_, body) => numbers_known(t, body),
        Expr::Application(a, b) => numbers_known(t, a) && numbers_known(t, b),
        Expr::Add(a, b) => numbers_known(t, a) && numbers_known(t, b),
    }
}

/// The innermost binding of a name in an environment (later bindings are inner).
pub open spec fn lookup(env: Seq<(String, TypeID<Type>)>, name: Seq<char>) -> Option<TypeID<Type>>
    decreases env.len(),
{
    if env.len() == 0 {
        None
    } else if env.last().0@ == name {
        Some(env.last().1)
    } else {
        lookup(env.drop_last(), name)
    }
}

/// The typing rules of the language hold of `e` in table `t`, where `env`
/// binds the variables in scope to the type variables of their parameters:
/// a number has type number; a variable has the type of its binder's
/// parameter; a function `x.body` has a function type whose result is the
/// type of `body`, with `x` bound to its argument; an application `a b` has
/// the result type of `a`, whose argument type is that of `b`; an addition
/// `a + b` has the type of `a`, which is that of `b`.
pub open spec fn typed(t: TypyV, e: Expression, env: Seq<(String, TypeID<Type>)>) -> bool
    decreases e,
{
    match *e.expr {
        Expr::Number(_) => t.get(e.ty.0) == Some(Type::Number),
        Expr::Variable(x) => match lookup(env, x@) {
            Some(v) => t.same(v.0, e.ty.0),
            None => false,
        },
        Expr::Function(x, body) => match t.get(e.ty.0) {
            Some(Type::Function(p, q)) => t.same(q.0, body.ty.0) && typed(t, body, env.push((x, p))),
            _ => false,
        },
        Expr::Application(a, b) => match t.get(a.ty.0) {
            Some(Type::Function(p, q)) => t.same(p.0, b.ty.0) && t.same(q.0, e.ty.0) && typed(t, a, env)
                && typed(t, b, env),
            _ => false,
        },
        Expr::Add(a, b) => t.same(a.ty.0, b.ty.0) && t.same(a.ty.0, e.ty.0) && typed(t, a, env) && typed(
            t,
            b,
            env,
        ),
    }
}

} // verus!
