use std::marker::PhantomData;
use std::ops::Range;
use vstd::prelude::*;

use crate::table::{
    entries_view, table_clone, table_entries, table_find, table_len, table_new, table_new_key, table_probe,
    table_union, table_union_value, Table,
};
use crate::diag::{Diag, Expected, Found};
use crate::types::{type_text, Type};

verus! {

/// A key of the unification table: the index of a type variable.
#[derive(Debug, PartialEq, Eq, PartialOrd, Ord, Hash)]
pub struct TypeID<T>(pub u32, pub PhantomData<T>);

impl<T> Clone for TypeID<T> {
    fn clone(&self) -> (r: Self)
        ensures
            r == *self,
    {
        TypeID(self.0, PhantomData)
    }
}

impl<T> Copy for TypeID<T> {
}

impl<T> TypeID<T> {
    /// The key with the given index.
    pub fn from_index(u: u32) -> (r: Self)
        ensures
            r.0 == u,
    {
        TypeID(u, PhantomData)
    }

    /// The index of this key.
    pub fn index(&self) -> (r: u32)
        ensures
            r == self.0,
    {
        self.0
    }
}

/// A value that has a type variable, and a shape that rules can match on.
pub trait Typed<T> {
    type Match;

    spec fn type_id_spec(&self) -> TypeID<T>;

    spec fn match_spec(&self) -> Self::Match;

    fn get_match(&self) -> (r: &Self::Match)
        ensures
            *r == self.match_spec(),
    ;

    fn type_id(&self) -> (r: TypeID<T>)
        ensures
            r == self.type_id_spec(),
    ;
}

impl<T> Typed<T> for TypeID<T> {
    type Match = ();

    open spec fn type_id_spec(&self) -> TypeID<T> {
        *self
    }

    open spec fn match_spec(&self) -> () {
        ()
    }

    fn get_match(&self) -> (r: &()) {
        &()
    }

    fn type_id(&self) -> (r: TypeID<T>) {
        *self
    }
}

/// What the table knows of a class of type variables: nothing yet, a type
/// that was given, or a type that was settled by unification.
#[derive(Debug, Clone, Copy, PartialEq)]
pub enum Ty<T> {
    Type(T),
    Unknown,
    Settled(T),
}

pub open spec fn unify_values_spec<T>(a: Ty<T>, b: Ty<T>) -> Ty<T> {
    match (a, b) {
        (Ty::Unknown, x) => x,
        (x, Ty::Unknown) => x,
        (Ty::Settled(x), _) => Ty::Settled(x),
        (Ty::Type(x), _) => Ty::Settled(x),
    }
}

pub open spec fn ty_inner<T>(v: Ty<T>) -> Option<T> {
    match v {
        Ty::Type(t) => Some(t),
        Ty::Settled(t) => Some(t),
        Ty::Unknown => None,
    }
}

impl<T: Copy> Ty<T> {
    /// Merges the values of two classes that are joined: an unknown value
    /// gives way to the other; of two known values the first one stays, settled.
    pub fn unify_values(value1: &Self, value2: &Self) -> (r: Self)
        ensures
            r == unify_values_spec(*value1, *value2),
    {
        match (value1, value2) {
            (Ty::Unknown, a) => *a,
            (a, Ty::Unknown) => *a,
            (Ty::Settled(a), _) => Ty::Settled(*a),
            (Ty::Type(a), _) => Ty::Settled(*a),
        }
    }
}

/// The number of roots among the first `k` keys.
pub open spec fn count_roots(rep: Seq<u32>, k: nat) -> nat
    decreases k,
{
    if k == 0 {
        0
    } else {
        count_roots(rep, (k - 1) as nat) + if rep[k - 1] == (k - 1) {
            1nat
        } else {
            0nat
        }
    }
}

/// The mathematical model of the unification table: for each key its root
/// (the representative of its class), its rank, and its value (which counts
/// for roots only).
pub struct TypyV {
    pub rep: Seq<u32>,
    pub rank: Seq<u32>,
    pub values: Seq<Ty<Type>>,
}

impl TypyV {
    /// The table with no type variable.
    pub open spec fn empty() -> TypyV {
        TypyV { rep: seq![], rank: seq![], values: seq![] }
    }

    pub open spec fn len(self) -> nat {
        self.rep.len()
    }

    pub open spec fn valid(self, id: u32) -> bool {
        (id as nat) < self.len()
    }

    pub open spec fn root(self, id: u32) -> u32 {
        self.rep[id as int]
    }

    /// Two keys are in the same class.
    pub open spec fn same(self, a: u32, b: u32) -> bool {
        self.rep[a as int] == self.rep[b as int]
    }

    /// The value of the class of a key.
    pub open spec fn value(self, id: u32) -> Ty<Type> {
        self.values[self.rep[id as int] as int]
    }

    /// The type known for the class of a key, if any.
    pub open spec fn get(self, id: u32) -> Option<Type> {
        ty_inner(self.value(id))
    }

    pub open spec fn type_valid(self, t: Type) -> bool {
        match t {
            Type::Number => true,
            Type::Function(a, b) => self.valid(a.0) && self.valid(b.0),
        }
    }

    pub open spec fn ty_valid(self, v: Ty<Type>) -> bool {
        match ty_inner(v) {
            Some(t) => self.type_valid(t),
            None => true,
        }
    }

    /// The number of classes.
    pub open spec fn count(self) -> nat {
        count_roots(self.rep, self.len())
    }

    pub open spec fn wf(self) -> bool {
        &&& self.rank.len() == self.len()
        &&& self.values.len() == self.len()
        &&& self.len() <= u32::MAX
        &&& forall|i: int|
            #![trigger self.rep[i]]
            0 <= i < self.len() ==> (self.rep[i] as nat) < self.len() && self.rep[self.rep[i] as int]
                == self.rep[i]
        &&& forall|i: int| 0 <= i < self.len() ==> self.ty_valid(#[trigger] self.values[i])
        &&& forall|i: int|
            #![trigger self.rank[i]]
            0 <= i < self.len() && self.rep[i] == i ==> self.rank[i] + self.count() <= self.len()
    }

    /// The table with one more key, in a class of its own, with value `v`.
    pub open spec fn push(self, v: Ty<Type>) -> TypyV {
        TypyV {
            rep: self.rep.push(self.len() as u32),
            rank: self.rank.push(0),
            values: self.values.push(v),
        }
    }

    /// Which root stays a root when the classes of roots `ra` and `rb` are
    /// joined, which one is redirected, and the rank of the new root.
    pub open spec fn union_choice(self, ra: u32, rb: u32) -> (u32, u32, u32) {
        let rank_a = self.rank[ra as int];
        let rank_b = self.rank[rb as int];
        if rank_a > rank_b {
            (ra, rb, rank_a)
        } else if rank_a < rank_b {
            (rb, ra, rank_b)
        } else {
            (rb, ra, (rank_a + 1) as u32)
        }
    }

    /// The table where the classes of roots `ra` and `rb` are joined, with value `v`.
    pub open spec fn union_roots(self, ra: u32, rb: u32, v: Ty<Type>) -> TypyV {
        let (new_root, old_root, new_rank) = self.union_choice(ra, rb);
        TypyV {
            rep: self.rep.map_values(|r: u32| if r == old_root { new_root } else { r }),
            rank: self.rank.update(new_root as int, new_rank),
            values: self.values.update(new_root as int, v),
        }
    }

    /// The table where the class of `id` has value `v`.
    pub open spec fn set_value(self, id: u32, v: Ty<Type>) -> TypyV {
        TypyV { rep: self.rep, rank: self.rank, values: self.values.update(self.root(id) as int, v) }
    }

    /// Two types are alike in this table: both numbers, or both functions
    /// whose arguments and results are in the same classes.
    pub open spec fn equiv(self, x: Type, y: Type) -> bool {
        match (x, y) {
            (Type::Number, Type::Number) => true,
            (Type::Function(a, b), Type::Function(c, d)) => self.same(a.0, c.0) && self.same(
                b.0,
                d.0,
            ),
            _ => false,
        }
    }
}

/// `t2` keeps every key of `t1` and joins at least the classes that `t1` joins.
pub open spec fn merges(t1: TypyV, t2: TypyV) -> bool {
    &&& t1.len() <= t2.len()
    &&& forall|i: u32, j: u32|
        t1.valid(i) && t1.valid(j) && t1.same(i, j) ==> #[trigger] t2.same(i, j)
}

/// `t2` merges `t1`, and every type that `t1` knows for a key is still known
/// for it in `t2`, alike to what `t2` knows.
pub open spec fn refines(t1: TypyV, t2: TypyV) -> bool {
    &&& merges(t1, t2)
    &&& forall|i: u32|
        t1.valid(i) && #[trigger] t1.get(i) is Some ==> t2.get(i) is Some && t2.equiv(
            t1.get(i)->0,
            t2.get(i)->0,
        )
}

/// A type mismatch found by unification: what was expected and what was
/// found, each with its rendering, and where.
pub struct Mismatch {
    pub expected: Type,
    pub found: Type,
    pub expected_text: Seq<char>,
    pub found_text: Seq<char>,
    pub span: Range<usize>,
}

/// `d` is the diagnostic that reports `m`.
pub open spec fn reports(d: Diag, m: Mismatch) -> bool {
    match d {
        Diag::ExpectedFound {
            expected: Expected::Type(s1, t1),
            found: Found::Type(s2, t2),
            span,
        } => s1@ == m.expected_text && t1 == m.expected && s2@ == m.found_text && t2 == m.found
            && span == m.span,
        _ => false,
    }
}

pub open spec fn result_matches<T>(r: Result<T, Diag>, s: Result<T, Mismatch>) -> bool {
    match (r, s) {
        (Ok(a), Ok(b)) => a == b,
        (Err(d), Err(m)) => reports(d, m),
        _ => false,
    }
}

/// The bound on the depth of a unification. A unification nests one level
/// for each pair of argument or result types that it unifies; no run of it
/// comes near this many levels, which no machine's stack could hold.
pub const UNIFY_DEPTH: u64 = 0xffff_ffff_ffff_ffff;

/// The mismatch of the types `x` and `y`, with their renderings in `t`.
pub open spec fn mismatch(t: TypyV, span: Range<usize>, x: Type, y: Type) -> Mismatch {
    Mismatch { expected: x, found: y, expected_text: type_text(t, x), found_text: type_text(t, y), span }
}

/// The classes of `a` and `b` joined, as the table joins two keys (with the
/// two classes' values combined), and then `value` merged into the value of
/// the joined class.
pub open spec fn join(t: TypyV, a: u32, b: u32, value: Ty<Type>) -> TypyV {
    let ra = t.root(a);
    let rb = t.root(b);
    let t1 = if ra == rb {
        t
    } else {
        t.union_roots(ra, rb, unify_values_spec(t.values[ra as int], t.values[rb as int]))
    };
    t1.set_value(a, unify_values_spec(t1.value(a), value))
}

/// Unification of the classes of `a` and `b`: where both classes have a
/// type, the two types are unified first, their arguments and results in
/// turn; the classes are joined only when that succeeds. A unification
/// nested more than `depth` levels is reported as a mismatch.
pub open spec fn spec_eq_depth(t: TypyV, span: Range<usize>, a: u32, b: u32, depth: nat) -> (
    Result<(), Mismatch>,
    TypyV,
)
    decreases depth, 0nat,
{
    if !(t.wf() && t.valid(a) && t.valid(b)) {
        (Ok(()), t)
    } else {
        let ra = t.root(a);
        let rb = t.root(b);
        if ra == rb {
            (Ok(()), t)
        } else {
            let av = t.values[ra as int];
            let bv = t.values[rb as int];
            match (ty_inner(av), ty_inner(bv)) {
                (Some(x), Some(y)) => if depth == 0 {
                    (Err(mismatch(t, span, x, y)), t)
                } else {
                    let (r, t1) = spec_unify_depth(t, span, x, y, (depth - 1) as nat);
                    match r {
                        Err(m) => (Err(m), t1),
                        Ok(ty) => (Ok(()), join(t1, ra, rb, Ty::Settled(ty))),
                    }
                },
                _ => (
                    Ok(()),
                    join(
                        t,
                        ra,
                        rb,
                        if av is Unknown {
                            bv
                        } else {
                            av
                        },
                    ),
                ),
            }
        }
    }
}

/// Unification of two types: numbers agree with numbers, functions with
/// functions whose arguments and results unify; anything else is a mismatch.
pub open spec fn spec_unify_depth(t: TypyV, span: Range<usize>, x: Type, y: Type, depth: nat) -> (
    Result<Type, Mismatch>,
    TypyV,
)
    decreases depth, 1nat,
{
    if !(t.wf() && t.type_valid(x) && t.type_valid(y)) {
        (Ok(x), t)
    } else {
        match (x, y) {
            (Type::Number, Type::Number) => (Ok(Type::Number), t),
            (Type::Function(a, b), Type::Function(c, d)) => {
                let (r1, t1) = spec_eq_depth(t, span, a.0, c.0, depth);
                match r1 {
                    Err(m) => (Err(m), t1),
                    Ok(_) => {
                        let (r2, t2) = spec_eq_depth(t1, span, b.0, d.0, depth);
                        match r2 {
                            Err(m) => (Err(m), t2),
                            Ok(_) => (Ok(x), t2),
                        }
                    },
                }
            },
            _ => (Err(mismatch(t, span, x, y)), t),
        }
    }
}

/// The classes of `a` and `b` have the same type, compared through their
/// components down to `n` levels: they are one class, or both have a type
/// and the two types have the same shape.
pub open spec fn same_type(t: TypyV, a: u32, b: u32, n: nat) -> bool
    decreases n, 1nat,
{
    t.same(a, b) || match (t.get(a), t.get(b)) {
        (Some(x), Some(y)) => same_shape(t, x, y, n),
        _ => false,
    }
}

/// Two types have the same shape down to `n` levels: both numbers, or both
/// function types whose arguments and results have the same type down to
/// `n - 1` levels.
pub open spec fn same_shape(t: TypyV, x: Type, y: Type, n: nat) -> bool
    decreases n, 0nat,
{
    match (x, y) {
        (Type::Number, Type::Number) => true,
        (Type::Function(a, b), Type::Function(c, d)) => n > 0 && same_type(t, a.0, c.0, (n - 1) as nat)
            && same_type(t, b.0, d.0, (n - 1) as nat),
        _ => false,
    }
}

/// Whether two classes have the same type depends on their roots only.
proof fn lemma_same_type_roots(t: TypyV, a: u32, a2: u32, b: u32, b2: u32, n: nat)
    requires
        t.wf(),
        t.valid(a),
        t.valid(a2),
        t.valid(b),
        t.valid(b2),
        t.same(a, a2),
        t.same(b, b2),
    ensures
        same_type(t, a, b, n) == same_type(t, a2, b2, n),
{
}

/// Having the same type survives what unification does to a table: classes
/// joined, known types kept alike.
proof fn lemma_same_type_refines(t: TypyV, t2: TypyV, a: u32, b: u32, n: nat)
    requires
        t.wf(),
        t2.wf(),
        t.valid(a),
        t.valid(b),
        refines(t, t2),
        same_type(t, a, b, n),
    ensures
        same_type(t2, a, b, n),
    decreases n,
{
    if !t.same(a, b) {
        let x = t.get(a)->0;
        let y = t.get(b)->0;
        let x2 = t2.get(a)->0;
        let y2 = t2.get(b)->0;
        assert(t2.equiv(x, x2));
        assert(t2.equiv(y, y2));
        assert(t.ty_valid(t.values[t.rep[a as int] as int]));
        assert(t.ty_valid(t.values[t.rep[b as int] as int]));
        assert(t2.ty_valid(t2.values[t2.rep[a as int] as int]));
        assert(t2.ty_valid(t2.values[t2.rep[b as int] as int]));
        match (x, y) {
            (Type::Function(p, q), Type::Function(r, u)) => {
                let (p2, q2) = match x2 {
                    Type::Function(p2, q2) => (p2, q2),
                    _ => (p, q),
                };
                let (r2, u2) = match y2 {
                    Type::Function(r2, u2) => (r2, u2),
                    _ => (r, u),
                };
                lemma_same_type_refines(t, t2, p.0, r.0, (n - 1) as nat);
                lemma_same_type_refines(t, t2, q.0, u.0, (n - 1) as nat);
                lemma_same_type_roots(t2, p.0, p2.0, r.0, r2.0, (n - 1) as nat);
                lemma_same_type_roots(t2, q.0, q2.0, u.0, u2.0, (n - 1) as nat);
            },
            _ => {},
        }
    }
}

/// Unifying two classes of the same type, down to fewer levels than the
/// depth allowed, succeeds.
proof fn lemma_eq_complete(t: TypyV, span: Range<usize>, a: u32, b: u32, n: nat, depth: nat)
    requires
        t.wf(),
        t.valid(a),
        t.valid(b),
        same_type(t, a, b, n),
        n < depth,
    ensures
        spec_eq_depth(t, span, a, b, depth).0 is Ok,
    decreases n, 1nat,
{
    if !t.same(a, b) {
        let ra = t.root(a);
        let rb = t.root(b);
        assert(t.ty_valid(t.values[ra as int]));
        assert(t.ty_valid(t.values[rb as int]));
        let x = t.get(a)->0;
        let y = t.get(b)->0;
        lemma_unify_complete(t, span, x, y, n, (depth - 1) as nat);
    }
}

/// Unifying two types of the same shape, down to no more levels than the
/// depth allowed, succeeds.
proof fn lemma_unify_complete(t: TypyV, span: Range<usize>, x: Type, y: Type, n: nat, depth: nat)
    requires
        t.wf(),
        t.type_valid(x),
        t.type_valid(y),
        same_shape(t, x, y, n),
        n <= depth,
    ensures
        spec_unify_depth(t, span, x, y, depth).0 is Ok,
    decreases n, 0nat,
{
    if let (Type::Function(a, b), Type::Function(c, d)) = (x, y) {
        lemma_eq_complete(t, span, a.0, c.0, (n - 1) as nat, depth);
        lemma_eq(t, span, a.0, c.0, depth);
        let t1 = spec_eq_depth(t, span, a.0, c.0, depth).1;
        lemma_same_type_refines(t, t1, b.0, d.0, (n - 1) as nat);
        lemma_eq_complete(t1, span, b.0, d.0, (n - 1) as nat, depth);
    }
}

/// Completeness of unification: two classes whose types are the same,
/// compared through their components, are unified without a mismatch, and
/// so are two types of the same shape; a mismatch comes only from types that
/// differ somewhere (a number against a function type).
pub proof fn lemma_unification_complete(t: TypyV, span: Range<usize>, a: u32, b: u32, x: Type, y: Type, n: nat)
    requires
        t.wf(),
        t.valid(a),
        t.valid(b),
        t.type_valid(x),
        t.type_valid(y),
        n < UNIFY_DEPTH,
    ensures
        same_type(t, a, b, n) ==> spec_eq(t, span, a, b).0 is Ok,
        same_shape(t, x, y, n) ==> spec_unify(t, span, x, y).0 is Ok,
{
    if same_type(t, a, b, n) {
        lemma_eq_complete(t, span, a, b, n, UNIFY_DEPTH as nat);
    }
    if same_shape(t, x, y, n) {
        lemma_unify_complete(t, span, x, y, n, UNIFY_DEPTH as nat);
    }
}

/// Unification of the classes of `a` and `b` (see [`spec_eq_depth`]).
pub open spec fn spec_eq(t: TypyV, span: Range<usize>, a: u32, b: u32) -> (Result<(), Mismatch>, TypyV) {
    spec_eq_depth(t, span, a, b, UNIFY_DEPTH as nat)
}

/// Unification of two types (see [`spec_unify_depth`]).
pub open spec fn spec_unify(t: TypyV, span: Range<usize>, x: Type, y: Type) -> (
    Result<Type, Mismatch>,
    TypyV,
) {
    spec_unify_depth(t, span, x, y, UNIFY_DEPTH as nat)
}

/// Giving the class of `var` the type `value`: an unknown class takes it,
/// a class with a type unifies it with `value`.
pub open spec fn spec_set(t: TypyV, span: Range<usize>, var: u32, value: Type) -> (
    Result<(), Mismatch>,
    TypyV,
) {
    if !(t.wf() && t.valid(var) && t.type_valid(value)) {
        (Ok(()), t)
    } else {
        let probe = t.value(var);
        if probe == Ty::Type(value) {
            (Ok(()), t)
        } else {
            match ty_inner(probe) {
                None => (Ok(()), t.set_value(var, unify_values_spec(probe, Ty::Type(value)))),
                Some(p) => {
                    let (r, t1) = spec_unify(t, span, p, value);
                    match r {
                        Err(m) => (Err(m), t1),
                        Ok(ty) => (
                            Ok(()),
                            t1.set_value(var, unify_values_spec(t1.value(var), Ty::Settled(ty))),
                        ),
                    }
                },
            }
        }
    }
}

// ---------------------------------------------------------------------------
// Lemmas on the number of classes
proof fn lemma_count_prefix(rep1: Seq<u32>, rep2: Seq<u32>, k: nat)
    requires
        k <= rep1.len(),
        k <= rep2.len(),
        forall|i: int| 0 <= i < k ==> rep1[i] == rep2[i],
    ensures
        count_roots(rep1, k) == count_roots(rep2, k),
    decreases k,
{
    if k > 0 {
        lemma_count_prefix(rep1, rep2, (k - 1) as nat);
    }
}

proof fn lemma_count_le(rep: Seq<u32>, k: nat)
    requires
        k <= rep.len(),
    ensures
        count_roots(rep, k) <= k,
    decreases k,
{
    if k > 0 {
        lemma_count_le(rep, (k - 1) as nat);
    }
}

proof fn lemma_count_pos(rep: Seq<u32>, k: nat, x: int)
    requires
        k <= rep.len(),
        0 <= x < k,
        rep[x] == x,
    ensures
        count_roots(rep, k) >= 1,
    decreases k,
{
    if x < k - 1 {
        lemma_count_pos(rep, (k - 1) as nat, x);
    }
}

proof fn lemma_count_relabel(rep: Seq<u32>, rep2: Seq<u32>, old_root: u32, new_root: u32, k: nat)
    requires
        k <= rep.len(),
        rep2.len() == rep.len(),
        old_root != new_root,
        (old_root as int) < rep.len(),
        (new_root as int) < rep.len(),
        rep[old_root as int] == old_root,
        rep[new_root as int] == new_root,
        forall|i: int|
            0 <= i < rep.len() ==> #[trigger] rep2[i] == if rep[i] == old_root {
                new_root
            } else {
                rep[i]
            },
    ensures
        count_roots(rep2, k) + (if (old_root as nat) < k {
            1nat
        } else {
            0nat
        }) == count_roots(rep, k),
    decreases k,
{
    if k > 0 {
        lemma_count_relabel(rep, rep2, old_root, new_root, (k - 1) as nat);
        let i = k - 1;
        assert(rep2[i] == i <==> (rep[i] == i && i != old_root));
    }
}

proof fn lemma_push(t: TypyV, v: Ty<Type>)
    requires
        t.wf(),
        t.len() < u32::MAX,
        t.ty_valid(v),
    ensures
        t.push(v).wf(),
        t.push(v).count() == t.count() + 1,
        merges(t, t.push(v)),
        refines(t, t.push(v)),
        forall|i: u32| t.valid(i) ==> #[trigger] t.push(v).root(i) == t.root(i),
        forall|i: u32| t.valid(i) ==> #[trigger] t.push(v).get(i) == t.get(i),
{
    let t2 = t.push(v);
    let n = t.len();
    lemma_count_prefix(t.rep, t2.rep, n);
    assert(t2.rep[n as int] == n);
    assert(t2.count() == count_roots(t2.rep, n) + 1);
    lemma_count_le(t.rep, n);
    assert forall|i: int|
        #![trigger t2.rep[i]]
        0 <= i < t2.len() implies (t2.rep[i] as nat) < t2.len() && t2.rep[t2.rep[i] as int]
        == t2.rep[i] by {
        if i < n {
            assert(t.rep[i] == t2.rep[i]);
            assert(t.rep[t.rep[i] as int] == t.rep[i]);
        }
    }
    assert forall|i: int|
        #![trigger t2.rank[i]]
        0 <= i < t2.len() && t2.rep[i] == i implies t2.rank[i] + t2.count() <= t2.len() by {
        if i < n {
            assert(t.rep[i] == i);
            assert(t.rank[i] + t.count() <= t.len());
        }
    }
    assert forall|i: int| 0 <= i < t2.len() implies t2.ty_valid(#[trigger] t2.values[i]) by {
        if i < n {
            assert(t.ty_valid(t.values[i]));
        }
    }
    assert forall|i: u32| t.valid(i) && #[trigger] t.get(i) is Some implies t2.get(i) is Some
        && t2.equiv(t.get(i)->0, t2.get(i)->0) by {
        assert(t2.get(i) == t.get(i));
    }
}

proof fn lemma_union(t: TypyV, ra: u32, rb: u32, v: Ty<Type>)
    requires
        t.wf(),
        t.valid(ra),
        t.valid(rb),
        t.root(ra) == ra,
        t.root(rb) == rb,
        ra != rb,
        t.ty_valid(v),
    ensures
        ({
            let t1 = t.union_roots(ra, rb, v);
            let (new_root, old_root, new_rank) = t.union_choice(ra, rb);
            &&& t1.wf()
            &&& t1.len() == t.len()
            &&& t1.count() + 1 == t.count()
            &&& merges(t, t1)
            &&& t1.same(ra, rb)
            &&& t1.root(ra) == new_root
            &&& t1.values[new_root as int] == v
            &&& forall|i: u32|
                t.valid(i) ==> #[trigger] t1.root(i) == if t.root(i) == old_root {
                    new_root
                } else {
                    t.root(i)
                }
            &&& forall|i: u32|
                t.valid(i) && t.root(i) != ra && t.root(i) != rb ==> #[trigger] t1.get(i) == t.get(i)
        }),
{
    let t1 = t.union_roots(ra, rb, v);
    let (new_root, old_root, new_rank) = t.union_choice(ra, rb);
    let n = t.len();
    assert forall|i: int| 0 <= i < n implies #[trigger] t1.rep[i] == if t.rep[i] == old_root {
        new_root
    } else {
        t.rep[i]
    } by {}
    lemma_count_relabel(t.rep, t1.rep, old_root, new_root, n);
    lemma_count_pos(t.rep, n, ra as int);
    assert(t.rank[ra as int] + t.count() <= n);
    assert(t.rank[rb as int] + t.count() <= n);
    assert forall|i: int| 0 <= i < n implies t1.ty_valid(#[trigger] t1.values[i]) by {
        if i != new_root {
            assert(t.ty_valid(t.values[i]));
        }
    }
    assert forall|i: int|
        #![trigger t1.rank[i]]
        0 <= i < n && t1.rep[i] == i implies t1.rank[i] + t1.count() <= n by {
        if i != new_root {
            assert(t.rep[i] == i);
        }
    }
    assert forall|i: u32, j: u32| t.valid(i) && t.valid(j) && t.same(i, j) implies #[trigger] t1.same(
        i,
        j,
    ) by {}
    assert forall|i: u32| t.valid(i) && t.root(i) != ra && t.root(i) != rb implies #[trigger] t1.get(
        i,
    ) == t.get(i) by {}
}

proof fn lemma_set_value(t: TypyV, id: u32, v: Ty<Type>)
    requires
        t.wf(),
        t.valid(id),
        t.ty_valid(v),
        ty_inner(v) == t.get(id),
    ensures
        t.set_value(id, v).wf(),
        t.set_value(id, v).count() == t.count(),
        t.set_value(id, v).len() == t.len(),
        refines(t, t.set_value(id, v)),
        refines(t.set_value(id, v), t),
        forall|i: u32| t.valid(i) ==> #[trigger] t.set_value(id, v).get(i) == t.get(i),
        forall|i: u32| t.valid(i) ==> #[trigger] t.set_value(id, v).root(i) == t.root(i),
{
    let t1 = t.set_value(id, v);
    assert(t1.rep == t.rep);
    assert forall|i: int| 0 <= i < t.len() implies t1.ty_valid(#[trigger] t1.values[i]) by {
        if i != t.root(id) {
            assert(t.ty_valid(t.values[i]));
        }
    }
    assert forall|i: u32| t.valid(i) implies #[trigger] t1.get(i) == t.get(i) by {
        if t.root(i) == t.root(id) {
        } else {
        }
    }
    assert forall|i: u32| t.valid(i) && #[trigger] t.get(i) is Some implies t1.get(i) is Some
        && t1.equiv(t.get(i)->0, t1.get(i)->0) by {
        assert(t1.get(i) == t.get(i));
    }
    assert forall|i: u32| t1.valid(i) && #[trigger] t1.get(i) is Some implies t.get(i) is Some
        && t.equiv(t1.get(i)->0, t.get(i)->0) by {
        assert(t1.get(i) == t.get(i));
    }
}

proof fn lemma_equiv_refl(t: TypyV, x: Type)
    ensures
        t.equiv(x, x),
{
}

proof fn lemma_merges_trans(t1: TypyV, t2: TypyV, t3: TypyV)
    requires
        merges(t1, t2),
        merges(t2, t3),
    ensures
        merges(t1, t3),
{
    assert forall|i: u32, j: u32| t1.valid(i) && t1.valid(j) && t1.same(i, j) implies #[trigger] t3.same(
        i,
        j,
    ) by {
        assert(t2.same(i, j));
    }
}

proof fn lemma_equiv_merges(t1: TypyV, t2: TypyV, x: Type, y: Type)
    requires
        merges(t1, t2),
        t1.type_valid(x),
        t1.type_valid(y),
        t1.equiv(x, y),
    ensures
        t2.equiv(x, y),
{
    match (x, y) {
        (Type::Function(a, b), Type::Function(c, d)) => {
            assert(t2.same(a.0, c.0));
            assert(t2.same(b.0, d.0));
        },
        _ => {},
    }
}

proof fn lemma_equiv_trans(t: TypyV, x: Type, y: Type, z: Type)
    requires
        t.equiv(x, y),
        t.equiv(y, z),
    ensures
        t.equiv(x, z),
        t.equiv(z, x),
{
}

/// A fresh key: of the type it was made with, or of none; every other key
/// keeps its class and its type.
pub proof fn lemma_fresh_key(t: TypyV, v: Ty<Type>)
    requires
        t.wf(),
        t.len() < u32::MAX,
        t.ty_valid(v),
    ensures
        t.push(v).get(t.len() as u32) == ty_inner(v),
        t.push(v).root(t.len() as u32) == t.len(),
        forall|i: u32| t.valid(i) ==> #[trigger] t.push(v).get(i) == t.get(i) && t.push(v).root(i) == t.root(i),
{
    lemma_push(t, v);
    assert(t.push(v).rep[t.len() as int] == t.len());
}

/// Every table refines itself.
pub proof fn lemma_refines_refl(t: TypyV)
    ensures
        refines(t, t),
{
    assert forall|i: u32| t.valid(i) && #[trigger] t.get(i) is Some implies t.get(i) is Some
        && t.equiv(t.get(i)->0, t.get(i)->0) by {
        lemma_equiv_refl(t, t.get(i)->0);
    }
}

/// Refinement is transitive.
pub proof fn lemma_refines_trans(t1: TypyV, t2: TypyV, t3: TypyV)
    requires
        t1.wf(),
        t2.wf(),
        refines(t1, t2),
        refines(t2, t3),
    ensures
        refines(t1, t3),
{
    lemma_merges_trans(t1, t2, t3);
    assert forall|i: u32| t1.valid(i) && #[trigger] t1.get(i) is Some implies t3.get(i) is Some
        && t3.equiv(t1.get(i)->0, t3.get(i)->0) by {
        let x = t1.get(i)->0;
        let y = t2.get(i)->0;
        let z = t3.get(i)->0;
        assert(t2.valid(i));
        assert(t2.get(i) is Some);
        assert(t1.ty_valid(t1.values[t1.rep[i as int] as int]));
        assert(t2.ty_valid(t2.values[t2.rep[i as int] as int]));
        lemma_equiv_merges(t2, t3, x, y);
        lemma_equiv_trans(t3, x, y, z);
    }
}

/// What joining two classes keeps: a well-formed table in which `a` and `b`
/// share a class; the classes of neither keep their types, the joined class
/// holds the type that combining the two classes' values gives.
proof fn lemma_join(t: TypyV, a: u32, b: u32, value: Ty<Type>)
    requires
        t.wf(),
        t.valid(a),
        t.valid(b),
        t.ty_valid(value),
        ({
            let c = if t.root(a) == t.root(b) {
                t.value(a)
            } else {
                unify_values_spec(t.values[t.root(a) as int], t.values[t.root(b) as int])
            };
            ty_inner(unify_values_spec(c, value)) == ty_inner(c)
        }),
    ensures
        ({
            let t2 = join(t, a, b, value);
            let c = if t.root(a) == t.root(b) {
                t.value(a)
            } else {
                unify_values_spec(t.values[t.root(a) as int], t.values[t.root(b) as int])
            };
            &&& t2.wf()
            &&& t2.len() == t.len()
            &&& merges(t, t2)
            &&& t2.same(a, b)
            &&& forall|i: u32|
                t.valid(i) && !t.same(i, a) && !t.same(i, b) ==> #[trigger] t2.get(i) == t.get(i)
            &&& forall|i: u32|
                t.valid(i) && (t.same(i, a) || t.same(i, b)) ==> #[trigger] t2.get(i) == ty_inner(c)
        }),
{
    let ra = t.root(a);
    let rb = t.root(b);
    assert(t.ty_valid(t.values[ra as int]));
    assert(t.ty_valid(t.values[rb as int]));
    if ra == rb {
        let nv = unify_values_spec(t.value(a), value);
        assert(t.ty_valid(nv));
        lemma_set_value(t, a, nv);
        assert forall|i: u32, j: u32| t.valid(i) && t.valid(j) && t.same(i, j) implies #[trigger] join(
            t,
            a,
            b,
            value,
        ).same(i, j) by {}
    } else {
        let c = unify_values_spec(t.values[ra as int], t.values[rb as int]);
        assert(t.ty_valid(c));
        lemma_union(t, ra, rb, c);
        let t1 = t.union_roots(ra, rb, c);
        let (new_root, old_root, new_rank) = t.union_choice(ra, rb);
        assert(t1.value(a) == c);
        let nv = unify_values_spec(t1.value(a), value);
        assert(t1.ty_valid(nv));
        lemma_set_value(t1, a, nv);
        let t2 = t1.set_value(a, nv);
        lemma_merges_trans(t, t1, t2);
        assert forall|i: u32| t.valid(i) && (t.same(i, a) || t.same(i, b)) implies #[trigger] t2.get(i)
            == ty_inner(c) by {
            assert(t1.root(i) == new_root);
        }
    }
}

/// Joining the classes of two types that unified keeps every known type
/// known and alike.
proof fn lemma_join_unified(t: TypyV, t1: TypyV, ra: u32, rb: u32, x: Type, y: Type)
    requires
        t.wf(),
        t1.wf(),
        t.valid(ra),
        t.valid(rb),
        t.get(ra) == Some(x),
        t.get(rb) == Some(y),
        t1.len() == t.len(),
        refines(t, t1),
        t1.equiv(x, y),
    ensures
        ({
            let t2 = join(t1, ra, rb, Ty::Settled(x));
            &&& t2.wf()
            &&& t2.len() == t.len()
            &&& merges(t, t2)
            &&& t2.same(ra, rb)
            &&& refines(t, t2)
        }),
{
    let x1 = t1.get(ra)->0;
    let y1 = t1.get(rb)->0;
    assert(t.ty_valid(t.values[t.rep[ra as int] as int]));
    assert(t.ty_valid(t.values[t.rep[rb as int] as int]));
    assert(t1.ty_valid(t1.values[t1.rep[ra as int] as int]));
    assert(t1.ty_valid(t1.values[t1.rep[rb as int] as int]));
    assert(t1.equiv(x, x1));
    assert(t1.equiv(y, y1));
    lemma_join(t1, ra, rb, Ty::Settled(x));
    let t2 = join(t1, ra, rb, Ty::Settled(x));
    lemma_merges_trans(t, t1, t2);
    assert forall|i: u32| t.valid(i) && #[trigger] t.get(i) is Some implies t2.get(i) is Some
        && t2.equiv(t.get(i)->0, t2.get(i)->0) by {
        let w = t.get(i)->0;
        let w1 = t1.get(i)->0;
        assert(t1.valid(i));
        assert(t1.equiv(w, w1));
        assert(t1.ty_valid(t1.values[t1.rep[i as int] as int]));
        assert(t.ty_valid(t.values[t.rep[i as int] as int]));
        if t1.same(i, ra) {
            assert(w1 == x1);
            lemma_equiv_merges(t1, t2, w, x1);
        } else if t1.same(i, rb) {
            assert(w1 == y1);
            lemma_equiv_trans(t1, y, x, x1);
            lemma_equiv_trans(t1, y1, y, x1);
            lemma_equiv_trans(t1, w, y1, x1);
            lemma_equiv_merges(t1, t2, w, x1);
        } else {
            lemma_equiv_merges(t1, t2, w, w1);
        }
    }
}

/// What `spec_eq_depth` keeps: a well-formed table, classes only joined;
/// on success, `a` and `b` in one class, every known type still known and
/// alike.
proof fn lemma_eq(t: TypyV, span: Range<usize>, a: u32, b: u32, depth: nat)
    requires
        t.wf(),
        t.valid(a),
        t.valid(b),
    ensures
        ({
            let (r, t2) = spec_eq_depth(t, span, a, b, depth);
            &&& t2.wf()
            &&& t2.len() == t.len()
            &&& merges(t, t2)
            &&& (r is Ok ==> t2.same(a, b) && refines(t, t2))
            &&& (t.same(a, b) ==> r is Ok && t2 == t)
            &&& (t.get(a) is None || t.get(b) is None ==> r is Ok && t2.get(a) == (if t.get(a) is None {
                t.get(b)
            } else {
                t.get(a)
            }))
        }),
    decreases depth, 0nat,
{
    let ra = t.root(a);
    let rb = t.root(b);
    if ra == rb {
        lemma_refines_refl(t);
        return;
    }
    let av = t.values[ra as int];
    let bv = t.values[rb as int];
    assert(t.ty_valid(av));
    assert(t.ty_valid(bv));
    assert(t.same(a, ra) && t.same(b, rb));
    match (ty_inner(av), ty_inner(bv)) {
        (Some(x), Some(y)) => {
            if depth == 0 {
                return;
            }
            lemma_unify(t, span, x, y, (depth - 1) as nat);
            let (r, t1) = spec_unify_depth(t, span, x, y, (depth - 1) as nat);
            if r is Ok {
                lemma_join_unified(t, t1, ra, rb, x, y);
                let t2 = join(t1, ra, rb, Ty::Settled(x));
                assert(t2.same(a, ra));
                assert(t2.same(b, rb));
            }
        },
        _ => {
            let v = if av is Unknown {
                bv
            } else {
                av
            };
            lemma_join(t, ra, rb, v);
            let t2 = join(t, ra, rb, v);
            assert(t.same(a, a));
            assert(t2.get(a) == ty_inner(unify_values_spec(av, bv)));
            assert(t2.same(a, ra));
            assert(t2.same(b, rb));
            assert forall|i: u32| t.valid(i) && #[trigger] t.get(i) is Some implies t2.get(i) is Some
                && t2.equiv(t.get(i)->0, t2.get(i)->0) by {
                lemma_equiv_refl(t2, t.get(i)->0);
            }
        },
    }
}

proof fn lemma_unify(t: TypyV, span: Range<usize>, x: Type, y: Type, depth: nat)
    requires
        t.wf(),
        t.type_valid(x),
        t.type_valid(y),
    ensures
        ({
            let (r, t2) = spec_unify_depth(t, span, x, y, depth);
            &&& t2.wf()
            &&& t2.len() == t.len()
            &&& merges(t, t2)
            &&& (r is Ok ==> r == Ok::<Type, Mismatch>(x) && t2.equiv(x, y) && refines(t, t2))
            &&& (x is Number && y is Number ==> r == Ok::<Type, Mismatch>(Type::Number) && t2 == t)
            &&& ((x is Number) != (y is Number) ==> r == Err::<Type, Mismatch>(mismatch(t, span, x, y))
                && t2 == t)
        }),
    decreases depth, 1nat,
{
    match (x, y) {
        (Type::Number, Type::Number) => {
            lemma_refines_refl(t);
        },
        (Type::Function(a, b), Type::Function(c, d)) => {
            lemma_eq(t, span, a.0, c.0, depth);
            let (r1, t1) = spec_eq_depth(t, span, a.0, c.0, depth);
            if r1 is Ok {
                lemma_eq(t1, span, b.0, d.0, depth);
                let (r2, t2) = spec_eq_depth(t1, span, b.0, d.0, depth);
                lemma_merges_trans(t, t1, t2);
                if r2 is Ok {
                    lemma_refines_trans(t, t1, t2);
                    assert(t2.same(a.0, c.0));
                }
            }
        },
        _ => {
            lemma_refines_refl(t);
        },
    }
}

#[verifier::rlimit(30)]
proof fn lemma_set(t: TypyV, span: Range<usize>, var: u32, value: Type)
    requires
        t.wf(),
        t.valid(var),
        t.type_valid(value),
    ensures
        ({
            let (r, t2) = spec_set(t, span, var, value);
            &&& t2.wf()
            &&& t2.len() == t.len()
            &&& merges(t, t2)
            &&& (r is Ok ==> refines(t, t2) && t2.get(var) is Some && t2.equiv(
                t2.get(var)->0,
                value,
            ))
            &&& (t.value(var) == Ty::Type(value) ==> r is Ok && t2 == t)
            &&& (t.get(var) is None ==> r is Ok && t2.get(var) == Some(value))
        }),
{
    let probe = t.value(var);
    assert(t.ty_valid(t.values[t.rep[var as int] as int]));
    if probe == Ty::Type(value) {
        lemma_refines_refl(t);
        lemma_equiv_refl(t, value);
        return;
    }
    match ty_inner(probe) {
        None => {
            let nv = unify_values_spec(probe, Ty::Type(value));
            let t2 = t.set_value(var, nv);
            assert(t2.rep == t.rep);
            assert forall|i: int| 0 <= i < t.len() implies t2.ty_valid(#[trigger] t2.values[i]) by {
                if i != t.root(var) {
                    assert(t.ty_valid(t.values[i]));
                }
            }
            assert forall|i: u32| t.valid(i) && #[trigger] t.get(i) is Some implies t2.get(i) is Some
                && t2.equiv(t.get(i)->0, t2.get(i)->0) by {
                assert(t.root(i) != t.root(var));
                assert(t2.get(i) == t.get(i));
                lemma_equiv_refl(t2, t.get(i)->0);
            }
            assert forall|i: u32, j: u32| t.valid(i) && t.valid(j) && t.same(i, j) implies #[trigger] t2.same(
                i,
                j,
            ) by {}
            lemma_equiv_refl(t2, value);
        },
        Some(p) => {
            lemma_unify(t, span, p, value, UNIFY_DEPTH as nat);
            let (r, t1) = spec_unify(t, span, p, value);
            if let Ok(ty) = r {
                assert(t.get(var) is Some);
                assert(t1.get(var) is Some);
                let cur = t1.value(var);
                assert(t1.ty_valid(t1.values[t1.rep[var as int] as int]));
                let nv = unify_values_spec(cur, Ty::Settled(ty));
                lemma_set_value(t1, var, nv);
                let t2 = t1.set_value(var, nv);
                lemma_merges_trans(t, t1, t2);
                lemma_refines_trans(t, t1, t2);
                let z = t2.get(var)->0;
                assert(t1.equiv(p, z));
                lemma_equiv_merges(t1, t2, p, value);
                lemma_equiv_trans(t2, z, p, value);
            }
        },
    }
}

// ---------------------------------------------------------------------------
/// A table of type variables, joined into classes by unification, each
/// class with what is known of its type.
pub struct Typy {
    table: Table,
}

impl View for Typy {
    type V = TypyV;

    closed spec fn view(&self) -> TypyV {
        entries_view(table_entries(self.table))
    }
}

/// Equality of two table values.
fn ty_eq(a: &Ty<Type>, b: &Ty<Type>) -> (r: bool)
    ensures
        r == (*a == *b),
{
    match (a, b) {
        (Ty::Unknown, Ty::Unknown) => true,
        (Ty::Type(x), Ty::Type(y)) => type_eq(x, y),
        (Ty::Settled(x), Ty::Settled(y)) => type_eq(x, y),
        _ => false,
    }
}

fn type_eq(a: &Type, b: &Type) -> (r: bool)
    ensures
        r == (*a == *b),
{
    match (a, b) {
        (Type::Number, Type::Number) => true,
        (Type::Function(p, q), Type::Function(u, v)) => p.0 == u.0 && q.0 == v.0,
        _ => false,
    }
}

impl Typy {
    /// An empty table.
    pub fn new() -> (r: Typy)
        ensures
            r@.wf(),
            r@.len() == 0,
            r@ == TypyV::empty(),
    {
        let r = Typy { table: table_new() };
        assert(r@.rep =~= seq![] && r@.rank =~= seq![] && r@.values =~= seq![]);
        r
    }

    /// The number of type variables in the table.
    pub fn len(&self) -> (r: usize)
        requires
            self@.wf(),
        ensures
            r == self@.len(),
    {
        table_len(&self.table)
    }

    fn find(&mut self, id: u32) -> (r: u32)
        requires
            old(self)@.wf(),
            old(self)@.valid(id),
        ensures
            final(self)@ == old(self)@,
            r == old(self)@.root(id),
            old(self)@.valid(r),
            old(self)@.root(r) == r,
    {
        proof {
            assert(self@.rep[id as int] == self@.root(id));
        }
        table_find(&mut self.table, id)
    }

    /// The value of the class of a key.
    fn value_of(&mut self, id: u32) -> (r: Ty<Type>)
        requires
            old(self)@.wf(),
            old(self)@.valid(id),
        ensures
            final(self)@ == old(self)@,
            r == old(self)@.value(id),
            old(self)@.ty_valid(r),
    {
        proof {
            assert(self@.ty_valid(self@.values[self@.rep[id as int] as int]));
        }
        table_probe(&mut self.table, id)
    }

    fn new_key(&mut self, value: Ty<Type>) -> (r: TypeID<Type>)
        requires
            old(self)@.wf(),
            old(self)@.len() < u32::MAX,
            old(self)@.ty_valid(value),
        ensures
            final(self)@ == old(self)@.push(value),
            final(self)@.wf(),
            r.0 == old(self)@.len(),
            refines(old(self)@, final(self)@),
    {
        proof {
            lemma_push(self@, value);
        }
        let k = table_new_key(&mut self.table, value);
        proof {
            let o = old(self)@;
            assert(self@.rep =~= o.rep.push(o.len() as u32));
            assert(self@.rank =~= o.rank.push(0));
            assert(self@.values =~= o.values.push(value));
        }
        k
    }

    /// A fresh type variable of which nothing is known.
    pub fn unknown(&mut self) -> (r: TypeID<Type>)
        requires
            old(self)@.wf(),
            old(self)@.len() < u32::MAX,
        ensures
            final(self)@ == old(self)@.push(Ty::Unknown),
            final(self)@.wf(),
            r.0 == old(self)@.len(),
            final(self)@.get(r.0) is None,
            refines(old(self)@, final(self)@),
    {
        self.new_key(Ty::Unknown)
    }

    /// A fresh type variable of type `t`.
    pub fn known(&mut self, t: Type) -> (r: TypeID<Type>)
        requires
            old(self)@.wf(),
            old(self)@.len() < u32::MAX,
            old(self)@.type_valid(t),
        ensures
            final(self)@ == old(self)@.push(Ty::Type(t)),
            final(self)@.wf(),
            r.0 == old(self)@.len(),
            final(self)@.get(r.0) == Some(t),
            refines(old(self)@, final(self)@),
    {
        self.new_key(Ty::Type(t))
    }

    /// The representative of the class of a value's type variable.
    pub fn root<V: Typed<Type>>(&mut self, t: &V) -> (r: TypeID<Type>)
        requires
            old(self)@.wf(),
            old(self)@.valid(t.type_id_spec().0),
        ensures
            final(self)@ == old(self)@,
            r.0 == old(self)@.root(t.type_id_spec().0),
            old(self)@.same(r.0, t.type_id_spec().0),
    {
        let id = t.type_id();
        TypeID(self.find(id.0), PhantomData)
    }

    /// The type known for a value's type variable, if any.
    pub fn get<V: Typed<Type>>(&mut self, var: &V) -> (r: Option<Type>)
        requires
            old(self)@.wf(),
            old(self)@.valid(var.type_id_spec().0),
        ensures
            final(self)@ == old(self)@,
            r == old(self)@.get(var.type_id_spec().0),
            r is None <==> old(self)@.value(var.type_id_spec().0) is Unknown,
            old(self)@.value(var.type_id_spec().0) matches Ty::Type(x) ==> r == Some(x),
            old(self)@.value(var.type_id_spec().0) matches Ty::Settled(x) ==> r == Some(x),
            r matches Some(t) ==> old(self)@.type_valid(t),
    {
        let id = var.type_id();
        self.probe(id.0)
    }

    /// The representative of the class of a key.
    pub(crate) fn root_of(&mut self, id: u32) -> (r: u32)
        requires
            old(self)@.wf(),
            old(self)@.valid(id),
        ensures
            final(self)@ == old(self)@,
            r == old(self)@.root(id),
            old(self)@.valid(r),
    {
        self.find(id)
    }

    /// The type known for the class of a key, if any.
    pub(crate) fn probe(&mut self, id: u32) -> (r: Option<Type>)
        requires
            old(self)@.wf(),
            old(self)@.valid(id),
        ensures
            final(self)@ == old(self)@,
            r == old(self)@.get(id),
            r matches Some(t) ==> old(self)@.type_valid(t),
    {
        match self.value_of(id) {
            Ty::Type(t) => Some(t),
            Ty::Settled(t) => Some(t),
            Ty::Unknown => None,
        }
    }

    /// Joins the classes of `a` and `b` and merges `value` into the value of
    /// the joined class.
    fn join(&mut self, a: u32, b: u32, value: Ty<Type>)
        requires
            old(self)@.wf(),
            old(self)@.valid(a),
            old(self)@.valid(b),
            old(self)@.ty_valid(value),
        ensures
            final(self)@ == join(old(self)@, a, b, value),
    {
        table_union(&mut self.table, a, b);
        table_union_value(&mut self.table, a, value);
    }

    fn eq_ids(&mut self, reason: &Range<usize>, a: u32, b: u32, depth: u64) -> (r: Result<(), Diag>)
        requires
            old(self)@.wf(),
            old(self)@.valid(a),
            old(self)@.valid(b),
        ensures
            result_matches(r, spec_eq_depth(old(self)@, *reason, a, b, depth as nat).0),
            final(self)@ == spec_eq_depth(old(self)@, *reason, a, b, depth as nat).1,
        decreases depth, 0nat,
    {
        proof {
            lemma_eq(self@, *reason, a, b, depth as nat);
        }
        let ghost t = self@;
        let ra = self.find(a);
        let rb = self.find(b);
        if ra == rb {
            return Ok(());
        }
        let av = self.value_of(ra);
        let bv = self.value_of(rb);
        match (av, bv) {
            (Ty::Type(x), Ty::Type(y)) | (Ty::Type(x), Ty::Settled(y)) | (Ty::Settled(x), Ty::Type(y)) | (
                Ty::Settled(x),
                Ty::Settled(y),
            ) => {
                if depth == 0 {
                    return Err(mismatch_diag(&x, &y, reason, self));
                }
                let ty = x.unify_depth(&y, reason, self, depth - 1)?;
                proof {
                    lemma_unify(t, *reason, x, y, (depth - 1) as nat);
                }
                self.join(ra, rb, Ty::Settled(ty));
                Ok(())
            },
            _ => {
                let v = match av {
                    Ty::Unknown => bv,
                    _ => av,
                };
                self.join(ra, rb, v);
                Ok(())
            },
        }
    }

    /// Unifies the type variables of `a` and `b`: where both classes have a
    /// type, the two types are unified first, their arguments and results in
    /// turn; then the classes are joined. A mismatch is reported at `reason`;
    /// the classes are then not joined, though what unifying their arguments
    /// joined stays joined.
    pub fn eq<A: Typed<Type>, B: Typed<Type>>(&mut self, reason: Range<usize>, a: &A, b: &B) -> (r:
        Result<(), Diag>)
        requires
            old(self)@.wf(),
            old(self)@.valid(a.type_id_spec().0),
            old(self)@.valid(b.type_id_spec().0),
        ensures
            result_matches(r, spec_eq(old(self)@, reason, a.type_id_spec().0, b.type_id_spec().0).0),
            final(self)@ == spec_eq(old(self)@, reason, a.type_id_spec().0, b.type_id_spec().0).1,
            final(self)@.wf(),
            final(self)@.len() == old(self)@.len(),
            merges(old(self)@, final(self)@),
            r is Ok ==> final(self)@.same(a.type_id_spec().0, b.type_id_spec().0) && refines(
                old(self)@,
                final(self)@,
            ),
            old(self)@.same(a.type_id_spec().0, b.type_id_spec().0) ==> r is Ok && final(self)@ == old(
                self,
            )@,
            r is Ok ==> final(self)@.get(a.type_id_spec().0) == final(self)@.get(b.type_id_spec().0),
            forall|n: nat|
                n < UNIFY_DEPTH && #[trigger] same_type(old(self)@, a.type_id_spec().0, b.type_id_spec().0, n)
                    ==> r is Ok,
            r is Ok && old(self)@.get(a.type_id_spec().0) is Some ==> final(self)@.get(
                a.type_id_spec().0,
            ) is Some && final(self)@.equiv(
                old(self)@.get(a.type_id_spec().0)->0,
                final(self)@.get(a.type_id_spec().0)->0,
            ),
            r is Ok && old(self)@.get(b.type_id_spec().0) is Some ==> final(self)@.get(
                a.type_id_spec().0,
            ) is Some && final(self)@.equiv(
                old(self)@.get(b.type_id_spec().0)->0,
                final(self)@.get(a.type_id_spec().0)->0,
            ),
            old(self)@.get(a.type_id_spec().0) is None || old(self)@.get(b.type_id_spec().0) is None
                ==> r is Ok && final(self)@.get(a.type_id_spec().0) == (if old(self)@.get(
                a.type_id_spec().0,
            ) is None {
                old(self)@.get(b.type_id_spec().0)
            } else {
                old(self)@.get(a.type_id_spec().0)
            }),
    {
        let a = a.type_id();
        let b = b.type_id();
        proof {
            lemma_eq(self@, reason, a.0, b.0, UNIFY_DEPTH as nat);
            assert forall|n: nat| n < UNIFY_DEPTH && #[trigger] same_type(self@, a.0, b.0, n) implies spec_eq(
                self@,
                reason,
                a.0,
                b.0,
            ).0 is Ok by {
                lemma_eq_complete(self@, reason, a.0, b.0, n, UNIFY_DEPTH as nat);
            }
        }
        self.eq_ids(&reason, a.0, b.0, UNIFY_DEPTH)
    }

    fn set_id(&mut self, reason: &Range<usize>, var: u32, value: Type) -> (r: Result<(), Diag>)
        requires
            old(self)@.wf(),
            old(self)@.valid(var),
            old(self)@.type_valid(value),
        ensures
            result_matches(r, spec_set(old(self)@, *reason, var, value).0),
            final(self)@ == spec_set(old(self)@, *reason, var, value).1,
    {
        let ghost t = self@;
        proof {
            lemma_set(t, *reason, var, value);
        }
        let probe = self.value_of(var);
        if ty_eq(&probe, &Ty::Type(value)) {
            return Ok(());
        }
        match probe {
            Ty::Unknown => {
                table_union_value(&mut self.table, var, Ty::Type(value));
                Ok(())
            },
            Ty::Type(p) | Ty::Settled(p) => {
                let ty = p.unify(&value, reason, self)?;
                proof {
                    lemma_unify(t, *reason, p, value, UNIFY_DEPTH as nat);
                }
                table_union_value(&mut self.table, var, Ty::Settled(ty));
                Ok(())
            },
        }
    }

    /// Gives the type variable of `var` the type `value`: an unknown class
    /// takes it, a class with a type unifies it with `value`. A mismatch is
    /// reported at `reason`.
    pub fn set<V: Typed<Type>>(&mut self, reason: Range<usize>, var: &V, value: Type) -> (r: Result<
        (),
        Diag,
    >)
        requires
            old(self)@.wf(),
            old(self)@.valid(var.type_id_spec().0),
            old(self)@.type_valid(value),
        ensures
            result_matches(r, spec_set(old(self)@, reason, var.type_id_spec().0, value).0),
            final(self)@ == spec_set(old(self)@, reason, var.type_id_spec().0, value).1,
            final(self)@.wf(),
            final(self)@.len() == old(self)@.len(),
            merges(old(self)@, final(self)@),
            r is Ok ==> refines(old(self)@, final(self)@) && final(self)@.get(
                var.type_id_spec().0,
            ) is Some && final(self)@.equiv(
                final(self)@.get(var.type_id_spec().0)->0,
                value,
            ),
            old(self)@.value(var.type_id_spec().0) == Ty::Type(value) ==> r is Ok && final(self)@ == old(
                self,
            )@,
            old(self)@.get(var.type_id_spec().0) is None ==> r is Ok && final(self)@.get(
                var.type_id_spec().0,
            ) == Some(value),
            r is Ok && old(self)@.get(var.type_id_spec().0) is Some ==> final(self)@.get(
                var.type_id_spec().0,
            ) is Some && final(self)@.equiv(
                old(self)@.get(var.type_id_spec().0)->0,
                final(self)@.get(var.type_id_spec().0)->0,
            ),
    {
        let id = var.type_id();
        proof {
            lemma_set(self@, reason, id.0, value);
        }
        self.set_id(&reason, id.0, value)
    }
}

impl Clone for Typy {
    fn clone(&self) -> (r: Self)
        ensures
            r@ == self@,
    {
        Typy { table: table_clone(&self.table) }
    }
}

impl Default for Typy {
    fn default() -> (r: Typy)
        ensures
            r@.wf(),
            r@ == TypyV::empty(),
    {
        Typy::new()
    }
}

/// The diagnostic of the mismatch of the types `x` and `y`.
fn mismatch_diag(x: &Type, y: &Type, span: &Range<usize>, typy: &mut Typy) -> (d: Diag)
    requires
        old(typy)@.wf(),
        old(typy)@.type_valid(*x),
        old(typy)@.type_valid(*y),
    ensures
        final(typy)@ == old(typy)@,
        reports(d, mismatch(old(typy)@, *span, *x, *y)),
{
    let expected_text = x.to_string(typy);
    let found_text = y.to_string(typy);
    Diag::ExpectedFound {
        expected: Expected::Type(expected_text, *x),
        found: Found::Type(found_text, *y),
        span: Range { start: span.start, end: span.end },
    }
}

impl Type {
    /// Unifies two types, the ones of the classes of two type variables that
    /// are being joined: numbers with numbers, functions with functions
    /// whose arguments and results are unified in turn; anything else is a
    /// mismatch, reported at `span`.
    pub fn unify(&self, other: &Self, span: &Range<usize>, typy: &mut Typy) -> (r: Result<Type, Diag>)
        requires
            old(typy)@.wf(),
            old(typy)@.type_valid(*self),
            old(typy)@.type_valid(*other),
        ensures
            result_matches(r, spec_unify(old(typy)@, *span, *self, *other).0),
            final(typy)@ == spec_unify(old(typy)@, *span, *self, *other).1,
            final(typy)@.wf(),
            final(typy)@.len() == old(typy)@.len(),
            merges(old(typy)@, final(typy)@),
            r is Ok ==> r == Ok::<Type, Diag>(*self) && final(typy)@.equiv(*self, *other) && refines(
                old(typy)@,
                final(typy)@,
            ),
            *self is Number && *other is Number ==> r == Ok::<Type, Diag>(Type::Number) && final(typy)@
                == old(typy)@,
            forall|n: nat|
                n <= UNIFY_DEPTH && #[trigger] same_shape(old(typy)@, *self, *other, n) ==> r == Ok::<
                    Type,
                    Diag,
                >(*self),
            (*self is Number) != (*other is Number) ==> r is Err && reports(
                r->Err_0,
                mismatch(old(typy)@, *span, *self, *other),
            ) && final(typy)@ == old(typy)@,
    {
        proof {
            lemma_unify(typy@, *span, *self, *other, UNIFY_DEPTH as nat);
            assert forall|n: nat| n <= UNIFY_DEPTH && #[trigger] same_shape(typy@, *self, *other, n) implies spec_unify(
                typy@,
                *span,
                *self,
                *other,
            ).0 is Ok by {
                lemma_unify_complete(typy@, *span, *self, *other, n, UNIFY_DEPTH as nat);
            }
        }
        self.unify_depth(other, span, typy, UNIFY_DEPTH)
    }

    fn unify_depth(&self, other: &Self, span: &Range<usize>, typy: &mut Typy, depth: u64) -> (r: Result<
        Type,
        Diag,
    >)
        requires
            old(typy)@.wf(),
            old(typy)@.type_valid(*self),
            old(typy)@.type_valid(*other),
        ensures
            result_matches(r, spec_unify_depth(old(typy)@, *span, *self, *other, depth as nat).0),
            final(typy)@ == spec_unify_depth(old(typy)@, *span, *self, *other, depth as nat).1,
        decreases depth, 1nat,
    {
        proof {
            lemma_unify(typy@, *span, *self, *other, depth as nat);
        }
        match (self, other) {
            (Type::Number, Type::Number) => Ok(Type::Number),
            (Type::Function(a, b), Type::Function(c, d)) => {
                let ghost t = typy@;
                typy.eq_ids(span, a.0, c.0, depth)?;
                proof {
                    lemma_eq(t, *span, a.0, c.0, depth as nat);
                }
                typy.eq_ids(span, b.0, d.0, depth)?;
                Ok(Type::Function(*a, *b))
            },
            _ => Err(mismatch_diag(self, other, span, typy)),
        }
    }
}

} // verus!
