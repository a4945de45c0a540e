use std::collections::BTreeMap;
use vstd::prelude::*;

use crate::text::{chars_to_string, decimal, push_decimal};
use crate::typy::{TypeID, Typy, TypyV};

verus! {

broadcast use vstd::std_specs::btree::group_btree_axioms;

/// A type of the language: a number, or a function from one type variable to another.
#[derive(Debug, Clone, Copy, PartialEq, Eq, PartialOrd, Ord, Hash)]
pub enum Type {
    Number,
    Function(TypeID<Type>, TypeID<Type>),
}

pub open spec fn number_text() -> Seq<char> {
    seq!['n', 'u', 'm', 'b', 'e', 'r']
}

pub open spec fn to_text() -> Seq<char> {
    seq![' ', '-', '>', ' ']
}

/// The name of the `n`-th type variable met while rendering: `T0`, `T1`, ...
pub open spec fn var_text(n: nat) -> Seq<char> {
    seq!['T'] + decimal(n)
}

/// Rendering an unknown type variable: the class gets the next free name the
/// first time it is met, and keeps it.
pub open spec fn fmt_var(t: TypyV, names: Map<u32, usize>, next: nat, id: u32) -> (
    Seq<char>,
    Map<u32, usize>,
    nat,
) {
    let r = t.root(id);
    if names.contains_key(r) {
        (var_text(names[r] as nat), names, next)
    } else {
        (var_text(next), names.insert(r, next as usize), next + 1)
    }
}

/// Rendering the type of a type variable, with the names given so far and
/// the next free name; `arg` puts a function type in parentheses. Below
/// `depth` levels, a function type is named like a variable.
pub open spec fn fmt_text(
    t: TypyV,
    names: Map<u32, usize>,
    next: nat,
    id: u32,
    arg: bool,
    depth: nat,
) -> (Seq<char>, Map<u32, usize>, nat)
    decreases depth,
{
    match t.get(id) {
        Some(Type::Number) => (number_text(), names, next),
        Some(Type::Function(a, b)) => if depth == 0 {
            fmt_var(t, names, next, id)
        } else {
            let (sa, n1, k1) = fmt_text(t, names, next, a.0, true, (depth - 1) as nat);
            let (sb, n2, k2) = fmt_text(t, n1, k1, b.0, false, (depth - 1) as nat);
            if arg {
                (seq!['('] + sa + to_text() + sb + seq![')'], n2, k2)
            } else {
                (sa + to_text() + sb, n2, k2)
            }
        },
        None => fmt_var(t, names, next, id),
    }
}

/// Parentheses: a function type rendered as an argument is wrapped in
/// parentheses, and a function type whose argument is itself a function
/// type begins with the parenthesis of that argument, wherever it stands;
/// so the text reads back as the same type.
pub proof fn lemma_parenthesized(t: TypyV, names: Map<u32, usize>, next: nat, id: u32, depth: nat)
    requires
        depth > 0,
        t.get(id) matches Some(Type::Function(_, _)),
    ensures
        ({
            let s = fmt_text(t, names, next, id, true, depth).0;
            s.len() > 0 && s[0] == '(' && s[s.len() - 1] == ')'
        }),
        t.get(id) matches Some(Type::Function(a, _)) ==> ((depth > 1 && (t.get(a.0) matches Some(
            Type::Function(_, _),
        ))) ==> fmt_text(t, names, next, id, false, depth).0[0] == '('),
    decreases depth,
{
    if let Some(Type::Function(a, b)) = t.get(id) {
        if depth > 1 {
            if let Some(Type::Function(_, _)) = t.get(a.0) {
                let (sa, n1, k1) = fmt_text(t, names, next, a.0, true, (depth - 1) as nat);
                lemma_parenthesized(t, names, next, a.0, (depth - 1) as nat);
                let (sb, n2, k2) = fmt_text(t, n1, k1, b.0, false, (depth - 1) as nat);
                assert((sa + to_text() + sb)[0] == sa[0]);
            }
        }
    }
}

/// Naming: a type variable of which nothing is known is named after its
/// class; a class met before keeps its name, a class met for the first time
/// takes the next number, which is new when the names handed out are below
/// it; the keys of one class get the same name. Each rendering starts with
/// no names (see [`format_text`]).
pub proof fn lemma_naming(t: TypyV, names: Map<u32, usize>, next: nat, i: u32, j: u32, arg: bool, depth: nat)
    requires
        t.wf(),
        t.valid(i),
        t.valid(j),
        t.get(i) is None,
    ensures
        fmt_text(t, names, next, i, arg, depth) == fmt_var(t, names, next, i),
        names.contains_key(t.root(i)) ==> fmt_var(t, names, next, i) == (
            var_text(names[t.root(i)] as nat),
            names,
            next,
        ),
        !names.contains_key(t.root(i)) ==> fmt_var(t, names, next, i) == (
            var_text(next),
            names.insert(t.root(i), next as usize),
            next + 1,
        ),
        !names.contains_key(t.root(i)) && (forall|k: u32| names.contains_key(k) ==> names[k] < next)
            ==> forall|k: u32| #[trigger] names.contains_key(k) ==> names[k] != next,
        t.same(i, j) ==> fmt_var(t, names, next, i) == fmt_var(t, names, next, j),
{
}

/// The rendering of a type.
pub open spec fn type_text(t: TypyV, ty: Type) -> Seq<char> {
    match ty {
        Type::Number => number_text(),
        Type::Function(a, b) => {
            let (sa, n1, k1) = fmt_text(t, Map::empty(), 0, a.0, true, t.len());
            let (sb, n2, k2) = fmt_text(t, n1, k1, b.0, false, t.len());
            sa + to_text() + sb
        },
    }
}

/// The rendering of the type of a type variable, with no names handed out
/// yet. A type nests no deeper
/// than the table has keys unless it contains itself (the checker does not
/// rule that out: `x . x x` gives one); such a type is rendered down to that
/// depth, where the function type met is named like a variable.
pub open spec fn format_text(t: TypyV, id: u32) -> Seq<char> {
    fmt_text(t, Map::empty(), 0, id, false, t.len()).0
}

/// The names handed out so far are `0 .. next`, one per key of the table.
pub open spec fn names_ok(t: TypyV, names: Map<u32, usize>, next: nat) -> bool {
    &&& names.dom().finite()
    &&& names.dom().len() == next
    &&& forall|k: u32| names.contains_key(k) ==> t.valid(k)
}

proof fn lemma_range_set(n: nat)
    requires
        n <= u32::MAX + 1,
    ensures
        Set::new(|k: u32| (k as nat) < n).finite(),
        Set::new(|k: u32| (k as nat) < n).len() == n,
    decreases n,
{
    let s = Set::new(|k: u32| (k as nat) < n);
    if n == 0 {
        assert(s =~= Set::empty());
    } else {
        lemma_range_set((n - 1) as nat);
        let s1 = Set::new(|k: u32| (k as nat) < (n - 1) as nat);
        assert(s =~= s1.insert((n - 1) as u32));
        assert(!s1.contains((n - 1) as u32));
    }
}

proof fn lemma_names_room(t: TypyV, names: Map<u32, usize>, next: nat, r: u32)
    requires
        names_ok(t, names, next),
        t.valid(r),
        !names.contains_key(r),
        t.len() <= u32::MAX,
    ensures
        next < t.len(),
{
    let full = Set::new(|k: u32| (k as nat) < t.len());
    lemma_range_set(t.len());
    assert forall|k: u32| names.dom().insert(r).contains(k) implies full.contains(k) by {
        if k != r {
            assert(names.contains_key(k));
            assert(t.valid(k));
        }
        assert((k as nat) < t.len());
    }
    vstd::set_lib::lemma_len_subset(names.dom().insert(r), full);
}

proof fn lemma_fmt_var(t: TypyV, names: Map<u32, usize>, next: nat, id: u32)
    requires
        t.wf(),
        t.valid(id),
        names_ok(t, names, next),
    ensures
        ({
            let (s, n, k) = fmt_var(t, names, next, id);
            names_ok(t, n, k) && k <= t.len()
        }),
{
    let r = t.root(id);
    if !names.contains_key(r) {
        lemma_names_room(t, names, next, r);
        assert(names.insert(r, next as usize).dom() =~= names.dom().insert(r));
    }
    assert(names.dom().len() <= t.len()) by {
        let full = Set::new(|k: u32| (k as nat) < t.len());
        lemma_range_set(t.len());
        assert forall|k: u32| names.dom().contains(k) implies full.contains(k) by {
            assert(names.contains_key(k));
            assert(t.valid(k));
            assert((k as nat) < t.len());
        }
        vstd::set_lib::lemma_len_subset(names.dom(), full);
    }
}

/// A renderer of types: the names given to type variables so far, and the
/// next free name.
pub struct TypFormat {
    pub id: usize,
    pub names: BTreeMap<u32, usize>,
}

fn push_number(out: &mut Vec<char>)
    ensures
        final(out)@ == old(out)@ + number_text(),
{
    out.push('n');
    out.push('u');
    out.push('m');
    out.push('b');
    out.push('e');
    out.push('r');
    assert(out@ =~= old(out)@ + number_text());
}

fn push_to(out: &mut Vec<char>)
    ensures
        final(out)@ == old(out)@ + to_text(),
{
    out.push(' ');
    out.push('-');
    out.push('>');
    out.push(' ');
    assert(out@ =~= old(out)@ + to_text());
}

impl TypFormat {
    /// Renders the type of a type variable: `number`, a function type with
    /// `->` (an argument that is itself a function in parentheses), and
    /// `T0`, `T1`, ... for the classes of which nothing is known, in the order
    /// in which they are met.
    pub fn format(id: TypeID<Type>, typy: &mut Typy) -> (s: String)
        requires
            old(typy)@.wf(),
            old(typy)@.valid(id.0),
        ensures
            final(typy)@ == old(typy)@,
            s@ == format_text(old(typy)@, id.0),
    {
        let mut f = TypFormat { id: 0, names: BTreeMap::new() };
        let mut out: Vec<char> = Vec::new();
        let depth = typy.len();
        proof {
            assert(f.names@.dom() =~= Set::empty());
        }
        f.fmt(id, false, typy, depth, &mut out);
        assert(out@ =~= Seq::<char>::empty() + format_text(typy@, id.0));
        chars_to_string(out)
    }

    fn fmt_var(&mut self, id: TypeID<Type>, typy: &mut Typy, out: &mut Vec<char>)
        requires
            old(typy)@.wf(),
            old(typy)@.valid(id.0),
            names_ok(old(typy)@, old(self).names@, old(self).id as nat),
        ensures
            final(typy)@ == old(typy)@,
            ({
                let (s, n, k) = fmt_var(old(typy)@, old(self).names@, old(self).id as nat, id.0);
                &&& final(out)@ == old(out)@ + s
                &&& final(self).names@ == n
                &&& final(self).id == k
                &&& names_ok(old(typy)@, n, k)
            }),
    {
        proof {
            lemma_fmt_var(typy@, self.names@, self.id as nat, id.0);
        }
        let r = typy.root_of(id.0);
        match self.names.get(&r) {
            Some(n) => {
                let n = *n;
                out.push('T');
                push_decimal(out, n);
                assert(out@ =~= old(out)@ + var_text(n as nat));
            },
            None => {
                proof {
                    lemma_names_room(typy@, self.names@, self.id as nat, r);
                }
                let n = self.id;
                self.names.insert(r, n);
                self.id = n + 1;
                out.push('T');
                push_decimal(out, n);
                assert(out@ =~= old(out)@ + var_text(n as nat));
            },
        }
    }

    fn fmt(&mut self, id: TypeID<Type>, arg: bool, typy: &mut Typy, depth: usize, out: &mut Vec<char>)
        requires
            old(typy)@.wf(),
            old(typy)@.valid(id.0),
            names_ok(old(typy)@, old(self).names@, old(self).id as nat),
        ensures
            final(typy)@ == old(typy)@,
            ({
                let (s, n, k) = fmt_text(
                    old(typy)@,
                    old(self).names@,
                    old(self).id as nat,
                    id.0,
                    arg,
                    depth as nat,
                );
                &&& final(out)@ == old(out)@ + s
                &&& final(self).names@ == n
                &&& final(self).id == k
                &&& names_ok(old(typy)@, n, k)
            }),
        decreases depth,
    {
        match typy.probe(id.0) {
            Some(Type::Number) => {
                push_number(out);
            },
            Some(Type::Function(a, b)) => {
                if depth == 0 {
                    self.fmt_var(id, typy, out);
                } else {
                    let ghost out0 = out@;
                    if arg {
                        out.push('(');
                    }
                    let ghost out1 = out@;
                    self.fmt(a, true, typy, depth - 1, out);
                    let ghost out2 = out@;
                    push_to(out);
                    self.fmt(b, false, typy, depth - 1, out);
                    if arg {
                        out.push(')');
                    }
                    proof {
                        let (sa, n1, k1) = fmt_text(
                            typy@,
                            old(self).names@,
                            old(self).id as nat,
                            a.0,
                            true,
                            (depth - 1) as nat,
                        );
                        let (sb, n2, k2) = fmt_text(typy@, n1, k1, b.0, false, (depth - 1) as nat);
                        if arg {
                            assert(out@ =~= out0 + (seq!['('] + sa + to_text() + sb + seq![')']));
                        } else {
                            assert(out@ =~= out0 + (sa + to_text() + sb));
                        }
                    }
                }
            },
            None => {
                self.fmt_var(id, typy, out);
            },
        }
    }
}

impl Type {
    /// Renders a type: `number`, or a function type with `->`, its argument in
    /// parentheses where it is itself a function, and `T0`, `T1`, ... for the
    /// classes of which nothing is known.
    pub fn to_string(&self, typy: &mut Typy) -> (s: String)
        requires
            old(typy)@.wf(),
            old(typy)@.type_valid(*self),
        ensures
            final(typy)@ == old(typy)@,
            s@ == type_text(old(typy)@, *self),
    {
        let mut out: Vec<char> = Vec::new();
        match self {
            Type::Number => {
                push_number(&mut out);
                assert(out@ =~= number_text());
            },
            Type::Function(a, b) => {
                let mut f = TypFormat { id: 0, names: BTreeMap::new() };
                let depth = typy.len();
                proof {
                    assert(f.names@.dom() =~= Set::empty());
                }
                f.fmt(*a, true, typy, depth, &mut out);
                push_to(&mut out);
                f.fmt(*b, false, typy, depth, &mut out);
                proof {
                    let t = typy@;
                    let (sa, n1, k1) = fmt_text(t, Map::empty(), 0, a.0, true, t.len());
                    let (sb, n2, k2) = fmt_text(t, n1, k1, b.0, false, t.len());
                    assert(out@ =~= sa + to_text() + sb);
                }
            },
        }
        chars_to_string(out)
    }
}

} // verus!
