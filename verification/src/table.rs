use ena::unify::{InPlaceUnificationTable, NoError, UnifyKey, UnifyValue};
use std::marker::PhantomData;
use vstd::prelude::*;

use crate::types::Type;
use crate::typy::{unify_values_spec, Ty, TypeID, TypyV};

verus! {

#[verifier::external_type_specification]
#[verifier::external_body]
pub struct ExNoError(NoError);

/// Type variables are the keys of ena's unification table.
impl UnifyKey for TypeID<Type> {
    type Value = Ty<Type>;

    fn index(&self) -> u32 {
        self.0
    }

    fn from_index(u: u32) -> Self {
        TypeID(u, PhantomData)
    }

    fn tag() -> &'static str {
        "typy"
    }
}

/// What the table holds for a class, combined as [`Ty::unify_values`] does.
impl UnifyValue for Ty<Type> {
    type Error = NoError;

    fn unify_values(value1: &Self, value2: &Self) -> Result<Self, NoError> {
        Ok(Ty::unify_values(value1, value2))
    }
}

/// ena's unification table over type variables.
#[verifier::external_body]
pub struct Table {
    table: InPlaceUnificationTable<TypeID<Type>>,
}

/// What the table holds, key by key: the root of the key's class, the key's
/// rank, and the value stored at the key (which counts for roots).
pub uninterp spec fn table_entries(t: Table) -> Seq<(u32, u32, Ty<Type>)>;

/// The entries of a table as the model of the unification table.
pub open spec fn entries_view(s: Seq<(u32, u32, Ty<Type>)>) -> TypyV {
    TypyV {
        rep: s.map_values(|e: (u32, u32, Ty<Type>)| e.0),
        rank: s.map_values(|e: (u32, u32, Ty<Type>)| e.1),
        values: s.map_values(|e: (u32, u32, Ty<Type>)| e.2),
    }
}

/// `InPlaceUnificationTable::new`: a table with no key.
#[verifier::external_body]
pub(crate) fn table_new() -> (t: Table)
    ensures
        table_entries(t) == Seq::<(u32, u32, Ty<Type>)>::empty(),
{
    Table { table: InPlaceUnificationTable::new() }
}

/// `UnificationTable::len`: the number of keys.
#[verifier::external_body]
pub(crate) fn table_len(t: &Table) -> (n: usize)
    ensures
        n == table_entries(*t).len(),
{
    t.table.len()
}

/// `UnificationTable::clone` (derived): a table with the same entries.
#[verifier::external_body]
pub(crate) fn table_clone(t: &Table) -> (c: Table)
    ensures
        table_entries(c) == table_entries(*t),
{
    Table { table: t.table.clone() }
}

/// `UnificationTable::new_key`: a new key, numbered by the number of keys
/// before it, in a class of its own, of rank 0, holding `value`.
#[verifier::external_body]
pub(crate) fn table_new_key(t: &mut Table, value: Ty<Type>) -> (k: TypeID<Type>)
    requires
        table_entries(*old(t)).len() < u32::MAX,
    ensures
        k.0 == table_entries(*old(t)).len(),
        table_entries(*final(t)) == table_entries(*old(t)).push(
            (table_entries(*old(t)).len() as u32, 0u32, value),
        ),
{
    t.table.new_key(value)
}

/// `UnificationTable::find`: the root of the class of key `id`. Compressing
/// paths changes no key's root, rank or value.
#[verifier::external_body]
pub(crate) fn table_find(t: &mut Table, id: u32) -> (r: u32)
    requires
        id < table_entries(*old(t)).len(),
    ensures
        r == table_entries(*old(t))[id as int].0,
        table_entries(*final(t)) == table_entries(*old(t)),
{
    t.table.find(TypeID::<Type>(id, PhantomData)).0
}

/// `UnificationTable::probe_value`: the value of the class of key `id`, the
/// one stored at its root.
#[verifier::external_body]
pub(crate) fn table_probe(t: &mut Table, id: u32) -> (v: Ty<Type>)
    requires
        id < table_entries(*old(t)).len(),
    ensures
        v == entries_view(table_entries(*old(t))).value(id),
        table_entries(*final(t)) == table_entries(*old(t)),
{
    t.table.probe_value(TypeID::<Type>(id, PhantomData))
}

/// `UnificationTable::union` (through `unify_var_var` and `unify_roots`,
/// with no `order_roots` of the key type): nothing where `a` and `b` share a
/// root; otherwise the root of lower rank is redirected to the other (the
/// root of `a` to that of `b` on equal ranks, whose rank then grows by one),
/// and the new root holds the two roots' values combined.
#[verifier::external_body]
pub(crate) fn table_union(t: &mut Table, a: u32, b: u32)
    requires
        a < table_entries(*old(t)).len(),
        b < table_entries(*old(t)).len(),
    ensures
        ({
            let m = entries_view(table_entries(*old(t)));
            let ra = m.root(a);
            let rb = m.root(b);
            entries_view(table_entries(*final(t))) == if ra == rb {
                m
            } else {
                m.union_roots(ra, rb, unify_values_spec(m.values[ra as int], m.values[rb as int]))
            }
        }),
        table_entries(*final(t)).len() == table_entries(*old(t)).len(),
{
    t.table.union(TypeID::<Type>(a, PhantomData), TypeID::<Type>(b, PhantomData))
}

/// `UnificationTable::union_value` (through `unify_var_value`): the root of
/// the class of `id` holds its value combined with `value`.
#[verifier::external_body]
pub(crate) fn table_union_value(t: &mut Table, id: u32, value: Ty<Type>)
    requires
        id < table_entries(*old(t)).len(),
    ensures
        ({
            let m = entries_view(table_entries(*old(t)));
            entries_view(table_entries(*final(t))) == m.set_value(id, unify_values_spec(m.value(id), value))
        }),
        table_entries(*final(t)).len() == table_entries(*old(t)).len(),
{
    t.table.union_value(TypeID::<Type>(id, PhantomData), value)
}

} // verus!
