use learn::diag::{Diag, Expected, Found};
use learn::types::{TypFormat, Type};
use learn::typy::{Ty, TypeID, Typed, Typy};

fn id(n: u32) -> TypeID<Type> {
    TypeID::from_index(n)
}

#[test]
fn typy_hands_out_fresh_keys() {
    let mut t = Typy::new();
    assert_eq!(t.len(), 0);
    let a = t.unknown();
    let b = t.known(Type::Number);
    assert_eq!(a, id(0));
    assert_eq!(b, id(1));
    assert_eq!(t.len(), 2);
    assert_eq!(t.get(&a), None);
    assert_eq!(t.get(&b), Some(Type::Number));
    assert_eq!(t.root(&a), a);
    assert_eq!(t.root(&b), b);
}

#[test]
fn typy_default_is_empty() {
    let t = Typy::default();
    assert_eq!(t.len(), 0);
}

#[test]
fn typy_eq_joins_classes() {
    let mut t = Typy::new();
    let a = t.unknown();
    let b = t.known(Type::Number);
    assert_eq!(t.eq(0..1, &a, &b), Ok(()));
    assert_eq!(t.get(&a), Some(Type::Number));
    // equal ranks: the first root is redirected to the second
    assert_eq!(t.root(&a), b);
    assert_eq!(t.root(&b), b);
    // joining again changes nothing
    assert_eq!(t.eq(0..1, &b, &a), Ok(()));
    assert_eq!(t.root(&a), b);
}

#[test]
fn typy_union_by_rank_keeps_the_higher_root() {
    let mut t = Typy::new();
    let a = t.unknown();
    let b = t.unknown();
    let c = t.unknown();
    assert_eq!(t.eq(0..1, &a, &b), Ok(()));
    assert_eq!(t.root(&a), b);
    // b now has the higher rank, so c is redirected to b
    assert_eq!(t.eq(0..1, &c, &a), Ok(()));
    assert_eq!(t.root(&c), b);
    assert_eq!(t.root(&a), b);
}

#[test]
fn typy_eq_unifies_function_types() {
    let mut t = Typy::new();
    let a = t.unknown();
    let b = t.unknown();
    let n = t.known(Type::Number);
    let d = t.unknown();
    let f = t.known(Type::Function(a, b));
    let g = t.known(Type::Function(n, d));
    assert_eq!(t.eq(0..1, &f, &g), Ok(()));
    assert_eq!(t.get(&a), Some(Type::Number));
    assert_eq!(t.root(&b), t.root(&d));
    assert_eq!(t.get(&f), Some(Type::Function(a, b)));
    assert_eq!(t.get(&g), Some(Type::Function(a, b)));
}

#[test]
fn typy_eq_reports_mismatch() {
    let mut t = Typy::new();
    let n = t.known(Type::Number);
    let f = t.known(Type::Function(n, n));
    assert_eq!(
        t.eq(5..6, &n, &f),
        Err(Diag::ExpectedFound {
            expected: Expected::Type(String::from("number"), Type::Number),
            found: Found::Type(String::from("number -> number"), Type::Function(n, n)),
            span: 5..6,
        })
    );
    // nothing was joined
    assert_eq!(t.root(&n), n);
    assert_eq!(t.root(&f), f);
    assert_eq!(t.get(&n), Some(Type::Number));
}

#[test]
fn typy_set_gives_a_type() {
    let mut t = Typy::new();
    let u = t.unknown();
    assert_eq!(t.set(0..1, &u, Type::Number), Ok(()));
    assert_eq!(t.get(&u), Some(Type::Number));
    // the same type again is accepted
    assert_eq!(t.set(0..1, &u, Type::Number), Ok(()));
    assert_eq!(
        t.set(3..4, &u, Type::Function(u, u)),
        Err(Diag::ExpectedFound {
            expected: Expected::Type(String::from("number"), Type::Number),
            found: Found::Type(String::from("number -> number"), Type::Function(u, u)),
            span: 3..4,
        })
    );
}

#[test]
fn typy_set_unifies_with_a_known_function() {
    let mut t = Typy::new();
    let a = t.unknown();
    let b = t.unknown();
    let f = t.known(Type::Function(a, b));
    let n = t.known(Type::Number);
    assert_eq!(t.set(0..1, &f, Type::Function(n, n)), Ok(()));
    assert_eq!(t.get(&a), Some(Type::Number));
    assert_eq!(t.get(&b), Some(Type::Number));
    assert_eq!(t.get(&f), Some(Type::Function(a, b)));
}

#[test]
fn typy_refines_keeps_known_types() {
    let mut t = Typy::new();
    let a = t.known(Type::Number);
    let b = t.unknown();
    let c = t.unknown();
    assert_eq!(t.eq(0..1, &b, &c), Ok(()));
    assert_eq!(t.eq(0..1, &a, &c), Ok(()));
    assert_eq!(t.get(&a), Some(Type::Number));
    assert_eq!(t.get(&b), Some(Type::Number));
}

#[test]
fn typy_clone_is_independent() {
    let mut t = Typy::new();
    let a = t.unknown();
    let mut copy = t.clone();
    assert_eq!(t.set(0..1, &a, Type::Number), Ok(()));
    assert_eq!(t.get(&a), Some(Type::Number));
    assert_eq!(copy.get(&a), None);
    assert_eq!(copy.len(), 1);
}

#[test]
fn type_unify_numbers() {
    let mut t = Typy::new();
    assert_eq!(Type::Number.unify(&Type::Number, &(0..1), &mut t), Ok(Type::Number));
}

#[test]
fn type_unify_functions_keeps_the_first() {
    let mut t = Typy::new();
    let a = t.unknown();
    let b = t.unknown();
    let c = t.known(Type::Number);
    let d = t.unknown();
    assert_eq!(
        Type::Function(a, b).unify(&Type::Function(c, d), &(0..1), &mut t),
        Ok(Type::Function(a, b))
    );
    assert_eq!(t.get(&a), Some(Type::Number));
}

#[test]
fn type_unify_number_with_function_fails() {
    let mut t = Typy::new();
    let a = t.unknown();
    assert_eq!(
        Type::Function(a, a).unify(&Type::Number, &(2..4), &mut t),
        Err(Diag::ExpectedFound {
            expected: Expected::Type(String::from("T0 -> T0"), Type::Function(a, a)),
            found: Found::Type(String::from("number"), Type::Number),
            span: 2..4,
        })
    );
}

#[test]
fn ty_unify_values_table() {
    let n = Ty::Type(Type::Number);
    let f = Ty::Type(Type::Function(id(0), id(1)));
    assert_eq!(Ty::unify_values(&Ty::Unknown, &n), n);
    assert_eq!(Ty::unify_values(&n, &Ty::Unknown), n);
    assert_eq!(Ty::unify_values(&Ty::<Type>::Unknown, &Ty::Unknown), Ty::Unknown);
    assert_eq!(Ty::unify_values(&n, &f), Ty::Settled(Type::Number));
    assert_eq!(Ty::unify_values(&f, &n), Ty::Settled(Type::Function(id(0), id(1))));
    assert_eq!(Ty::unify_values(&Ty::Settled(Type::Number), &f), Ty::Settled(Type::Number));
    assert_eq!(Ty::unify_values(&n, &Ty::Settled(Type::Number)), Ty::Settled(Type::Number));
}

#[test]
fn type_id_index_round_trip() {
    let a = id(7);
    assert_eq!(a.index(), 7);
    assert_eq!(TypeID::<Type>::from_index(a.index()), a);
    let b = a;
    assert_eq!(a.clone(), b);
    assert_eq!(a.type_id(), a);
}

#[test]
fn format_variables_in_order_met() {
    let mut t = Typy::new();
    let a = t.unknown();
    let b = t.unknown();
    let g = t.known(Type::Function(b, a));
    let f = t.known(Type::Function(a, g));
    assert_eq!(TypFormat::format(f, &mut t), "T0 -> T1 -> T0");
    assert_eq!(TypFormat::format(a, &mut t), "T0");
}

#[test]
fn format_function_argument_in_parentheses() {
    let mut t = Typy::new();
    let a = t.unknown();
    let n = t.known(Type::Number);
    let arg = t.known(Type::Function(a, a));
    let f = t.known(Type::Function(arg, n));
    assert_eq!(TypFormat::format(f, &mut t), "(T0 -> T0) -> number");
    assert_eq!(TypFormat::format(n, &mut t), "number");
}

#[test]
fn format_joined_variables_share_a_name() {
    let mut t = Typy::new();
    let a = t.unknown();
    let b = t.unknown();
    let f = t.known(Type::Function(a, b));
    assert_eq!(TypFormat::format(f, &mut t), "T0 -> T1");
    assert_eq!(t.eq(0..1, &a, &b), Ok(()));
    assert_eq!(TypFormat::format(f, &mut t), "T0 -> T0");
}

#[test]
fn type_to_string() {
    let mut t = Typy::new();
    let n = t.known(Type::Number);
    let u = t.unknown();
    assert_eq!(Type::Number.to_string(&mut t), "number");
    assert_eq!(Type::Function(n, u).to_string(&mut t), "number -> T0");
    assert_eq!(Type::Function(u, u).to_string(&mut t), "T0 -> T0");
}

#[test]
fn typy_failed_eq_keeps_joins_of_arguments() {
    let mut t = Typy::new();
    let a = t.unknown();
    let b = t.known(Type::Number);
    let c = t.unknown();
    let e = t.unknown();
    let d = t.known(Type::Function(e, e));
    let f = t.known(Type::Function(a, b));
    let g = t.known(Type::Function(c, d));
    assert_eq!(
        t.eq(7..9, &f, &g),
        Err(Diag::ExpectedFound {
            expected: Expected::Type(String::from("number"), Type::Number),
            found: Found::Type(String::from("T0 -> T0"), Type::Function(e, e)),
            span: 7..9,
        })
    );
    // the arguments were unified before the results failed to
    assert_eq!(t.root(&a), t.root(&c));
    // but the two function types were not joined
    assert_eq!(t.root(&f), f);
    assert_eq!(t.root(&g), g);
}
