use learn::check::{type_chk, variables, Namespace};
use learn::diag::{Diag, Expected, Found};
use learn::parser::parse;
use learn::program::check_source;
use learn::skim::Parsed;
use learn::syntax::{Expr, Expression};
use learn::types::{TypFormat, Type};
use learn::typy::{TypeID, Typy};

fn parsed(code: &str) -> (Expression, Typy) {
    match parse(code, Typy::new()) {
        Parsed::Value(v) => v,
        _ => panic!("did not parse"),
    }
}

fn checked_type(code: &str) -> String {
    match check_source(code) {
        Ok((e, mut t)) => TypFormat::format(e.ty, &mut t),
        Err(d) => panic!("error {:?}", d),
    }
}

fn check_error(code: &str) -> Diag {
    match check_source(code) {
        Ok(_) => panic!("checked"),
        Err(d) => d,
    }
}

#[test]
fn check_sample_program_is_a_type_error() {
    assert_eq!(
        check_error("(x.x+(x.x)) 2"),
        Diag::ExpectedFound {
            expected: Expected::Type(String::from("number"), Type::Number),
            found: Found::Type(
                String::from("T0 -> T0"),
                Type::Function(TypeID::from_index(8), TypeID::from_index(1))
            ),
            span: 6..9,
        }
    );
}

#[test]
fn check_identity_applied_to_number() {
    assert_eq!(checked_type("(x.x) 2"), "number");
}

#[test]
fn check_identity_function() {
    assert_eq!(checked_type("x.x"), "T0 -> T0");
}

#[test]
fn check_constant_function() {
    assert_eq!(checked_type("x.y.x"), "T0 -> T1 -> T0");
}

#[test]
fn check_higher_order_argument_in_parentheses() {
    assert_eq!(checked_type("f.f 1"), "(number -> T0) -> T0");
}

#[test]
fn check_addition() {
    assert_eq!(checked_type("1 + 2"), "number");
}

#[test]
fn check_addition_of_a_parameter() {
    assert_eq!(checked_type("x.x + 1"), "number -> number");
}

#[test]
fn check_let_binding() {
    assert_eq!(checked_type("let f = x.x in f 1"), "number");
}

#[test]
fn check_undefined_variable() {
    assert_eq!(
        check_error("x"),
        Diag::UndefinedVariable { name: String::from("x"), span: 0..1 }
    );
    assert_eq!(
        check_error("x.y"),
        Diag::UndefinedVariable { name: String::from("y"), span: 2..3 }
    );
}

#[test]
fn check_applying_a_number() {
    assert_eq!(
        check_error("1 2"),
        Diag::ExpectedFound {
            expected: Expected::Type(String::from("number"), Type::Number),
            found: Found::Type(
                String::from("number -> T0"),
                Type::Function(TypeID::from_index(1), TypeID::from_index(2))
            ),
            span: 0..3,
        }
    );
}

#[test]
fn check_reports_parse_errors() {
    assert_eq!(
        check_error("(x"),
        Diag::ExpectedFound {
            expected: Expected::Delim(learn::token::Delim::CloseParenthesis),
            found: Found::Eof,
            span: 1..1,
        }
    );
}

#[test]
fn type_chk_on_parsed_expression() {
    let (e, mut t) = parsed("(x.x) 2");
    assert_eq!(type_chk(&e, &mut t), Ok(()));
    assert_eq!(t.get(&e), Some(Type::Number));
    // the function node has a function type from number
    match e.expr.as_ref() {
        Expr::Application(f, n) => {
            match t.get(f) {
                Some(Type::Function(p, q)) => {
                    assert_eq!(t.root(&p), t.root(n));
                    assert_eq!(t.root(&q), t.root(&e));
                },
                other => panic!("not a function: {:?}", other),
            }
        },
        _ => panic!("not an application"),
    }
}

#[test]
fn variables_binds_parameters() {
    let (e, mut t) = parsed("x.x");
    assert_eq!(t.len(), 2);
    assert_eq!(variables(&e, &mut t), Ok(()));
    // one fresh variable for the parameter
    assert_eq!(t.len(), 3);
    assert_eq!(
        t.get(&e),
        Some(Type::Function(TypeID::from_index(2), TypeID::from_index(0)))
    );
    assert_eq!(t.root(&TypeID::from_index(2)), t.root(&TypeID::from_index(0)));
}

#[test]
fn variables_reports_unbound_name() {
    let (e, mut t) = parsed("x.z");
    assert_eq!(
        variables(&e, &mut t),
        Err(Diag::UndefinedVariable { name: String::from("z"), span: 2..3 })
    );
}

#[test]
fn variables_inner_binding_hides_outer() {
    let (e, mut t) = parsed("x.x.x");
    assert_eq!(variables(&e, &mut t), Ok(()));
    // the body variable belongs to the inner parameter
    match e.expr.as_ref() {
        Expr::Function(_, inner) => match inner.expr.as_ref() {
            Expr::Function(_, body) => match t.get(inner) {
                Some(Type::Function(p, _)) => assert_eq!(t.root(&p), t.root(body)),
                other => panic!("not a function: {:?}", other),
            },
            _ => panic!("not a function"),
        },
        _ => panic!("not a function"),
    }
}

#[test]
fn apply_rules_after_scoping() {
    let (e, mut t) = parsed("1 + 2");
    assert_eq!(variables(&e, &mut t), Ok(()));
    assert_eq!(t.apply(&e), Ok(()));
    assert_eq!(t.get(&e), Some(Type::Number));
}

#[test]
fn namespace_lookup_finds_innermost() {
    let mut outer = Namespace::new(None);
    assert_eq!(outer.get(&String::from("x")), None);
    outer.insert(String::from("x"), TypeID::from_index(0));
    let mut inner = Namespace::new(Some(&outer));
    assert_eq!(inner.get(&String::from("x")), Some(TypeID::from_index(0)));
    inner.insert(String::from("x"), TypeID::from_index(1));
    inner.insert(String::from("y"), TypeID::from_index(2));
    assert_eq!(inner.get(&String::from("x")), Some(TypeID::from_index(1)));
    assert_eq!(inner.get(&String::from("y")), Some(TypeID::from_index(2)));
    assert_eq!(outer.get(&String::from("x")), Some(TypeID::from_index(0)));
    assert_eq!(outer.get(&String::from("y")), None);
}

#[test]
fn check_self_application_renders_a_type_that_contains_itself() {
    // x : T where T = T -> T1; the rendering stops at the depth of the table
    assert_eq!(checked_type("x.x x"), "((((T0 -> T1) -> T1) -> T1) -> T1) -> T1");
}

#[test]
fn variables_parameter_is_not_in_scope_of_the_argument() {
    let (e, mut t) = parsed("(x.x) x");
    assert_eq!(
        variables(&e, &mut t),
        Err(Diag::UndefinedVariable { name: String::from("x"), span: 6..7 })
    );
}
