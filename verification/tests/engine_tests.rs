use std::rc::Rc;

use iron_golem::ast::{Loc, AST};
use iron_golem::globals::{bool, integer};
use iron_golem::names::{ident, typ, Name};
use iron_golem::typecheck::{TypeError, Typecheck};
use iron_golem::types::{map_vars, Type};

fn node() -> AST {
    AST::Integer(Loc { file: "engine".to_string(), begin: 4, end: 9 }, 0)
}

fn var(name: &str) -> Rc<Type> {
    Rc::new(Type::Variable(ident(name)))
}

fn arrow(a: Rc<Type>, b: Rc<Type>) -> Rc<Type> {
    Rc::new(Type::Function(a, b))
}

#[test]
fn generated_names_differ() {
    let mut tc = Typecheck::new();
    let a = tc.genvar(typ("rv"));
    let b = tc.genvar(typ("rv"));
    let c = tc.genvar(ident("other"));
    assert!(*a != *b);
    assert!(*a != *c);
    assert!(*b != *c);
    assert!(*a == Type::Variable(Name::Unique(Box::new(typ("rv")), 1)));
    assert!(*b == Type::Variable(Name::Unique(Box::new(typ("rv")), 2)));
    let n = tc.gensym(ident("x"));
    assert!(n == Name::Unique(Box::new(ident("x")), 4));
}

#[test]
fn unsolved_types_are_left_alone() {
    let mut tc = Typecheck::new();
    let t = arrow(var("a"), integer());
    let r = tc.subst_type(&t);
    assert!(*r == *t);
}

#[test]
fn substitution_follows_chains() {
    let mut tc = Typecheck::new();
    let n = node();
    tc.unify(&n, &var("a"), &var("b")).unwrap();
    tc.unify(&n, &var("b"), &var("c")).unwrap();
    tc.unify(&n, &var("c"), &arrow(integer(), var("d"))).unwrap();
    tc.unify(&n, &var("d"), &bool()).unwrap();
    let expected = arrow(integer(), bool());
    assert!(*tc.subst_type(&var("a")) == *expected);
    assert!(*tc.subst_type(&var("b")) == *expected);
    assert!(*tc.subst_type(&var("c")) == *expected);
    assert!(*tc.subst_type(&var("d")) == *bool());
    assert!(*tc.subst_type(&var("e")) == *var("e"));
}

#[test]
fn substitution_is_idempotent() {
    let mut tc = Typecheck::new();
    let n = node();
    tc.unify(&n, &var("a"), &arrow(var("b"), integer())).unwrap();
    tc.unify(&n, &var("b"), &bool()).unwrap();
    let once = tc.subst_type(&arrow(var("a"), var("z")));
    let twice = tc.subst_type(&once);
    assert!(*once == *twice);
    assert!(*once == *arrow(arrow(bool(), integer()), var("z")));
}

#[test]
fn unify_returns_the_unified_type() {
    let mut tc = Typecheck::new();
    let n = node();
    let t = tc.unify(&n, &arrow(var("a"), bool()), &arrow(integer(), var("b"))).unwrap();
    assert!(*t == *arrow(integer(), bool()));
    let t = tc.unify(&n, &integer(), &integer()).unwrap();
    assert!(*t == *integer());
    let t = tc.unify(&n, &var("a"), &integer()).unwrap();
    assert!(*t == *integer());
}

#[test]
fn unify_reports_a_mismatch_at_the_node() {
    let mut tc = Typecheck::new();
    let n = node();
    match tc.unify(&n, &integer(), &bool()) {
        Err(TypeError::Mismatch(l, a, b)) => {
            assert_eq!((l.begin, l.end), (4, 9));
            assert_eq!(l.file, "engine");
            assert!(*a == *integer());
            assert!(*b == *bool());
        }
        other => panic!("unexpected: {:?}", other),
    }
    match tc.unify(&n, &arrow(integer(), integer()), &arrow(integer(), bool())) {
        Err(TypeError::Mismatch(_, a, b)) => {
            assert!(*a == *integer());
            assert!(*b == *bool());
        }
        other => panic!("unexpected: {:?}", other),
    }
    match tc.unify(&n, &integer(), &arrow(integer(), bool())) {
        Err(TypeError::Mismatch(_, a, b)) => {
            assert!(*a == *integer());
            assert!(*b == *arrow(integer(), bool()));
        }
        other => panic!("unexpected: {:?}", other),
    }
}

#[test]
fn unify_stops_at_the_first_failure() {
    let mut tc = Typecheck::new();
    let n = node();
    let left = arrow(integer(), arrow(var("a"), integer()));
    let right = arrow(bool(), arrow(integer(), bool()));
    match tc.unify(&n, &left, &right) {
        Err(TypeError::Mismatch(_, a, b)) => {
            assert!(*a == *integer());
            assert!(*b == *bool());
        }
        other => panic!("unexpected: {:?}", other),
    }
    assert!(*tc.subst_type(&var("a")) == *var("a"));
}

#[test]
fn occurs_check_rejects_cycles() {
    let mut tc = Typecheck::new();
    let n = node();
    match tc.unify(&n, &var("a"), &arrow(var("a"), integer())) {
        Err(TypeError::Occur(l, v, t)) => {
            assert_eq!((l.begin, l.end), (4, 9));
            assert!(*v == *var("a"));
            assert!(*t == *arrow(var("a"), integer()));
        }
        other => panic!("unexpected: {:?}", other),
    }
    match tc.unify(&n, &arrow(integer(), var("b")), &var("b")) {
        Err(TypeError::Occur(_, v, t)) => {
            assert!(*v == *var("b"));
            assert!(*t == *arrow(integer(), var("b")));
        }
        other => panic!("unexpected: {:?}", other),
    }
    tc.unify(&n, &var("c"), &arrow(var("d"), integer())).unwrap();
    match tc.unify(&n, &var("d"), &var("c")) {
        Err(TypeError::Occur(_, v, t)) => {
            assert!(*v == *var("d"));
            assert!(*t == *arrow(var("d"), integer()));
        }
        other => panic!("unexpected: {:?}", other),
    }
}

#[test]
fn occur_looks_through_solutions() {
    let mut tc = Typecheck::new();
    let n = node();
    assert!(tc.occur(&ident("a"), &arrow(integer(), var("a"))));
    assert!(!tc.occur(&ident("a"), &arrow(integer(), var("b"))));
    tc.unify(&n, &var("b"), &arrow(var("a"), bool())).unwrap();
    assert!(tc.occur(&ident("a"), &var("b")));
    assert!(!tc.occur(&ident("b"), &var("b")));
    assert!(!tc.occur(&ident("a"), &integer()));
}

#[test]
fn unifying_a_variable_with_itself_solves_nothing() {
    let mut tc = Typecheck::new();
    let n = node();
    let t = tc.unify(&n, &var("a"), &var("a")).unwrap();
    assert!(*t == *var("a"));
    let t = tc.unify(&n, &var("a"), &integer()).unwrap();
    assert!(*t == *integer());
}

#[test]
fn map_vars_rebuilds_the_type() {
    let t = arrow(var("a"), arrow(integer(), var("b")));
    let r = map_vars(&t, &|v: Rc<Type>| match &*v {
        Type::Variable(n) if *n == ident("a") => bool(),
        _ => v,
    });
    assert!(*r == *arrow(bool(), arrow(integer(), var("b"))));
    let r = map_vars(&integer(), &|_v: Rc<Type>| bool());
    assert!(*r == *integer());
}
