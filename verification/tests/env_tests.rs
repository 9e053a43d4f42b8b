use std::rc::Rc;

use iron_golem::env::TypeEnv;
use iron_golem::globals::{bool, global_env, integer};
use iron_golem::names::{ident, typ, Name};
use iron_golem::types::Type;

fn arrow(a: Rc<Type>, b: Rc<Type>) -> Rc<Type> {
    Rc::new(Type::Function(a, b))
}

#[test]
fn empty_binds_nothing() {
    let env = TypeEnv::empty();
    assert!(env.lookup(&ident("x")).is_none());
    assert!(env.lookup_type(&typ("int")).is_none());
}

#[test]
fn later_binding_in_a_frame_wins() {
    let env = TypeEnv::from_bindings(&[(ident("x"), integer()), (ident("x"), bool())]);
    assert!(*env.lookup(&ident("x")).unwrap() == *bool());
    assert!(env.lookup(&ident("y")).is_none());
    assert!(env.lookup_type(&ident("x")).is_none());
}

#[test]
fn child_hides_parent_and_leaves_it_alone() {
    let parent = TypeEnv::from_bindings(&[(ident("x"), integer()), (ident("y"), integer())]);
    let child = TypeEnv::with_bindings(&parent, &[(ident("x"), bool())]);
    let sibling = TypeEnv::with_bindings(&parent, &[(ident("z"), bool())]);
    assert!(*child.lookup(&ident("x")).unwrap() == *bool());
    assert!(*child.lookup(&ident("y")).unwrap() == *integer());
    assert!(child.lookup(&ident("z")).is_none());
    assert!(*sibling.lookup(&ident("x")).unwrap() == *integer());
    assert!(*sibling.lookup(&ident("z")).unwrap() == *bool());
    assert!(*parent.lookup(&ident("x")).unwrap() == *integer());
    assert!(parent.lookup(&ident("z")).is_none());
}

#[test]
fn namespaces_are_apart() {
    let root = TypeEnv::from_types(&[(typ("int"), integer())]);
    assert!(*root.lookup_type(&typ("int")).unwrap() == *integer());
    assert!(root.lookup(&typ("int")).is_none());
    let child = TypeEnv::with_bindings(&root, &[(ident("int"), bool())]);
    assert!(*child.lookup_type(&typ("int")).unwrap() == *integer());
    assert!(*child.lookup(&ident("int")).unwrap() == *bool());
    assert!(child.lookup_type(&ident("int")).is_none());
}

#[test]
fn names_compare_by_flavor_and_payload() {
    assert!(ident("x") == ident("x"));
    assert!(ident("x") != ident("y"));
    assert!(ident("x") != typ("x"));
    let u1 = Name::Unique(Box::new(ident("x")), 1);
    let u2 = Name::Unique(Box::new(ident("x")), 2);
    let u3 = Name::Unique(Box::new(typ("x")), 1);
    assert!(u1 == u1.clone());
    assert!(u1 != u2);
    assert!(u1 != u3);
    assert!(u1 != ident("x"));
}

#[test]
fn global_environment() {
    let env = global_env();
    let binary = arrow(integer(), arrow(integer(), integer()));
    assert!(*env.lookup(&ident("add")).unwrap() == *binary);
    assert!(*env.lookup(&ident("sub")).unwrap() == *binary);
    assert!(*env.lookup(&ident("mul")).unwrap() == *binary);
    assert!(*env.lookup(&ident("dec")).unwrap() == *arrow(integer(), integer()));
    assert!(*env.lookup(&ident("iszero")).unwrap() == *arrow(integer(), bool()));
    assert!(*env.lookup(&ident("not")).unwrap() == *arrow(bool(), bool()));
    assert!(*env.lookup_type(&typ("int")).unwrap() == *integer());
    assert!(*env.lookup_type(&typ("bool")).unwrap() == *bool());
    assert!(env.lookup(&ident("int")).is_none());
    assert!(env.lookup_type(&typ("add")).is_none());
    assert!(*integer() == Type::Primitive(typ("int")));
    assert!(*bool() == Type::Primitive(typ("bool")));
    assert!(*integer() != *bool());
}

#[test]
fn names_as_text() {
    assert_eq!(ident("x").to_text(), "x");
    assert_eq!(typ("int").to_text(), "int");
    assert_eq!(Name::Unique(Box::new(typ("rv")), 12).to_text(), "rv$12");
    assert_eq!(Name::Unique(Box::new(ident("a")), 0).to_text(), "a$0");
    assert_eq!(Name::Unique(Box::new(ident("a")), -7).to_text(), "a$-7");
    assert_eq!(Name::Unique(Box::new(ident("a")), i32::MIN).to_text(), "a$-2147483648");
    assert_eq!(Name::Unique(Box::new(ident("a")), i32::MAX).to_text(), "a$2147483647");
    let nested = Name::Unique(Box::new(Name::Unique(Box::new(ident("a")), 1)), 20);
    assert_eq!(nested.to_text(), "a$1$20");
}
