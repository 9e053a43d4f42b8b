use std::rc::Rc;

use iron_golem::ast::{Loc, AST};
use iron_golem::env::TypeEnv;
use iron_golem::globals::{bool, global_env, integer};
use iron_golem::names::{ident, typ, Name};
use iron_golem::parser::{parse, parse_type};
use iron_golem::typecheck::{ast_to_type, typecheck, TypeError};
use iron_golem::types::Type;

fn loc(begin: u32, end: u32) -> Loc {
    Loc { file: "test".to_string(), begin, end }
}

fn arrow(a: Rc<Type>, b: Rc<Type>) -> Rc<Type> {
    Rc::new(Type::Function(a, b))
}

fn check(src: &str) -> Result<Rc<Type>, TypeError> {
    let ast = parse("test", src).expect("parse ok");
    typecheck(&global_env(), &ast)
}

fn denotes(src: &str) -> Rc<Type> {
    let ast = parse_type("expect", src).expect("parse_type ok");
    ast_to_type(&global_env(), &ast).expect("a type")
}

#[test]
fn test_typecheck() {
    let corpus = vec![
        ("1", "int"),
        ("true", "bool"),
        ("add", "int -> int -> int"),
        ("add(1)", "int -> int"),
        ("add(1, 2)", "int"),
        ("mul(sub(3, 1), dec(4))", "int"),
        ("not(iszero(dec(1)))", "bool"),
        ("fn(x: int) { x }", "int -> int"),
        ("fn(x: int, y: bool) { y }", "int -> bool -> bool"),
        ("fn(x: int) { add(x) }", "int -> int -> int"),
        ("fn(f: int -> int) { f(1) }", "(int -> int) -> int"),
        ("fn(f: int -> int) { f }(dec)", "int -> int"),
        ("if iszero(0) { 1 } else { 2 }", "int"),
        ("if true { not } else { fn(b: bool) { b } }", "bool -> bool"),
        ("(1 : int)", "int"),
        ("add(1) : int -> int", "int -> int"),
    ];
    let mut i = 0;
    for (src, expect_src) in corpus {
        i = i + 1;
        println!("checking: {}...", src);
        match (parse("test", src), parse_type("expect", expect_src)) {
            (Ok(ast), Ok(ty_ast)) => {
                println!("test: {}", src);
                let got = typecheck(&global_env(), &ast);
                let ty = ast_to_type(&global_env(), &ty_ast);
                assert!(got.is_ok(), "typecheck({}): {:?}", src, got);
                assert!(ty.is_ok(), "expect: {:?}", ty);
                assert!(
                    got.as_ref().unwrap() == ty.as_ref().unwrap(),
                    "tc({}) = {:?} != {:?}",
                    src,
                    got,
                    ty
                );
            }
            (Err(err), _) => assert!(false, "parse({}): {:?}", src, err),
            (_, Err(err)) => assert!(false, "parse_type({}): {:?}", expect_src, err),
        }
    }
    assert!(i > 0, "found no examples!");
}

#[test]
fn test_corpus_test_bad() {
    let corpus = vec![
        "x",
        "add(true, 1)",
        "add(1, true)",
        "fn(x) { x }",
        "fn(x: nope) { x }",
        "if 1 { 1 } else { 1 }",
        "if true { 1 } else { false }",
        "1(2)",
        "1 : bool",
        "dec(dec)",
        "fn(f: int -> int) { f(f) }",
    ];
    let mut i = 0;
    for src in corpus {
        i = i + 1;
        println!("checking: {}...", src);
        let ast = parse("test", src).expect("parse ok");
        match typecheck(&global_env(), &ast) {
            Err(_) => {
                // OK
            }
            Ok(ty) => {
                assert!(false, "typecheck({}) = {:?}", src, ty)
            }
        }
    }
    assert!(i > 0, "found no examples!");
}

#[test]
fn literal_types() {
    let env = global_env();
    let t = typecheck(&env, &AST::Integer(loc(0, 1), 7)).unwrap();
    assert!(*t == *integer());
    let t = typecheck(&env, &AST::Boolean(loc(0, 4), true)).unwrap();
    assert!(*t == *bool());
    let empty = TypeEnv::empty();
    let t = typecheck(&empty, &AST::Integer(loc(0, 1), -3)).unwrap();
    assert!(*t == *integer());
    let t = typecheck(&empty, &AST::Boolean(loc(0, 4), false)).unwrap();
    assert!(*t == *bool());
}

#[test]
fn unbound_variable_is_reported_at_its_place() {
    let env = global_env();
    let r = typecheck(&env, &AST::Variable(loc(3, 4), ident("x")));
    match r {
        Err(TypeError::UnboundVariable(l, n)) => {
            assert_eq!(l.begin, 3);
            assert_eq!(l.end, 4);
            assert_eq!(l.file, "test");
            assert!(n == ident("x"));
        }
        other => panic!("unexpected: {:?}", other),
    }
    match check("add(1, y)") {
        Err(TypeError::UnboundVariable(l, n)) => {
            assert_eq!((l.begin, l.end), (7, 8));
            assert!(n == ident("y"));
        }
        other => panic!("unexpected: {:?}", other),
    }
}

#[test]
fn application_of_a_bound_function() {
    let a = Rc::new(Type::Primitive(typ("a")));
    let b = Rc::new(Type::Primitive(typ("b")));
    let env = TypeEnv::from_bindings(&[
        (ident("f"), arrow(Rc::clone(&a), Rc::clone(&b))),
        (ident("x"), Rc::clone(&a)),
    ]);
    let app = AST::Application(
        loc(0, 4),
        Box::new(AST::Variable(loc(0, 1), ident("f"))),
        Box::new(AST::Variable(loc(2, 3), ident("x"))),
    );
    let t = typecheck(&env, &app).unwrap();
    assert!(*t == *b);
}

#[test]
fn abstraction_needs_an_ascribed_parameter() {
    let t = check("fn(x: int) { x }").unwrap();
    assert!(*t == *arrow(integer(), integer()));
    match check("fn(x) { x }") {
        Err(TypeError::BadDecl(l)) => assert_eq!((l.begin, l.end), (3, 4)),
        other => panic!("unexpected: {:?}", other),
    }
    match check("fn(1: int) { 1 }") {
        Err(TypeError::BadDecl(l)) => assert_eq!((l.begin, l.end), (3, 9)),
        other => panic!("unexpected: {:?}", other),
    }
    match check("fn(x: nope) { x }") {
        Err(TypeError::UnboundType(l, n)) => {
            assert_eq!((l.begin, l.end), (6, 10));
            assert!(n == typ("nope"));
        }
        other => panic!("unexpected: {:?}", other),
    }
}

#[test]
fn branches_must_agree() {
    let t = check("if true { 1 } else { 2 }").unwrap();
    assert!(*t == *integer());
    match check("if true { 1 } else { false }") {
        Err(TypeError::Mismatch(l, a, b)) => {
            assert_eq!((l.begin, l.end), (0, 28));
            assert!(*a == *integer());
            assert!(*b == *bool());
        }
        other => panic!("unexpected: {:?}", other),
    }
    match check("if 1 { 1 } else { 1 }") {
        Err(TypeError::Mismatch(l, a, b)) => {
            assert_eq!((l.begin, l.end), (3, 4));
            assert!(*a == *integer());
            assert!(*b == *bool());
        }
        other => panic!("unexpected: {:?}", other),
    }
}

#[test]
fn mismatched_argument() {
    match check("add(true, 1)") {
        Err(TypeError::Mismatch(l, a, b)) => {
            assert_eq!((l.begin, l.end), (0, 12));
            assert!(*a == *bool());
            assert!(*b == *integer());
        }
        other => panic!("unexpected: {:?}", other),
    }
}

#[test]
fn applying_what_is_no_function() {
    match check("1(2)") {
        Err(TypeError::Mismatch(_, a, b)) => {
            assert!(matches!(*a, Type::Function(_, _)));
            assert!(*b == *integer());
        }
        other => panic!("unexpected: {:?}", other),
    }
}

#[test]
fn parameter_does_not_leak() {
    let env = global_env();
    let abs = parse("test", "fn(x: int) { x }").unwrap();
    let t = typecheck(&env, &abs).unwrap();
    assert!(*t == *arrow(integer(), integer()));
    let var = parse("test", "x").unwrap();
    match typecheck(&env, &var) {
        Err(TypeError::UnboundVariable(l, n)) => {
            assert_eq!((l.begin, l.end), (0, 1));
            assert!(n == ident("x"));
        }
        other => panic!("unexpected: {:?}", other),
    }
}

#[test]
fn inner_parameter_hides_outer() {
    let t = check("fn(x: int) { fn(x: bool) { x } }").unwrap();
    assert!(*t == *arrow(integer(), arrow(bool(), bool())));
}

#[test]
fn ascription_checks_the_type() {
    let t = check("dec(1) : int").unwrap();
    assert!(*t == *integer());
    match check("1 : bool") {
        Err(TypeError::Mismatch(l, a, b)) => {
            assert_eq!((l.begin, l.end), (0, 8));
            assert!(*a == *integer());
            assert!(*b == *bool());
        }
        other => panic!("unexpected: {:?}", other),
    }
}

#[test]
fn variables_of_the_environment_are_solved() {
    let v = Rc::new(Type::Variable(ident("a")));
    let env = TypeEnv::with_bindings(
        &global_env(),
        &[(ident("id"), arrow(Rc::clone(&v), Rc::clone(&v)))],
    );
    let ast = parse("test", "id(1)").unwrap();
    let t = typecheck(&env, &ast).unwrap();
    assert!(*t == *integer());
    let ast = parse("test", "id").unwrap();
    let t = typecheck(&env, &ast).unwrap();
    assert!(*t == *arrow(Rc::clone(&v), Rc::clone(&v)));
}

#[test]
fn self_application_fails_the_occurs_check() {
    let v = Rc::new(Type::Variable(ident("a")));
    let env = TypeEnv::from_bindings(&[(ident("f"), Rc::clone(&v))]);
    let ast = parse("test", "f(f)").unwrap();
    match typecheck(&env, &ast) {
        Err(TypeError::Occur(l, var, ty)) => {
            assert_eq!((l.begin, l.end), (0, 4));
            assert!(*var == *v);
            assert!(matches!(*ty, Type::Function(_, _)));
        }
        other => panic!("unexpected: {:?}", other),
    }
}

#[test]
fn type_expressions() {
    assert!(*denotes("int") == *integer());
    assert!(*denotes("int -> bool -> int") == *arrow(integer(), arrow(bool(), integer())));
    assert!(*denotes("(int -> bool) -> int") == *arrow(arrow(integer(), bool()), integer()));
    let env = global_env();
    let unknown = parse_type("t", "int -> what").unwrap();
    match ast_to_type(&env, &unknown) {
        Err(TypeError::UnboundType(l, n)) => {
            assert_eq!((l.begin, l.end), (7, 11));
            assert!(n == Name::Type("what".to_string()));
        }
        other => panic!("unexpected: {:?}", other),
    }
    match ast_to_type(&env, &AST::Integer(loc(2, 3), 1)) {
        Err(TypeError::BadType(l)) => assert_eq!((l.begin, l.end), (2, 3)),
        other => panic!("unexpected: {:?}", other),
    }
}

#[test]
fn type_expression_is_no_expression() {
    let env = global_env();
    match typecheck(&env, &AST::TyName(loc(1, 4), typ("int"))) {
        Err(TypeError::Generic(l, msg)) => {
            assert_eq!((l.begin, l.end), (1, 4));
            assert_eq!(msg, "Unimplemented");
        }
        other => panic!("unexpected: {:?}", other),
    }
}
