use iron_golem::ast::AST;
use iron_golem::names::{ident, typ};
use iron_golem::parser::{parse, parse_type};

#[test]
fn test_parser() {
    let tests = vec![
        "1",
        "false",
        "hello",
        "f(x)",
        "fn(x) { y }",
        "(x)",
        "f(x, y, z)",
        "fn(x, y) { z }",
        "x : int",
        "1 ",
        "x : x -> y -> z",
        "0 : x -> y",
        "f(0) : int -> int",
        "if x { 1 } else { 2 } ",
        "if f(x) { 1 } else { 0 }",
        "f(x)(y)",
        "(x)(y)",
    ];
    for test in tests {
        let res = parse(&format!("test: {}", test), test);
        assert!(res.is_ok(), "parse({}): {:?}", test, res)
    }
}

#[test]
fn parser_test_bad() {
    let tests = vec![
        "-",
        "1.0",
        "'hi'",
        "\"hi\"",
        "(x",
        "fn(x) y",
        "if x 1 else 2",
    ];
    for test in tests {
        let res = parse(&format!("test: {}", test), test);
        assert!(!res.is_ok(), "parse({}): {:?}", test, res)
    }
}

#[test]
fn literals_and_names() {
    match *parse("t", " 42 ").unwrap() {
        AST::Integer(loc, n) => {
            assert_eq!(n, 42);
            assert_eq!((loc.begin, loc.end), (1, 3));
            assert_eq!(loc.file, "t");
        }
        other => panic!("unexpected: {:?}", other),
    }
    match *parse("t", "true").unwrap() {
        AST::Boolean(_, b) => assert!(b),
        other => panic!("unexpected: {:?}", other),
    }
    match *parse("t", "false").unwrap() {
        AST::Boolean(_, b) => assert!(!b),
        other => panic!("unexpected: {:?}", other),
    }
    match *parse("t", "iffy").unwrap() {
        AST::Variable(_, n) => assert!(n == ident("iffy")),
        other => panic!("unexpected: {:?}", other),
    }
}

#[test]
fn integer_literal_limits() {
    match *parse("t", "9223372036854775807").unwrap() {
        AST::Integer(_, n) => assert_eq!(n, i64::MAX),
        other => panic!("unexpected: {:?}", other),
    }
    assert!(parse("t", "9223372036854775808").is_err());
    assert!(parse("t", "99999999999999999999999").is_err());
}

#[test]
fn arguments_are_curried() {
    match *parse("t", "f(x, y)").unwrap() {
        AST::Application(loc, inner, y) => {
            assert_eq!((loc.begin, loc.end), (0, 7));
            assert!(matches!(*y, AST::Variable(_, ref n) if *n == ident("y")));
            match *inner {
                AST::Application(loc, f, x) => {
                    assert_eq!((loc.begin, loc.end), (0, 7));
                    assert!(matches!(*f, AST::Variable(_, ref n) if *n == ident("f")));
                    assert!(matches!(*x, AST::Variable(_, ref n) if *n == ident("x")));
                }
                other => panic!("unexpected: {:?}", other),
            }
        }
        other => panic!("unexpected: {:?}", other),
    }
}

#[test]
fn parameters_are_curried() {
    match *parse("t", "fn(x, y) { z }").unwrap() {
        AST::Abstraction(_, x, inner) => {
            assert!(matches!(*x, AST::Variable(_, ref n) if *n == ident("x")));
            match *inner {
                AST::Abstraction(_, y, z) => {
                    assert!(matches!(*y, AST::Variable(_, ref n) if *n == ident("y")));
                    assert!(matches!(*z, AST::Variable(_, ref n) if *n == ident("z")));
                }
                other => panic!("unexpected: {:?}", other),
            }
        }
        other => panic!("unexpected: {:?}", other),
    }
}

#[test]
fn arrows_nest_to_the_right() {
    match *parse_type("t", "x -> y -> z").unwrap() {
        AST::TyFn(loc, x, rest) => {
            assert_eq!((loc.begin, loc.end), (0, 11));
            assert!(matches!(*x, AST::TyName(_, ref n) if *n == typ("x")));
            match *rest {
                AST::TyFn(loc, y, z) => {
                    assert_eq!((loc.begin, loc.end), (5, 11));
                    assert!(matches!(*y, AST::TyName(_, ref n) if *n == typ("y")));
                    assert!(matches!(*z, AST::TyName(_, ref n) if *n == typ("z")));
                }
                other => panic!("unexpected: {:?}", other),
            }
        }
        other => panic!("unexpected: {:?}", other),
    }
}

#[test]
fn rejects_what_is_not_ascii() {
    let err = parse("file.gol", "caf\u{e9}").unwrap_err();
    assert_eq!(err.file, "file.gol");
    assert!(parse("t", "").is_err());
    assert!(parse("t", "f()").is_err());
    assert!(parse("t", "else").is_err());
    assert!(parse("t", "x y").is_err());
    assert_eq!(parse("t", "x y").unwrap_err().offset, 2);
}

#[test]
fn blanks_may_stand_before_any_token() {
    for src in [
        "f (x)",
        "\tf\n(\r\nx , y )\n",
        "fn ( x : int ) { x }",
        "if\tx\n{ 1 }\nelse\n{ 2 }",
        "x :int->bool",
        "  ( ( x ) ) ",
    ] {
        let res = parse("t", src);
        assert!(res.is_ok(), "parse({:?}): {:?}", src, res);
    }
}

#[test]
fn words_that_begin_like_keywords_are_names() {
    for src in ["iff", "fnord", "truex", "false_", "elsewhere", "_if", "If"] {
        match *parse("t", src).unwrap() {
            AST::Variable(_, n) => assert!(n == ident(src)),
            other => panic!("unexpected: {:?}", other),
        }
    }
    for src in ["if", "fn", "else", "x : if", "x : true", "fn(else) { 1 }"] {
        assert!(parse("t", src).is_err(), "{}", src);
    }
}

#[test]
fn suffixes_share_the_span_of_their_expression() {
    match *parse("t", " f(x) : int").unwrap() {
        AST::Ascription(loc, inner, ty) => {
            assert_eq!((loc.begin, loc.end), (1, 11));
            assert!(matches!(*ty, AST::TyName(ref l, ref n) if *n == typ("int") && (l.begin, l.end) == (8, 11)));
            match *inner {
                AST::Application(loc, f, x) => {
                    assert_eq!((loc.begin, loc.end), (1, 11));
                    assert!(matches!(*f, AST::Variable(ref l, _) if (l.begin, l.end) == (1, 2)));
                    assert!(matches!(*x, AST::Variable(ref l, _) if (l.begin, l.end) == (3, 4)));
                }
                other => panic!("unexpected: {:?}", other),
            }
        }
        other => panic!("unexpected: {:?}", other),
    }
}

#[test]
fn conditionals_and_abstractions_span_their_keywords_to_their_braces() {
    match *parse("t", " if c { 1 } else { 2 }  ").unwrap() {
        AST::If(loc, c, a, b) => {
            assert_eq!((loc.begin, loc.end), (1, 22));
            assert!(matches!(*c, AST::Variable(ref l, _) if (l.begin, l.end) == (4, 5)));
            assert!(matches!(*a, AST::Integer(ref l, 1) if (l.begin, l.end) == (8, 9)));
            assert!(matches!(*b, AST::Integer(ref l, 2) if (l.begin, l.end) == (19, 20)));
        }
        other => panic!("unexpected: {:?}", other),
    }
    match *parse("t", "fn(x: int) { x }").unwrap() {
        AST::Abstraction(loc, param, body) => {
            assert_eq!((loc.begin, loc.end), (0, 16));
            assert!(matches!(*param, AST::Ascription(ref l, _, _) if (l.begin, l.end) == (3, 9)));
            assert!(matches!(*body, AST::Variable(ref l, _) if (l.begin, l.end) == (13, 14)));
        }
        other => panic!("unexpected: {:?}", other),
    }
}

#[test]
fn types_in_parentheses() {
    match *parse_type("t", "(a -> b) -> c").unwrap() {
        AST::TyFn(loc, dom, range) => {
            assert_eq!((loc.begin, loc.end), (1, 13));
            assert!(matches!(*dom, AST::TyFn(ref l, _, _) if (l.begin, l.end) == (1, 7)));
            assert!(matches!(*range, AST::TyName(_, ref n) if *n == typ("c")));
        }
        other => panic!("unexpected: {:?}", other),
    }
    assert!(parse_type("t", "a ->").is_err());
    assert!(parse_type("t", "(a").is_err());
    assert!(parse_type("t", "a b").is_err());
    assert!(parse_type("t", "1").is_err());
}

#[test]
fn a_suffix_that_begins_must_end() {
    for src in ["f(x", "f(x,)", "f(,x)", "x :", "x : (int", "f(x) : ", "f(x)(", "if x { 1 }", "fn(x: int) x"] {
        assert!(parse("t", src).is_err(), "{}", src);
    }
}
