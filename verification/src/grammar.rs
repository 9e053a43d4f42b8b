//! The concrete syntax, as functions from the source text to the syntax
//! tree that it denotes.
//!
//! ```text
//! program     = expression end-of-text
//! expression  = atom { "(" arguments ")" | ":" type }
//! atom        = "(" expression ")" | number | "true" | "false" | name
//!             | "if" expression block "else" block
//!             | "fn" "(" arguments ")" block
//! arguments   = expression { "," expression }
//! block       = "{" expression "}"
//! type        = type-atom [ "->" type ]
//! type-atom   = "(" type ")" | name
//! ```
//!
//! Blanks may stand before any token. A name is a word that is no keyword.
//! Several arguments or parameters are curried: `f(x, y)` is `f(x)(y)`, and
//! `fn(x, y) { e }` is `fn(x) { fn(y) { e } }`. Every application and
//! ascription made from the suffixes of one expression has the span of that
//! whole expression.
//!
//! Each function takes the position to begin at and gives the piece parsed
//! there with the position after it. Where a piece is followed by another,
//! the first must end after the position that parsing began at and within
//! the text; every piece does.

use vstd::prelude::*;
use crate::ast::{AstView, LocView};
use crate::lexer::{at, classify, digits_end, number, skip_space, word_end, is_digit, is_word_start, Word};
use crate::names::NameView;

verus! {

/// A parsed piece of the text: the tree, where its first token begins, and
/// where its last token ends.
pub ghost struct Piece {
    pub node: AstView,
    pub begin: int,
    pub end: int,
}

/// What may follow an atom: a list of arguments, or an ascribed type.
pub ghost enum Suffix {
    Args(Seq<AstView>),
    Ascribe(AstView),
}

/// The span from `begin` to `end` in the file `path`.
pub open spec fn span(path: Seq<char>, begin: int, end: int) -> LocView {
    LocView { file: path, begin: begin as u32, end: end as u32 }
}

/// `func` applied to the arguments one after the other, each application
/// at `loc`.
pub open spec fn apply_args(loc: LocView, func: AstView, args: Seq<AstView>) -> AstView
    decreases args.len(),
{
    if args.len() == 0 {
        func
    } else {
        apply_args(
            loc,
            AstView::Application(loc, Box::new(func), Box::new(args.first())),
            args.drop_first(),
        )
    }
}

/// `node` with the suffixes put on one after the other, each at `loc`.
pub open spec fn apply_suffixes(loc: LocView, node: AstView, suffixes: Seq<Suffix>) -> AstView
    decreases suffixes.len(),
{
    if suffixes.len() == 0 {
        node
    } else {
        let next = match suffixes.first() {
            Suffix::Args(args) => apply_args(loc, node, args),
            Suffix::Ascribe(ty) => AstView::Ascription(loc, Box::new(node), Box::new(ty)),
        };
        apply_suffixes(loc, next, suffixes.drop_first())
    }
}

/// The function of the parameters, one after the other, with the body
/// `body`; each abstraction at `loc`.
pub open spec fn abstract_over(loc: LocView, params: Seq<AstView>, body: AstView) -> AstView
    decreases params.len(),
{
    if params.len() == 0 {
        body
    } else {
        abstract_over(
            loc,
            params.drop_last(),
            AstView::Abstraction(loc, Box::new(params.last()), Box::new(body)),
        )
    }
}

/// A type atom at `pos`: a type in parentheses, or a name.
pub open spec fn type_atom(path: Seq<char>, s: Seq<char>, pos: int) -> Option<Piece>
    decreases s.len() - pos, 0int,
{
    let p = skip_space(s, pos);
    if !(0 <= pos <= p < s.len()) {
        None
    } else if s[p] == '(' {
        match type_expr(path, s, p + 1) {
            Some(inner) => {
                let q = skip_space(s, inner.end);
                if at(s, q, ')') {
                    Some(Piece { node: inner.node, begin: p, end: q + 1 })
                } else {
                    None
                }
            },
            None => None,
        }
    } else if is_word_start(s[p]) {
        let e = word_end(s, p);
        if classify(s.subrange(p, e)) == Word::Name {
            Some(
                Piece {
                    node: AstView::TyName(span(path, p, e), NameView::Type(s.subrange(p, e))),
                    begin: p,
                    end: e,
                },
            )
        } else {
            None
        }
    } else {
        None
    }
}

/// A type at `pos`: a type atom, or a function type from a type atom to a
/// type. A function type spans from where its domain's node begins to
/// where the whole type ends.
pub open spec fn type_expr(path: Seq<char>, s: Seq<char>, pos: int) -> Option<Piece>
    decreases s.len() - pos, 1int,
{
    match type_atom(path, s, pos) {
        Some(dom) => {
            let q = skip_space(s, dom.end);
            if at(s, q, '-') && at(s, q + 1, '>') {
                if pos < q + 2 <= s.len() {
                    match type_expr(path, s, q + 2) {
                        Some(range) => Some(
                            Piece {
                                node: AstView::TyFn(
                                    LocView {
                                        file: path,
                                        begin: dom.node.loc().begin,
                                        end: range.end as u32,
                                    },
                                    Box::new(dom.node),
                                    Box::new(range.node),
                                ),
                                begin: dom.begin,
                                end: range.end,
                            },
                        ),
                        None => None,
                    }
                } else {
                    None
                }
            } else {
                Some(dom)
            }
        },
        None => None,
    }
}

/// An atom at `pos`.
pub open spec fn atom(path: Seq<char>, s: Seq<char>, pos: int) -> Option<Piece>
    decreases s.len() - pos, 0int,
{
    let p = skip_space(s, pos);
    if !(0 <= pos <= p < s.len()) {
        None
    } else if s[p] == '(' {
        match expression(path, s, p + 1) {
            Some(inner) => {
                let q = skip_space(s, inner.end);
                if at(s, q, ')') {
                    Some(Piece { node: inner.node, begin: p, end: q + 1 })
                } else {
                    None
                }
            },
            None => None,
        }
    } else if is_digit(s[p]) {
        let e = digits_end(s, p);
        let n = number(s.subrange(p, e));
        if n <= i64::MAX {
            Some(Piece { node: AstView::Integer(span(path, p, e), n as i64), begin: p, end: e })
        } else {
            None
        }
    } else if is_word_start(s[p]) {
        let e = word_end(s, p);
        match classify(s.subrange(p, e)) {
            Word::Name => Some(
                Piece {
                    node: AstView::Variable(span(path, p, e), NameView::Ident(s.subrange(p, e))),
                    begin: p,
                    end: e,
                },
            ),
            Word::True => Some(
                Piece { node: AstView::Boolean(span(path, p, e), true), begin: p, end: e },
            ),
            Word::False => Some(
                Piece { node: AstView::Boolean(span(path, p, e), false), begin: p, end: e },
            ),
            Word::If => if pos < e <= s.len() {
                conditional(path, s, p, e)
            } else {
                None
            },
            Word::Fn => if pos < e <= s.len() {
                abstraction(path, s, p, e)
            } else {
                None
            },
            Word::Else => None,
        }
    } else {
        None
    }
}

/// A block at `pos`: an expression in braces.
pub open spec fn block(path: Seq<char>, s: Seq<char>, pos: int) -> Option<Piece>
    decreases s.len() - pos, 0int,
{
    let p = skip_space(s, pos);
    if 0 <= pos <= p && at(s, p, '{') {
        match expression(path, s, p + 1) {
            Some(inner) => {
                let q = skip_space(s, inner.end);
                if at(s, q, '}') {
                    Some(Piece { node: inner.node, begin: p, end: q + 1 })
                } else {
                    None
                }
            },
            None => None,
        }
    } else {
        None
    }
}

/// The rest of a conditional whose `if` stands from `begin` to `pos`.
pub open spec fn conditional(path: Seq<char>, s: Seq<char>, begin: int, pos: int) -> Option<Piece>
    decreases s.len() - pos, 2int,
{
    match expression(path, s, pos) {
        Some(cond) => if pos < cond.end <= s.len() {
            match block(path, s, cond.end) {
                Some(cons) => {
                    let p = skip_space(s, cons.end);
                    let e = word_end(s, p);
                    if classify(s.subrange(p, e)) == Word::Else && pos < e <= s.len() {
                        match block(path, s, e) {
                            Some(alt) => Some(
                                Piece {
                                    node: AstView::If(
                                        span(path, begin, alt.end),
                                        Box::new(cond.node),
                                        Box::new(cons.node),
                                        Box::new(alt.node),
                                    ),
                                    begin: begin,
                                    end: alt.end,
                                },
                            ),
                            None => None,
                        }
                    } else {
                        None
                    }
                },
                None => None,
            }
        } else {
            None
        },
        None => None,
    }
}

/// The rest of an abstraction whose `fn` stands from `begin` to `pos`.
pub open spec fn abstraction(path: Seq<char>, s: Seq<char>, begin: int, pos: int) -> Option<Piece>
    decreases s.len() - pos, 0int,
{
    let p = skip_space(s, pos);
    if 0 <= pos <= p && at(s, p, '(') {
        match arguments(path, s, p + 1) {
            Some((params, end)) => {
                let q = skip_space(s, end);
                if at(s, q, ')') && pos < q + 1 {
                    match block(path, s, q + 1) {
                        Some(body) => Some(
                            Piece {
                                node: abstract_over(span(path, begin, body.end), params, body.node),
                                begin: begin,
                                end: body.end,
                            },
                        ),
                        None => None,
                    }
                } else {
                    None
                }
            },
            None => None,
        }
    } else {
        None
    }
}

/// One or more expressions at `pos`, with commas between them, and the
/// position after the last.
pub open spec fn arguments(path: Seq<char>, s: Seq<char>, pos: int) -> Option<(Seq<AstView>, int)>
    decreases s.len() - pos, 2int,
{
    match expression(path, s, pos) {
        Some(first) => {
            let q = skip_space(s, first.end);
            if at(s, q, ',') {
                if pos < q + 1 {
                    match arguments(path, s, q + 1) {
                        Some((rest, end)) => Some((seq![first.node] + rest, end)),
                        None => None,
                    }
                } else {
                    None
                }
            } else {
                Some((seq![first.node], first.end))
            }
        },
        None => None,
    }
}

/// The suffixes at `pos`, and the position after the last. A suffix that
/// begins and does not end is an error.
pub open spec fn suffixes(path: Seq<char>, s: Seq<char>, pos: int) -> Option<(Seq<Suffix>, int)>
    decreases s.len() - pos, 0int,
{
    let p = skip_space(s, pos);
    if 0 <= pos <= p && at(s, p, '(') {
        match arguments(path, s, p + 1) {
            Some((args, end)) => {
                let q = skip_space(s, end);
                if at(s, q, ')') && pos < q + 1 {
                    match suffixes(path, s, q + 1) {
                        Some((rest, last)) => Some((seq![Suffix::Args(args)] + rest, last)),
                        None => None,
                    }
                } else {
                    None
                }
            },
            None => None,
        }
    } else if 0 <= pos <= p && at(s, p, ':') {
        match type_expr(path, s, p + 1) {
            Some(ty) => if pos < ty.end <= s.len() {
                match suffixes(path, s, ty.end) {
                    Some((rest, last)) => Some((seq![Suffix::Ascribe(ty.node)] + rest, last)),
                    None => None,
                }
            } else {
                None
            },
            None => None,
        }
    } else {
        Some((Seq::empty(), pos))
    }
}

/// An expression at `pos`: an atom with its suffixes.
pub open spec fn expression(path: Seq<char>, s: Seq<char>, pos: int) -> Option<Piece>
    decreases s.len() - pos, 1int,
{
    match atom(path, s, pos) {
        Some(head) => if pos < head.end <= s.len() {
            match suffixes(path, s, head.end) {
                Some((list, end)) => Some(
                    Piece {
                        node: apply_suffixes(span(path, head.begin, end), head.node, list),
                        begin: head.begin,
                        end: end,
                    },
                ),
                None => None,
            }
        } else {
            None
        },
        None => None,
    }
}

/// The tree of a text that is one expression, blanks aside.
pub open spec fn program(path: Seq<char>, s: Seq<char>) -> Option<AstView> {
    match expression(path, s, 0) {
        Some(e) => if skip_space(s, e.end) == s.len() {
            Some(e.node)
        } else {
            None
        },
        None => None,
    }
}

/// The tree of a text that is one type, blanks aside.
pub open spec fn type_program(path: Seq<char>, s: Seq<char>) -> Option<AstView> {
    match type_expr(path, s, 0) {
        Some(t) => if skip_space(s, t.end) == s.len() {
            Some(t.node)
        } else {
            None
        },
        None => None,
    }
}

} // verus!
