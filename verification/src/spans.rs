//! Every node of a parsed tree carries a valid span: it names the file
//! that was parsed and lies, begin before end, within the text.

use vstd::prelude::*;
use crate::ast::{AstView, LocView};
use crate::grammar::{
    abstract_over, abstraction, apply_args, apply_suffixes, arguments, atom, block, conditional,
    expression, program, span, suffixes, type_atom, type_expr, type_program, Piece, Suffix,
};
use crate::lexer::{at, lemma_digits_end, lemma_skip_space, lemma_word_end, skip_space, word_end};

verus! {

/// The span names the file `path` and lies, begin before end, within a
/// text of `len` bytes.
pub open spec fn valid_span(loc: LocView, path: Seq<char>, len: int) -> bool {
    loc.file == path && loc.begin <= loc.end && loc.end <= len
}

/// Every node of the tree has a valid span.
pub open spec fn located(ast: AstView, path: Seq<char>, len: int) -> bool
    decreases ast,
{
    valid_span(ast.loc(), path, len) && match ast {
        AstView::Application(_, a, b) => located(*a, path, len) && located(*b, path, len),
        AstView::Abstraction(_, a, b) => located(*a, path, len) && located(*b, path, len),
        AstView::Ascription(_, a, b) => located(*a, path, len) && located(*b, path, len),
        AstView::TyFn(_, a, b) => located(*a, path, len) && located(*b, path, len),
        AstView::If(_, a, b, c) => located(*a, path, len) && located(*b, path, len) && located(
            *c,
            path,
            len,
        ),
        _ => true,
    }
}

/// Every tree of the list has valid spans.
pub open spec fn all_located(list: Seq<AstView>, path: Seq<char>, len: int) -> bool {
    forall|i: int| 0 <= i < list.len() ==> located(#[trigger] list[i], path, len)
}

/// Every tree in every suffix of the list has valid spans.
pub open spec fn suffixes_located(list: Seq<Suffix>, path: Seq<char>, len: int) -> bool {
    forall|i: int|
        0 <= i < list.len() ==> match #[trigger] list[i] {
            Suffix::Args(args) => all_located(args, path, len),
            Suffix::Ascribe(ty) => located(ty, path, len),
        }
}

/// The piece was parsed at or after `pos`: it lies within the text, and
/// its tree has valid spans that end where the piece ends or before.
pub open spec fn sound_piece(p: Piece, path: Seq<char>, s: Seq<char>, pos: int) -> bool {
    &&& pos <= p.begin <= p.end <= s.len()
    &&& located(p.node, path, s.len() as int)
    &&& p.node.loc().end <= p.end
}

/// Applying a located function to located arguments gives a located tree.
proof fn lemma_apply_args(loc: LocView, func: AstView, args: Seq<AstView>, path: Seq<char>, len: int)
    requires
        valid_span(loc, path, len),
        located(func, path, len),
        all_located(args, path, len),
    ensures
        located(apply_args(loc, func, args), path, len),
        args.len() > 0 ==> apply_args(loc, func, args).loc() == loc,
        args.len() == 0 ==> apply_args(loc, func, args) == func,
    decreases args.len(),
{
    if args.len() > 0 {
        let next = AstView::Application(loc, Box::new(func), Box::new(args.first()));
        assert(located(args[0], path, len));
        assert forall|i: int| 0 <= i < args.drop_first().len() implies located(
            #[trigger] args.drop_first()[i],
            path,
            len,
        ) by {
            assert(args.drop_first()[i] == args[i + 1]);
        }
        lemma_apply_args(loc, next, args.drop_first(), path, len);
    }
}

/// Putting located suffixes on a located tree gives a located tree.
proof fn lemma_apply_suffixes(
    loc: LocView,
    node: AstView,
    list: Seq<Suffix>,
    path: Seq<char>,
    len: int,
)
    requires
        valid_span(loc, path, len),
        located(node, path, len),
        node.loc().end <= loc.end,
        suffixes_located(list, path, len),
    ensures
        located(apply_suffixes(loc, node, list), path, len),
        apply_suffixes(loc, node, list).loc().end <= loc.end,
    decreases list.len(),
{
    if list.len() > 0 {
        let first = list[0];
        let next = match first {
            Suffix::Args(args) => apply_args(loc, node, args),
            Suffix::Ascribe(ty) => AstView::Ascription(loc, Box::new(node), Box::new(ty)),
        };
        match first {
            Suffix::Args(args) => {
                lemma_apply_args(loc, node, args, path, len);
            },
            Suffix::Ascribe(ty) => {},
        }
        assert forall|i: int| 0 <= i < list.drop_first().len() implies match #[trigger] list.drop_first()[i] {
            Suffix::Args(args) => all_located(args, path, len),
            Suffix::Ascribe(ty) => located(ty, path, len),
        } by {
            assert(list.drop_first()[i] == list[i + 1]);
        }
        lemma_apply_suffixes(loc, next, list.drop_first(), path, len);
    }
}

/// Abstracting a located body over located parameters gives a located tree.
proof fn lemma_abstract_over(
    loc: LocView,
    params: Seq<AstView>,
    body: AstView,
    path: Seq<char>,
    len: int,
)
    requires
        valid_span(loc, path, len),
        located(body, path, len),
        body.loc().end <= loc.end,
        all_located(params, path, len),
    ensures
        located(abstract_over(loc, params, body), path, len),
        abstract_over(loc, params, body).loc().end <= loc.end,
    decreases params.len(),
{
    if params.len() > 0 {
        let next = AstView::Abstraction(loc, Box::new(params.last()), Box::new(body));
        assert(located(params[params.len() - 1], path, len));
        assert forall|i: int| 0 <= i < params.drop_last().len() implies located(
            #[trigger] params.drop_last()[i],
            path,
            len,
        ) by {
            assert(params.drop_last()[i] == params[i]);
        }
        lemma_abstract_over(loc, params.drop_last(), next, path, len);
    }
}

/// A type atom is a sound piece.
proof fn lemma_type_atom(path: Seq<char>, s: Seq<char>, pos: int)
    requires
        0 <= pos <= s.len() <= u32::MAX,
    ensures
        type_atom(path, s, pos) matches Some(p) ==> sound_piece(p, path, s, pos),
    decreases s.len() - pos, 0int,
{
    let p = skip_space(s, pos);
    lemma_skip_space(s, pos);
    if p < s.len() {
        if s[p] == '(' {
            lemma_type_expr(path, s, p + 1);
            if let Some(inner) = type_expr(path, s, p + 1) {
                lemma_skip_space(s, inner.end);
            }
        } else {
            lemma_word_end(s, p);
        }
    }
}

/// A type is a sound piece.
proof fn lemma_type_expr(path: Seq<char>, s: Seq<char>, pos: int)
    requires
        0 <= pos <= s.len() <= u32::MAX,
    ensures
        type_expr(path, s, pos) matches Some(p) ==> sound_piece(p, path, s, pos),
    decreases s.len() - pos, 1int,
{
    lemma_type_atom(path, s, pos);
    if let Some(dom) = type_atom(path, s, pos) {
        let q = skip_space(s, dom.end);
        lemma_skip_space(s, dom.end);
        if at(s, q, '-') && at(s, q + 1, '>') {
            lemma_type_expr(path, s, q + 2);
        }
    }
}

/// An atom is a sound piece.
proof fn lemma_atom(path: Seq<char>, s: Seq<char>, pos: int)
    requires
        0 <= pos <= s.len() <= u32::MAX,
    ensures
        atom(path, s, pos) matches Some(p) ==> sound_piece(p, path, s, pos),
    decreases s.len() - pos, 0int,
{
    let p = skip_space(s, pos);
    lemma_skip_space(s, pos);
    if p < s.len() {
        if s[p] == '(' {
            lemma_expression(path, s, p + 1);
            if let Some(inner) = expression(path, s, p + 1) {
                lemma_skip_space(s, inner.end);
            }
        } else if crate::lexer::is_digit(s[p]) {
            lemma_digits_end(s, p);
        } else if crate::lexer::is_word_start(s[p]) {
            lemma_word_end(s, p);
            let e = word_end(s, p);
            lemma_conditional(path, s, p, e);
            lemma_abstraction(path, s, p, e);
        }
    }
}

/// A block is a sound piece.
proof fn lemma_block(path: Seq<char>, s: Seq<char>, pos: int)
    requires
        0 <= pos <= s.len() <= u32::MAX,
    ensures
        block(path, s, pos) matches Some(p) ==> sound_piece(p, path, s, pos),
    decreases s.len() - pos, 0int,
{
    let p = skip_space(s, pos);
    lemma_skip_space(s, pos);
    if at(s, p, '{') {
        lemma_expression(path, s, p + 1);
        if let Some(inner) = expression(path, s, p + 1) {
            lemma_skip_space(s, inner.end);
        }
    }
}

/// A conditional is a sound piece that begins at its `if`.
proof fn lemma_conditional(path: Seq<char>, s: Seq<char>, begin: int, pos: int)
    requires
        0 <= begin <= pos <= s.len() <= u32::MAX,
    ensures
        conditional(path, s, begin, pos) matches Some(p) ==> sound_piece(p, path, s, begin)
            && p.begin == begin,
    decreases s.len() - pos, 2int,
{
    lemma_expression(path, s, pos);
    if let Some(cond) = expression(path, s, pos) {
        if pos < cond.end <= s.len() {
            lemma_block(path, s, cond.end);
            if let Some(cons) = block(path, s, cond.end) {
                let p = skip_space(s, cons.end);
                lemma_skip_space(s, cons.end);
                lemma_word_end(s, p);
                let e = word_end(s, p);
                if pos < e <= s.len() {
                    lemma_block(path, s, e);
                }
            }
        }
    }
}

/// An abstraction is a sound piece that begins at its `fn`.
proof fn lemma_abstraction(path: Seq<char>, s: Seq<char>, begin: int, pos: int)
    requires
        0 <= begin <= pos <= s.len() <= u32::MAX,
    ensures
        abstraction(path, s, begin, pos) matches Some(p) ==> sound_piece(p, path, s, begin)
            && p.begin == begin,
    decreases s.len() - pos, 0int,
{
    let p = skip_space(s, pos);
    lemma_skip_space(s, pos);
    if at(s, p, '(') {
        lemma_arguments(path, s, p + 1);
        if let Some((params, end)) = arguments(path, s, p + 1) {
            let q = skip_space(s, end);
            lemma_skip_space(s, end);
            if at(s, q, ')') {
                lemma_block(path, s, q + 1);
                if let Some(body) = block(path, s, q + 1) {
                    lemma_abstract_over(
                        span(path, begin, body.end),
                        params,
                        body.node,
                        path,
                        s.len() as int,
                    );
                }
            }
        }
    }
}

/// Arguments are located and end within the text.
proof fn lemma_arguments(path: Seq<char>, s: Seq<char>, pos: int)
    requires
        0 <= pos <= s.len() <= u32::MAX,
    ensures
        arguments(path, s, pos) matches Some((list, end)) ==> all_located(
            list,
            path,
            s.len() as int,
        ) && pos <= end <= s.len(),
    decreases s.len() - pos, 2int,
{
    lemma_expression(path, s, pos);
    if let Some(first) = expression(path, s, pos) {
        let q = skip_space(s, first.end);
        lemma_skip_space(s, first.end);
        if at(s, q, ',') {
            lemma_arguments(path, s, q + 1);
            if let Some((rest, end)) = arguments(path, s, q + 1) {
                let list = seq![first.node] + rest;
                assert forall|i: int| 0 <= i < list.len() implies located(
                    #[trigger] list[i],
                    path,
                    s.len() as int,
                ) by {
                    if i > 0 {
                        assert(list[i] == rest[i - 1]);
                    }
                }
            }
        }
    }
}

/// Suffixes are located and end within the text.
proof fn lemma_suffixes(path: Seq<char>, s: Seq<char>, pos: int)
    requires
        0 <= pos <= s.len() <= u32::MAX,
    ensures
        suffixes(path, s, pos) matches Some((list, end)) ==> suffixes_located(
            list,
            path,
            s.len() as int,
        ) && pos <= end <= s.len(),
    decreases s.len() - pos, 0int,
{
    let p = skip_space(s, pos);
    lemma_skip_space(s, pos);
    if at(s, p, '(') {
        lemma_arguments(path, s, p + 1);
        if let Some((args, end)) = arguments(path, s, p + 1) {
            let q = skip_space(s, end);
            lemma_skip_space(s, end);
            if at(s, q, ')') {
                lemma_suffixes(path, s, q + 1);
                if let Some((rest, last)) = suffixes(path, s, q + 1) {
                    let list = seq![Suffix::Args(args)] + rest;
                    assert forall|i: int| 0 <= i < list.len() implies match #[trigger] list[i] {
                        Suffix::Args(args) => all_located(args, path, s.len() as int),
                        Suffix::Ascribe(ty) => located(ty, path, s.len() as int),
                    } by {
                        if i > 0 {
                            assert(list[i] == rest[i - 1]);
                        }
                    }
                }
            }
        }
    } else if at(s, p, ':') {
        lemma_type_expr(path, s, p + 1);
        if let Some(ty) = type_expr(path, s, p + 1) {
            if pos < ty.end <= s.len() {
                lemma_suffixes(path, s, ty.end);
                if let Some((rest, last)) = suffixes(path, s, ty.end) {
                    let list = seq![Suffix::Ascribe(ty.node)] + rest;
                    assert forall|i: int| 0 <= i < list.len() implies match #[trigger] list[i] {
                        Suffix::Args(args) => all_located(args, path, s.len() as int),
                        Suffix::Ascribe(ty) => located(ty, path, s.len() as int),
                    } by {
                        if i > 0 {
                            assert(list[i] == rest[i - 1]);
                        }
                    }
                }
            }
        }
    }
}

/// An expression is a sound piece.
proof fn lemma_expression(path: Seq<char>, s: Seq<char>, pos: int)
    requires
        0 <= pos <= s.len() <= u32::MAX,
    ensures
        expression(path, s, pos) matches Some(p) ==> sound_piece(p, path, s, pos),
    decreases s.len() - pos, 1int,
{
    lemma_atom(path, s, pos);
    if let Some(head) = atom(path, s, pos) {
        if pos < head.end <= s.len() {
            lemma_suffixes(path, s, head.end);
            if let Some((list, end)) = suffixes(path, s, head.end) {
                lemma_apply_suffixes(
                    span(path, head.begin, end),
                    head.node,
                    list,
                    path,
                    s.len() as int,
                );
            }
        }
    }
}

/// Every node of a parsed expression has a valid span.
pub proof fn law_program_located(path: Seq<char>, s: Seq<char>)
    requires
        s.len() <= u32::MAX,
    ensures
        program(path, s) matches Some(ast) ==> located(ast, path, s.len() as int),
{
    lemma_expression(path, s, 0);
}

/// Every node of a parsed type has a valid span.
pub proof fn law_type_program_located(path: Seq<char>, s: Seq<char>)
    requires
        s.len() <= u32::MAX,
    ensures
        type_program(path, s) matches Some(ast) ==> located(ast, path, s.len() as int),
{
    lemma_type_expr(path, s, 0);
}

} // verus!
