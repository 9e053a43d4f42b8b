//! The parser: from source text to the syntax tree that the grammar gives it.

use vstd::prelude::*;
use vstd::string::is_ascii_spec_bytes;
use crate::ast::{AstView, Loc, AST};
use crate::grammar::{
    abstract_over, apply_args, apply_suffixes, program, span, type_program, Piece, Suffix,
};
use crate::lexer::{
    classify_word, digit_byte, encodes, lemma_digits_end, lemma_digits_run, lemma_word_end,
    parse_bool, parse_int, scan_digits, scan_word, skip_blanks, word_start_byte, Word,
};
use crate::names::Name;
use crate::spans::{law_program_located, law_type_program_located, located};

verus! {

/// A text that is no program: the file, and the offset at which parsing
/// could not go on.
#[derive(Debug)]
pub struct ParseError {
    pub file: String,
    pub offset: u32,
}

/// The tree that the text `s` of the file `path` denotes as an expression,
/// if it is ASCII, no longer than 32-bit offsets reach, and an expression.
pub open spec fn parse_model(path: Seq<char>, s: Seq<char>) -> Option<AstView> {
    if vstd::utf8::is_ascii_chars(s) && s.len() <= u32::MAX {
        program(path, s)
    } else {
        None
    }
}

/// The tree that the text `s` of the file `path` denotes as a type, if it
/// is ASCII, no longer than 32-bit offsets reach, and a type.
pub open spec fn parse_type_model(path: Seq<char>, s: Seq<char>) -> Option<AstView> {
    if vstd::utf8::is_ascii_chars(s) && s.len() <= u32::MAX {
        type_program(path, s)
    } else {
        None
    }
}

/// A parsed piece: the tree and the offsets of its first and last token.
struct Parsed {
    node: AST,
    begin: usize,
    end: usize,
}

impl View for Parsed {
    type V = Piece;

    closed spec fn view(&self) -> Piece {
        Piece { node: self.node@, begin: self.begin as int, end: self.end as int }
    }
}

/// A parsed suffix of an expression.
enum SuffixNode {
    Args(Vec<AST>),
    Ascribe(AST),
}

/// The values of a list of trees.
spec fn views(list: Seq<AST>) -> Seq<AstView> {
    list.map_values(|a: AST| a@)
}

/// The value of a parsed suffix.
spec fn suffix_view(x: SuffixNode) -> Suffix {
    match x {
        SuffixNode::Args(list) => Suffix::Args(views(list@)),
        SuffixNode::Ascribe(ty) => Suffix::Ascribe(ty@),
    }
}

/// The values of a list of parsed suffixes.
spec fn suffix_views(list: Seq<SuffixNode>) -> Seq<Suffix> {
    list.map_values(|x: SuffixNode| suffix_view(x))
}

/// The result is the piece that the grammar gives, or an offset where it
/// gives none.
spec fn agrees(res: Result<Parsed, usize>, model: Option<Piece>) -> bool {
    match res {
        Ok(p) => model == Some(p@),
        Err(_) => model is None,
    }
}

/// An error offset lies within the text.
spec fn bounded<T>(res: Result<T, usize>, len: usize) -> bool {
    match res {
        Ok(_) => true,
        Err(at) => at <= len,
    }
}

/// `func` applied to the arguments one after the other.
fn build_application(loc: &Loc, func: AST, args: Vec<AST>) -> (res: AST)
    ensures
        res@ == apply_args(loc@, func@, views(args@)),
{
    let mut func = func;
    let mut args = args;
    let ghost target = apply_args(loc@, func@, views(args@));
    while args.len() > 0
        invariant
            apply_args(loc@, func@, views(args@)) == target,
        decreases args.len(),
    {
        let ghost before = args@;
        let first = args.remove(0);
        proof {
            assert(views(args@) =~= views(before).drop_first());
            assert(views(before).first() == first@);
        }
        func = AST::Application(loc.clone(), Box::new(func), Box::new(first));
    }
    func
}

/// `node` with the suffixes put on one after the other.
fn build_suffixes(loc: &Loc, node: AST, list: Vec<SuffixNode>) -> (res: AST)
    ensures
        res@ == apply_suffixes(loc@, node@, suffix_views(list@)),
{
    let mut node = node;
    let mut list = list;
    let ghost target = apply_suffixes(loc@, node@, suffix_views(list@));
    while list.len() > 0
        invariant
            apply_suffixes(loc@, node@, suffix_views(list@)) == target,
        decreases list.len(),
    {
        let ghost before = list@;
        let first = list.remove(0);
        proof {
            assert(suffix_views(list@) =~= suffix_views(before).drop_first());
            assert(suffix_views(before).first() == suffix_view(first));
        }
        node = match first {
            SuffixNode::Args(args) => build_application(loc, node, args),
            SuffixNode::Ascribe(ty) => AST::Ascription(loc.clone(), Box::new(node), Box::new(ty)),
        };
    }
    node
}

/// The function of the parameters, one after the other, with the body `body`.
fn build_abstraction(loc: &Loc, params: Vec<AST>, body: AST) -> (res: AST)
    ensures
        res@ == abstract_over(loc@, views(params@), body@),
{
    let mut params = params;
    let mut body = body;
    let ghost target = abstract_over(loc@, views(params@), body@);
    while params.len() > 0
        invariant
            abstract_over(loc@, views(params@), body@) == target,
        decreases params.len(),
    {
        let ghost before = params@;
        let last = params.pop().unwrap();
        proof {
            assert(views(params@) =~= views(before).drop_last());
            assert(views(before).last() == last@);
        }
        body = AST::Abstraction(loc.clone(), Box::new(last), Box::new(body));
    }
    body
}

/// A text under the parser: its file name, its characters and its bytes.
struct Source<'a> {
    path: &'a str,
    text: &'a str,
    bytes: &'a [u8],
}

impl<'a> Source<'a> {
    /// The bytes are those of the text, which is ASCII and not too long.
    spec fn wf(&self) -> bool {
        self.text.is_ascii() && encodes(self.bytes@, self.text@)
    }

    /// The span from `begin` to `end`.
    fn loc(&self, begin: usize, end: usize) -> (res: Loc)
        requires
            self.wf(),
            begin <= end <= self.bytes.len(),
        ensures
            res@ == span(self.path@, begin as int, end as int),
    {
        Loc { file: self.path.to_owned(), begin: begin as u32, end: end as u32 }
    }

    /// The characters from `from` to `to`.
    fn word(&self, from: usize, to: usize) -> (res: String)
        requires
            self.wf(),
            from <= to <= self.bytes.len(),
        ensures
            res@ == self.text@.subrange(from as int, to as int),
    {
        self.text.substring_ascii(from, to).to_owned()
    }

    /// Whether the byte `c` stands at `pos`.
    fn at(&self, pos: usize, c: u8) -> (res: bool)
        requires
            self.wf(),
            c < 128,
        ensures
            res == crate::lexer::at(self.text@, pos as int, c as char),
    {
        pos < self.bytes.len() && self.bytes[pos] == c
    }

    /// A type atom at `pos`.
    fn type_atom(&self, pos: usize) -> (res: Result<Parsed, usize>)
        requires
            self.wf(),
            pos <= self.bytes.len(),
        ensures
            agrees(res, crate::grammar::type_atom(self.path@, self.text@, pos as int)),
            res matches Ok(p) ==> pos < p.end <= self.bytes.len() && p.begin <= p.end,
            bounded(res, self.bytes.len()),
        decreases self.bytes.len() - pos, 0int,
    {
        let p = skip_blanks(self.bytes, pos, Ghost(self.text@));
        if p >= self.bytes.len() {
            return Err(p);
        }
        let b = self.bytes[p];
        if b == 40 {
            let inner = match self.type_expr(p + 1) {
                Ok(x) => x,
                Err(e) => {
                    return Err(e);
                },
            };
            let q = skip_blanks(self.bytes, inner.end, Ghost(self.text@));
            if self.at(q, 41) {
                Ok(Parsed { node: inner.node, begin: p, end: q + 1 })
            } else {
                Err(q)
            }
        } else if word_start_byte(b) {
            let e = scan_word(self.bytes, p, Ghost(self.text@));
            proof {
                lemma_word_end(self.text@, p as int);
            }
            match classify_word(self.bytes, p, e, Ghost(self.text@)) {
                Word::Name => Ok(
                    Parsed {
                        node: AST::TyName(self.loc(p, e), Name::Type(self.word(p, e))),
                        begin: p,
                        end: e,
                    },
                ),
                _ => Err(p),
            }
        } else {
            Err(p)
        }
    }

    /// A type at `pos`.
    fn type_expr(&self, pos: usize) -> (res: Result<Parsed, usize>)
        requires
            self.wf(),
            pos <= self.bytes.len(),
        ensures
            agrees(res, crate::grammar::type_expr(self.path@, self.text@, pos as int)),
            res matches Ok(p) ==> pos < p.end <= self.bytes.len() && p.begin <= p.end,
            bounded(res, self.bytes.len()),
        decreases self.bytes.len() - pos, 1int,
    {
        let dom = match self.type_atom(pos) {
            Ok(x) => x,
            Err(e) => {
                return Err(e);
            },
        };
        let q = skip_blanks(self.bytes, dom.end, Ghost(self.text@));
        if self.at(q, 45) && self.at(q + 1, 62) {
            let range = match self.type_expr(q + 2) {
                Ok(x) => x,
                Err(e) => {
                    return Err(e);
                },
            };
            let loc = Loc {
                file: self.path.to_owned(),
                begin: dom.node.loc().begin,
                end: range.end as u32,
            };
            Ok(
                Parsed {
                    node: AST::TyFn(loc, Box::new(dom.node), Box::new(range.node)),
                    begin: dom.begin,
                    end: range.end,
                },
            )
        } else {
            Ok(dom)
        }
    }

    /// An atom at `pos`.
    fn atom(&self, pos: usize) -> (res: Result<Parsed, usize>)
        requires
            self.wf(),
            pos <= self.bytes.len(),
        ensures
            agrees(res, crate::grammar::atom(self.path@, self.text@, pos as int)),
            res matches Ok(p) ==> pos < p.end <= self.bytes.len() && p.begin <= p.end,
            bounded(res, self.bytes.len()),
        decreases self.bytes.len() - pos, 0int,
    {
        let p = skip_blanks(self.bytes, pos, Ghost(self.text@));
        if p >= self.bytes.len() {
            return Err(p);
        }
        let b = self.bytes[p];
        if b == 40 {
            let inner = match self.expression(p + 1) {
                Ok(x) => x,
                Err(e) => {
                    return Err(e);
                },
            };
            let q = skip_blanks(self.bytes, inner.end, Ghost(self.text@));
            if self.at(q, 41) {
                Ok(Parsed { node: inner.node, begin: p, end: q + 1 })
            } else {
                Err(q)
            }
        } else if digit_byte(b) {
            let e = scan_digits(self.bytes, p, Ghost(self.text@));
            proof {
                lemma_digits_end(self.text@, p as int);
                assert forall|i: int| p <= i < e implies crate::lexer::is_digit(
                    #[trigger] self.text@[i],
                ) by {
                    lemma_digits_run(self.text@, p as int, i);
                }
            }
            match parse_int(self.bytes, p, e, Ghost(self.text@)) {
                Some(n) => Ok(Parsed { node: AST::Integer(self.loc(p, e), n), begin: p, end: e }),
                None => Err(p),
            }
        } else if word_start_byte(b) {
            let e = scan_word(self.bytes, p, Ghost(self.text@));
            proof {
                lemma_word_end(self.text@, p as int);
            }
            let kind = classify_word(self.bytes, p, e, Ghost(self.text@));
            match kind {
                Word::Name => Ok(
                    Parsed {
                        node: AST::Variable(self.loc(p, e), Name::Ident(self.word(p, e))),
                        begin: p,
                        end: e,
                    },
                ),
                Word::True => Ok(
                    Parsed {
                        node: AST::Boolean(self.loc(p, e), parse_bool(kind)),
                        begin: p,
                        end: e,
                    },
                ),
                Word::False => Ok(
                    Parsed {
                        node: AST::Boolean(self.loc(p, e), parse_bool(kind)),
                        begin: p,
                        end: e,
                    },
                ),
                Word::If => self.conditional(p, e),
                Word::Fn => self.abstraction(p, e),
                Word::Else => Err(p),
            }
        } else {
            Err(p)
        }
    }

    /// A block at `pos`.
    fn block(&self, pos: usize) -> (res: Result<Parsed, usize>)
        requires
            self.wf(),
            pos <= self.bytes.len(),
        ensures
            agrees(res, crate::grammar::block(self.path@, self.text@, pos as int)),
            res matches Ok(p) ==> pos < p.end <= self.bytes.len() && p.begin <= p.end,
            bounded(res, self.bytes.len()),
        decreases self.bytes.len() - pos, 0int,
    {
        let p = skip_blanks(self.bytes, pos, Ghost(self.text@));
        if !self.at(p, 123) {
            return Err(p);
        }
        let inner = match self.expression(p + 1) {
            Ok(x) => x,
            Err(e) => {
                return Err(e);
            },
        };
        let q = skip_blanks(self.bytes, inner.end, Ghost(self.text@));
        if self.at(q, 125) {
            Ok(Parsed { node: inner.node, begin: p, end: q + 1 })
        } else {
            Err(q)
        }
    }

    /// The rest of a conditional whose `if` stands from `begin` to `pos`.
    fn conditional(&self, begin: usize, pos: usize) -> (res: Result<Parsed, usize>)
        requires
            self.wf(),
            begin <= pos <= self.bytes.len(),
        ensures
            agrees(
                res,
                crate::grammar::conditional(self.path@, self.text@, begin as int, pos as int),
            ),
            res matches Ok(p) ==> pos < p.end <= self.bytes.len() && p.begin <= p.end,
            bounded(res, self.bytes.len()),
        decreases self.bytes.len() - pos, 2int,
    {
        let cond = match self.expression(pos) {
            Ok(x) => x,
            Err(e) => {
                return Err(e);
            },
        };
        let cons = match self.block(cond.end) {
            Ok(x) => x,
            Err(e) => {
                return Err(e);
            },
        };
        let p = skip_blanks(self.bytes, cons.end, Ghost(self.text@));
        let e = scan_word(self.bytes, p, Ghost(self.text@));
        match classify_word(self.bytes, p, e, Ghost(self.text@)) {
            Word::Else => {},
            _ => {
                return Err(p);
            },
        }
        let alt = match self.block(e) {
            Ok(x) => x,
            Err(e) => {
                return Err(e);
            },
        };
        Ok(
            Parsed {
                node: AST::If(
                    self.loc(begin, alt.end),
                    Box::new(cond.node),
                    Box::new(cons.node),
                    Box::new(alt.node),
                ),
                begin: begin,
                end: alt.end,
            },
        )
    }

    /// The rest of an abstraction whose `fn` stands from `begin` to `pos`.
    fn abstraction(&self, begin: usize, pos: usize) -> (res: Result<Parsed, usize>)
        requires
            self.wf(),
            begin <= pos <= self.bytes.len(),
        ensures
            agrees(
                res,
                crate::grammar::abstraction(self.path@, self.text@, begin as int, pos as int),
            ),
            res matches Ok(p) ==> pos < p.end <= self.bytes.len() && p.begin <= p.end,
            bounded(res, self.bytes.len()),
        decreases self.bytes.len() - pos, 0int,
    {
        let p = skip_blanks(self.bytes, pos, Ghost(self.text@));
        if !self.at(p, 40) {
            return Err(p);
        }
        let (params, end) = match self.arguments(p + 1) {
            Ok(x) => x,
            Err(e) => {
                return Err(e);
            },
        };
        let q = skip_blanks(self.bytes, end, Ghost(self.text@));
        if !self.at(q, 41) {
            return Err(q);
        }
        let body = match self.block(q + 1) {
            Ok(x) => x,
            Err(e) => {
                return Err(e);
            },
        };
        let loc = self.loc(begin, body.end);
        Ok(
            Parsed {
                node: build_abstraction(&loc, params, body.node),
                begin: begin,
                end: body.end,
            },
        )
    }

    /// One or more expressions at `pos`, with commas between them.
    fn arguments(&self, pos: usize) -> (res: Result<(Vec<AST>, usize), usize>)
        requires
            self.wf(),
            pos <= self.bytes.len(),
        ensures
            match res {
                Ok((list, end)) => crate::grammar::arguments(self.path@, self.text@, pos as int)
                    == Some((views(list@), end as int)) && pos < end <= self.bytes.len(),
                Err(_) => crate::grammar::arguments(self.path@, self.text@, pos as int) is None,
            },
            bounded(res, self.bytes.len()),
        decreases self.bytes.len() - pos, 2int,
    {
        let first = match self.expression(pos) {
            Ok(x) => x,
            Err(e) => {
                return Err(e);
            },
        };
        let q = skip_blanks(self.bytes, first.end, Ghost(self.text@));
        if self.at(q, 44) {
            let (mut rest, end) = match self.arguments(q + 1) {
                Ok(x) => x,
                Err(e) => {
                    return Err(e);
                },
            };
            let ghost before = rest@;
            rest.insert(0, first.node);
            proof {
                assert(views(rest@) =~= seq![first.node@] + views(before));
            }
            Ok((rest, end))
        } else {
            let mut list: Vec<AST> = Vec::new();
            list.push(first.node);
            proof {
                assert(views(list@) =~= seq![first.node@]);
            }
            Ok((list, first.end))
        }
    }

    /// The suffixes at `pos`.
    fn suffixes(&self, pos: usize) -> (res: Result<(Vec<SuffixNode>, usize), usize>)
        requires
            self.wf(),
            pos <= self.bytes.len(),
        ensures
            match res {
                Ok((list, end)) => crate::grammar::suffixes(self.path@, self.text@, pos as int)
                    == Some((suffix_views(list@), end as int)) && pos <= end <= self.bytes.len(),
                Err(_) => crate::grammar::suffixes(self.path@, self.text@, pos as int) is None,
            },
            bounded(res, self.bytes.len()),
        decreases self.bytes.len() - pos, 0int,
    {
        let p = skip_blanks(self.bytes, pos, Ghost(self.text@));
        if self.at(p, 40) {
            let (args, end) = match self.arguments(p + 1) {
                Ok(x) => x,
                Err(e) => {
                    return Err(e);
                },
            };
            let q = skip_blanks(self.bytes, end, Ghost(self.text@));
            if !self.at(q, 41) {
                return Err(q);
            }
            let (mut rest, last) = match self.suffixes(q + 1) {
                Ok(x) => x,
                Err(e) => {
                    return Err(e);
                },
            };
            let ghost before = rest@;
            let ghost head = Suffix::Args(views(args@));
            rest.insert(0, SuffixNode::Args(args));
            proof {
                assert(suffix_views(rest@) =~= seq![head] + suffix_views(before));
            }
            Ok((rest, last))
        } else if self.at(p, 58) {
            let ty = match self.type_expr(p + 1) {
                Ok(x) => x,
                Err(e) => {
                    return Err(e);
                },
            };
            let (mut rest, last) = match self.suffixes(ty.end) {
                Ok(x) => x,
                Err(e) => {
                    return Err(e);
                },
            };
            let ghost before = rest@;
            let ghost head = Suffix::Ascribe(ty.node@);
            rest.insert(0, SuffixNode::Ascribe(ty.node));
            proof {
                assert(suffix_views(rest@) =~= seq![head] + suffix_views(before));
            }
            Ok((rest, last))
        } else {
            let list: Vec<SuffixNode> = Vec::new();
            proof {
                assert(suffix_views(list@) =~= Seq::empty());
            }
            Ok((list, pos))
        }
    }

    /// An expression at `pos`.
    fn expression(&self, pos: usize) -> (res: Result<Parsed, usize>)
        requires
            self.wf(),
            pos <= self.bytes.len(),
        ensures
            agrees(res, crate::grammar::expression(self.path@, self.text@, pos as int)),
            res matches Ok(p) ==> pos < p.end <= self.bytes.len() && p.begin <= p.end,
            bounded(res, self.bytes.len()),
        decreases self.bytes.len() - pos, 1int,
    {
        let head = match self.atom(pos) {
            Ok(x) => x,
            Err(e) => {
                return Err(e);
            },
        };
        let (list, end) = match self.suffixes(head.end) {
            Ok(x) => x,
            Err(e) => {
                return Err(e);
            },
        };
        let loc = self.loc(head.begin, end);
        Ok(Parsed { node: build_suffixes(&loc, head.node, list), begin: head.begin, end: end })
    }
}

/// The offset `at`, cut to what an error can hold.
fn error_at(path: &str, at: usize) -> (res: ParseError)
    ensures
        res.file@ == path@,
        res.offset <= at,
{
    let offset: u32 = if at > 0xffff_ffff {
        0xffff_ffff
    } else {
        at as u32
    };
    ParseError { file: path.to_owned(), offset: offset }
}

/// The syntax tree of `input`, the text of the file `path`: the tree that
/// the grammar gives it, and an error where the grammar gives none. Every
/// node of the tree has a valid span in `path`.
pub fn parse(path: &str, input: &str) -> (res: Result<Box<AST>, ParseError>)
    ensures
        match res {
            Ok(ast) => parse_model(path@, input@) == Some(ast@) && located(
                ast@,
                path@,
                input@.len() as int,
            ),
            Err(e) => parse_model(path@, input@) is None && e.file@ == path@ && e.offset
                <= input@.len(),
        },
{
    if !input.is_ascii() {
        return Err(error_at(path, 0));
    }
    let bytes = input.as_bytes();
    proof {
        is_ascii_spec_bytes(input);
    }
    if bytes.len() > 0xffff_ffff {
        return Err(error_at(path, 0));
    }
    proof {
        law_program_located(path@, input@);
    }
    let src = Source { path: path, text: input, bytes: bytes };
    let e = match src.expression(0) {
        Ok(x) => x,
        Err(at) => {
            return Err(error_at(path, at));
        },
    };
    let end = skip_blanks(bytes, e.end, Ghost(input@));
    if end == bytes.len() {
        Ok(Box::new(e.node))
    } else {
        Err(error_at(path, end))
    }
}

/// The syntax tree of `input`, the text of the file `path`, read as a
/// type. Every node of the tree has a valid span in `path`.
pub fn parse_type(path: &str, input: &str) -> (res: Result<Box<AST>, ParseError>)
    ensures
        match res {
            Ok(ast) => parse_type_model(path@, input@) == Some(ast@) && located(
                ast@,
                path@,
                input@.len() as int,
            ),
            Err(e) => parse_type_model(path@, input@) is None && e.file@ == path@ && e.offset
                <= input@.len(),
        },
{
    if !input.is_ascii() {
        return Err(error_at(path, 0));
    }
    let bytes = input.as_bytes();
    proof {
        is_ascii_spec_bytes(input);
    }
    if bytes.len() > 0xffff_ffff {
        return Err(error_at(path, 0));
    }
    proof {
        law_type_program_located(path@, input@);
    }
    let src = Source { path: path, text: input, bytes: bytes };
    let t = match src.type_expr(0) {
        Ok(x) => x,
        Err(at) => {
            return Err(error_at(path, at));
        },
    };
    let end = skip_blanks(bytes, t.end, Ghost(input@));
    if end == bytes.len() {
        Ok(Box::new(t.node))
    } else {
        Err(error_at(path, end))
    }
}

} // verus!
