//! The syntax tree: expressions and type expressions, each with its place
//! in the source.

use vstd::prelude::*;
use crate::names::{Name, NameView};

verus! {

/// A span of source text: the file and two byte offsets.
#[derive(Debug)]
pub struct Loc {
    pub file: String,
    pub begin: u32,
    pub end: u32,
}

/// The mathematical value of a [`Loc`].
pub ghost struct LocView {
    pub file: Seq<char>,
    pub begin: u32,
    pub end: u32,
}

impl View for Loc {
    type V = LocView;

    open spec fn view(&self) -> LocView {
        LocView { file: self.file@, begin: self.begin, end: self.end }
    }
}

impl Clone for Loc {
    fn clone(&self) -> (res: Loc)
        ensures
            res@ == self@,
    {
        Loc { file: self.file.clone(), begin: self.begin, end: self.end }
    }
}

/// A node of the syntax tree.
#[derive(Debug)]
pub enum AST {
    /// A variable.
    Variable(Loc, Name),
    /// An integer literal.
    Integer(Loc, i64),
    /// A boolean literal.
    Boolean(Loc, bool),
    /// A function applied to one argument.
    Application(Loc, Box<AST>, Box<AST>),
    /// A function of one parameter; the parameter, then the body.
    Abstraction(Loc, Box<AST>, Box<AST>),
    /// An expression with a type expression ascribed to it.
    Ascription(Loc, Box<AST>, Box<AST>),
    /// A conditional: condition, consequent, alternative.
    If(Loc, Box<AST>, Box<AST>, Box<AST>),
    /// A type expression: a named type.
    TyName(Loc, Name),
    /// A type expression: a function type, domain then range.
    TyFn(Loc, Box<AST>, Box<AST>),
}

/// The mathematical value of an [`AST`].
pub ghost enum AstView {
    Variable(LocView, NameView),
    Integer(LocView, i64),
    Boolean(LocView, bool),
    Application(LocView, Box<AstView>, Box<AstView>),
    Abstraction(LocView, Box<AstView>, Box<AstView>),
    Ascription(LocView, Box<AstView>, Box<AstView>),
    If(LocView, Box<AstView>, Box<AstView>, Box<AstView>),
    TyName(LocView, NameView),
    TyFn(LocView, Box<AstView>, Box<AstView>),
}

/// The value that `a` stands for.
pub open spec fn ast_view(a: &AST) -> AstView
    decreases a,
{
    match a {
        AST::Variable(loc, name) => AstView::Variable(loc@, name@),
        AST::Integer(loc, n) => AstView::Integer(loc@, *n),
        AST::Boolean(loc, b) => AstView::Boolean(loc@, *b),
        AST::Application(loc, f, x) => AstView::Application(
            loc@,
            Box::new(ast_view(&**f)),
            Box::new(ast_view(&**x)),
        ),
        AST::Abstraction(loc, p, b) => AstView::Abstraction(
            loc@,
            Box::new(ast_view(&**p)),
            Box::new(ast_view(&**b)),
        ),
        AST::Ascription(loc, e, t) => AstView::Ascription(
            loc@,
            Box::new(ast_view(&**e)),
            Box::new(ast_view(&**t)),
        ),
        AST::If(loc, c, a, b) => AstView::If(
            loc@,
            Box::new(ast_view(&**c)),
            Box::new(ast_view(&**a)),
            Box::new(ast_view(&**b)),
        ),
        AST::TyName(loc, name) => AstView::TyName(loc@, name@),
        AST::TyFn(loc, d, r) => AstView::TyFn(
            loc@,
            Box::new(ast_view(&**d)),
            Box::new(ast_view(&**r)),
        ),
    }
}

impl View for AST {
    type V = AstView;

    open spec fn view(&self) -> AstView {
        ast_view(self)
    }
}

impl AstView {
    /// The place of the node in the source.
    pub open spec fn loc(self) -> LocView {
        match self {
            AstView::Variable(loc, _) => loc,
            AstView::Integer(loc, _) => loc,
            AstView::Boolean(loc, _) => loc,
            AstView::Application(loc, _, _) => loc,
            AstView::Abstraction(loc, _, _) => loc,
            AstView::Ascription(loc, _, _) => loc,
            AstView::If(loc, _, _, _) => loc,
            AstView::TyName(loc, _) => loc,
            AstView::TyFn(loc, _, _) => loc,
        }
    }
}

impl AST {
    /// The place of the node in the source.
    pub fn loc(&self) -> (res: Loc)
        ensures
            res@ == self@.loc(),
    {
        match self {
            AST::Variable(loc, _) => loc.clone(),
            AST::Integer(loc, _) => loc.clone(),
            AST::Boolean(loc, _) => loc.clone(),
            AST::Application(loc, _, _) => loc.clone(),
            AST::Abstraction(loc, _, _) => loc.clone(),
            AST::Ascription(loc, _, _) => loc.clone(),
            AST::If(loc, _, _, _) => loc.clone(),
            AST::TyName(loc, _) => loc.clone(),
            AST::TyFn(loc, _, _) => loc.clone(),
        }
    }
}

impl Clone for AST {
    fn clone(&self) -> (res: AST)
        ensures
            res@ == self@,
        decreases self,
    {
        match self {
            AST::Variable(loc, name) => AST::Variable(loc.clone(), name.clone()),
            AST::Integer(loc, n) => AST::Integer(loc.clone(), *n),
            AST::Boolean(loc, b) => AST::Boolean(loc.clone(), *b),
            AST::Application(loc, f, x) => AST::Application(
                loc.clone(),
                Box::new((**f).clone()),
                Box::new((**x).clone()),
            ),
            AST::Abstraction(loc, p, b) => AST::Abstraction(
                loc.clone(),
                Box::new((**p).clone()),
                Box::new((**b).clone()),
            ),
            AST::Ascription(loc, e, t) => AST::Ascription(
                loc.clone(),
                Box::new((**e).clone()),
                Box::new((**t).clone()),
            ),
            AST::If(loc, c, a, b) => AST::If(
                loc.clone(),
                Box::new((**c).clone()),
                Box::new((**a).clone()),
                Box::new((**b).clone()),
            ),
            AST::TyName(loc, name) => AST::TyName(loc.clone(), name.clone()),
            AST::TyFn(loc, d, r) => AST::TyFn(
                loc.clone(),
                Box::new((**d).clone()),
                Box::new((**r).clone()),
            ),
        }
    }
}

} // verus!
