//! Types: primitives, unification variables, and function types.

use std::rc::Rc;
use vstd::prelude::*;
use crate::names::{Name, NameView};

verus! {

/// A type of the language.
#[derive(Debug)]
pub enum Type {
    /// A nominal base type.
    Primitive(Name),
    /// A unification variable: some type yet to be determined.
    Variable(Name),
    /// A function type, from domain to range.
    Function(Rc<Type>, Rc<Type>),
}

/// The mathematical value of a [`Type`].
pub ghost enum TypeView {
    Primitive(NameView),
    Variable(NameView),
    Function(Box<TypeView>, Box<TypeView>),
}

/// The value that `t` stands for.
pub open spec fn type_view(t: &Type) -> TypeView
    decreases t,
{
    match t {
        Type::Primitive(n) => TypeView::Primitive(n@),
        Type::Variable(n) => TypeView::Variable(n@),
        Type::Function(dom, range) => TypeView::Function(
            Box::new(type_view(&**dom)),
            Box::new(type_view(&**range)),
        ),
    }
}

impl View for Type {
    type V = TypeView;

    open spec fn view(&self) -> TypeView {
        type_view(self)
    }
}

impl Type {
    /// Structural comparison.
    pub fn same(&self, other: &Type) -> (res: bool)
        ensures
            res == (self@ == other@),
        decreases self,
    {
        match self {
            Type::Primitive(a) => match other {
                Type::Primitive(b) => a.same(b),
                _ => false,
            },
            Type::Variable(a) => match other {
                Type::Variable(b) => a.same(b),
                _ => false,
            },
            Type::Function(ad, ar) => match other {
                Type::Function(bd, br) => ad.same(bd) && ar.same(br),
                _ => false,
            },
        }
    }
}

impl PartialEq for Type {
    fn eq(&self, other: &Type) -> (res: bool) {
        self.same(other)
    }
}

impl vstd::std_specs::cmp::PartialEqSpecImpl for Type {
    open spec fn obeys_eq_spec() -> bool {
        true
    }

    open spec fn eq_spec(&self, other: &Type) -> bool {
        self@ == other@
    }
}

impl TypeView {
    /// The unification variables that occur in the type.
    pub open spec fn vars(self) -> Set<NameView>
        decreases self,
    {
        match self {
            TypeView::Primitive(_) => Set::empty(),
            TypeView::Variable(v) => Set::empty().insert(v),
            TypeView::Function(dom, range) => dom.vars().union(range.vars()),
        }
    }

    /// The number of nodes of the type.
    pub open spec fn size(self) -> nat
        decreases self,
    {
        match self {
            TypeView::Primitive(_) => 1,
            TypeView::Variable(_) => 1,
            TypeView::Function(dom, range) => 1 + dom.size() + range.size(),
        }
    }

    /// The type with every occurrence of the variable `v` replaced by `r`.
    pub open spec fn replace(self, v: NameView, r: TypeView) -> TypeView
        decreases self,
    {
        match self {
            TypeView::Primitive(_) => self,
            TypeView::Variable(w) => if w == v { r } else { self },
            TypeView::Function(dom, range) => TypeView::Function(
                Box::new(dom.replace(v, r)),
                Box::new(range.replace(v, r)),
            ),
        }
    }
}

/// A type mentions finitely many variables.
pub proof fn lemma_vars_finite(t: TypeView)
    ensures
        t.vars().finite(),
    decreases t,
{
    match t {
        TypeView::Primitive(_) => {},
        TypeView::Variable(_) => {},
        TypeView::Function(dom, range) => {
            lemma_vars_finite(*dom);
            lemma_vars_finite(*range);
        },
    }
}

/// Replacing a variable that does not occur changes nothing.
pub proof fn lemma_replace_absent(t: TypeView, v: NameView, r: TypeView)
    requires
        !t.vars().contains(v),
    ensures
        t.replace(v, r) == t,
    decreases t,
{
    match t {
        TypeView::Primitive(_) => {},
        TypeView::Variable(_) => {},
        TypeView::Function(dom, range) => {
            lemma_replace_absent(*dom, v, r);
            lemma_replace_absent(*range, v, r);
        },
    }
}

/// The variables of a type after a replacement: those it had, but for the
/// replaced one, and those of the replacement where the variable occurred.
pub proof fn lemma_replace_vars(t: TypeView, v: NameView, r: TypeView, w: NameView)
    ensures
        t.replace(v, r).vars().contains(w) <==> (t.vars().contains(w) && w != v) || (
        t.vars().contains(v) && r.vars().contains(w)),
    decreases t,
{
    match t {
        TypeView::Primitive(_) => {},
        TypeView::Variable(_) => {},
        TypeView::Function(dom, range) => {
            lemma_replace_vars(*dom, v, r, w);
            lemma_replace_vars(*range, v, r, w);
        },
    }
}

/// `res` is `ty` with each variable replaced by what `map` may return for it.
pub open spec fn mapped<F: Fn(Rc<Type>) -> Rc<Type>>(map: &F, ty: Rc<Type>, res: Rc<Type>) -> bool
    decreases ty,
{
    match *ty {
        Type::Primitive(_) => res == ty,
        Type::Variable(_) => map.ensures((ty,), res),
        Type::Function(dom, range) => match *res {
            Type::Function(res_dom, res_range) => mapped(map, dom, res_dom) && mapped(
                map,
                range,
                res_range,
            ),
            _ => false,
        },
    }
}

/// The type `ty` rebuilt with `map` applied to each of its variables, from
/// left to right; primitive types are kept.
pub fn map_vars<F: Fn(Rc<Type>) -> Rc<Type>>(ty: &Rc<Type>, map: &F) -> (res: Rc<Type>)
    requires
        forall|v: Rc<Type>| *v is Variable ==> map.requires((v,)),
    ensures
        mapped(map, *ty, res),
    decreases ty,
{
    match &**ty {
        Type::Primitive(_) => Rc::clone(ty),
        Type::Variable(_) => map(Rc::clone(ty)),
        Type::Function(dom, range) => {
            let d = map_vars(dom, map);
            let r = map_vars(range, map);
            Rc::new(Type::Function(d, r))
        },
    }
}

} // verus!
