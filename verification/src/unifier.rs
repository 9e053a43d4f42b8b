//! When two types can be unified: unification succeeds exactly where some
//! assignment of types to variables makes the two types equal, and what it
//! finds is the most general such assignment.

use vstd::prelude::*;
use crate::names::NameView;
use crate::subst::{
    bind, lemma_resolve_bind, lemma_resolve_is_normal, lemma_unsolved_shrinks, lemma_all_vars,
    lookup, resolve, solved, universe, unsolved, Bindings,
};
use crate::types::TypeView;
use crate::unify::{lemma_bind_case, lemma_descend_first, lemma_unify_model, unify_model, weight};

verus! {

/// An assignment of types to variables; a variable that it does not hold
/// stands for itself.
pub type Assignment = Map<NameView, TypeView>;

/// The type `t` with every variable replaced by what `theta` assigns to it.
pub open spec fn instantiate(theta: Assignment, t: TypeView) -> TypeView
    decreases t,
{
    match t {
        TypeView::Primitive(_) => t,
        TypeView::Variable(v) => if theta.contains_key(v) {
            theta[v]
        } else {
            t
        },
        TypeView::Function(dom, range) => TypeView::Function(
            Box::new(instantiate(theta, *dom)),
            Box::new(instantiate(theta, *range)),
        ),
    }
}

/// `theta` agrees with the substitution `s`: it makes every variable that
/// `s` has solved equal to its solution.
pub open spec fn models(theta: Assignment, s: Bindings) -> bool {
    forall|t: TypeView| #[trigger] instantiate(theta, resolve(s, t)) == instantiate(theta, t)
}

/// Some assignment that agrees with `s` makes `left` and `right` equal.
pub open spec fn unifiable(s: Bindings, left: TypeView, right: TypeView) -> bool {
    exists|theta: Assignment| #[trigger]
        models(theta, s) && instantiate(theta, left) == instantiate(theta, right)
}

/// The assignment that a substitution stands for.
pub open spec fn assignment_of(s: Bindings) -> Assignment {
    Map::new(|v: NameView| lookup(s, v) is Some, |v: NameView| lookup(s, v).unwrap())
}

/// A type is at least as large as any variable in it, under any
/// assignment, and larger unless it is that variable.
proof fn lemma_instantiate_size(theta: Assignment, t: TypeView, v: NameView)
    requires
        t.vars().contains(v),
    ensures
        instantiate(theta, TypeView::Variable(v)).size() <= instantiate(theta, t).size(),
        t != TypeView::Variable(v) ==> instantiate(theta, TypeView::Variable(v)).size()
            < instantiate(theta, t).size(),
    decreases t,
{
    match t {
        TypeView::Primitive(_) => {},
        TypeView::Variable(_) => {},
        TypeView::Function(dom, range) => {
            if dom.vars().contains(v) {
                lemma_instantiate_size(theta, *dom, v);
            } else {
                lemma_instantiate_size(theta, *range, v);
            }
        },
    }
}

/// Replacing a variable by a type that the assignment makes equal to it
/// changes nothing under the assignment.
proof fn lemma_instantiate_replace(theta: Assignment, t: TypeView, v: NameView, r: TypeView)
    requires
        instantiate(theta, TypeView::Variable(v)) == instantiate(theta, r),
    ensures
        instantiate(theta, t.replace(v, r)) == instantiate(theta, t),
    decreases t,
{
    match t {
        TypeView::Primitive(_) => {},
        TypeView::Variable(_) => {},
        TypeView::Function(dom, range) => {
            lemma_instantiate_replace(theta, *dom, v, r);
            lemma_instantiate_replace(theta, *range, v, r);
        },
    }
}

/// An assignment that agrees with `s` and makes a variable equal to a
/// type agrees with `s` extended by that solution.
proof fn lemma_models_bind(theta: Assignment, s: Bindings, v: NameView, r: TypeView)
    requires
        models(theta, s),
        lookup(s, v) is None,
        instantiate(theta, TypeView::Variable(v)) == instantiate(theta, r),
    ensures
        models(theta, bind(s, v, r)),
{
    assert forall|t: TypeView| #[trigger]
        instantiate(theta, resolve(bind(s, v, r), t)) == instantiate(theta, t) by {
        lemma_resolve_bind(s, v, r, t);
        lemma_instantiate_replace(theta, resolve(s, t), v, r);
        assert(instantiate(theta, resolve(s, t)) == instantiate(theta, t));
    }
}

/// Completeness, and generality: where an assignment that agrees with `s`
/// makes the two types equal, unification succeeds, and the assignment
/// agrees with the substitution that unification finds.
pub proof fn lemma_unify_complete(
    s: Bindings,
    left: TypeView,
    right: TypeView,
    theta: Assignment,
)
    requires
        solved(s),
        models(theta, s),
        instantiate(theta, left) == instantiate(theta, right),
    ensures
        unify_model(s, left, right).1 is Ok,
        models(theta, unify_model(s, left, right).0),
    decreases unsolved(s, left, right), weight(s, left, right),
{
    let l = resolve(s, left);
    let r = resolve(s, right);
    assert(instantiate(theta, resolve(s, left)) == instantiate(theta, left));
    assert(instantiate(theta, resolve(s, right)) == instantiate(theta, right));
    lemma_resolve_is_normal(s, left);
    lemma_resolve_is_normal(s, right);
    if l == r {
    } else {
        match (l, r) {
            (TypeView::Variable(v), _) => {
                if r.vars().contains(v) {
                    lemma_instantiate_size(theta, r, v);
                } else {
                    lemma_bind_case(s, left, right, v, r);
                    lemma_models_bind(theta, s, v, r);
                }
            },
            (_, TypeView::Variable(v)) => {
                if l.vars().contains(v) {
                    lemma_instantiate_size(theta, l, v);
                } else {
                    lemma_bind_case(s, right, left, v, l);
                    lemma_models_bind(theta, s, v, l);
                }
            },
            (TypeView::Function(ld, lr), TypeView::Function(rd, rr)) => {
                lemma_descend_first(s, left, right, *ld, *rd);
                lemma_descend_first(s, left, right, *lr, *rr);
                lemma_unify_model(s, *ld, *rd);
                lemma_unify_complete(s, *ld, *rd, theta);
                let s1 = unify_model(s, *ld, *rd).0;
                lemma_all_vars(s1);
                assert(universe(s1, *lr, *rr).subset_of(universe(s, left, right)));
                lemma_unsolved_shrinks(s, left, right, s1, *lr, *rr);
                lemma_unify_complete(s1, *lr, *rr, theta);
            },
            _ => {},
        }
    }
}

/// The assignment that a solved substitution stands for does what
/// resolving by the substitution does.
pub proof fn lemma_assignment_of(s: Bindings, t: TypeView)
    ensures
        instantiate(assignment_of(s), t) == resolve(s, t),
    decreases t,
{
    match t {
        TypeView::Primitive(_) => {},
        TypeView::Variable(_) => {},
        TypeView::Function(dom, range) => {
            lemma_assignment_of(s, *dom);
            lemma_assignment_of(s, *range);
        },
    }
}

/// Unification succeeds if and only if the two types are unifiable.
pub proof fn law_unify_succeeds_iff_unifiable(s: Bindings, left: TypeView, right: TypeView)
    requires
        solved(s),
    ensures
        unify_model(s, left, right).1 is Ok <==> unifiable(s, left, right),
{
    if unifiable(s, left, right) {
        let theta = choose|theta: Assignment| #[trigger]
            models(theta, s) && instantiate(theta, left) == instantiate(theta, right);
        lemma_unify_complete(s, left, right, theta);
    }
    if unify_model(s, left, right).1 is Ok {
        let found = unify_model(s, left, right).0;
        let theta = assignment_of(found);
        lemma_unify_model(s, left, right);
        assert forall|t: TypeView| #[trigger]
            instantiate(theta, resolve(s, t)) == instantiate(theta, t) by {
            lemma_assignment_of(found, resolve(s, t));
            lemma_assignment_of(found, t);
            assert(resolve(found, resolve(s, t)) == resolve(found, t));
        }
        lemma_assignment_of(found, left);
        lemma_assignment_of(found, right);
        assert(models(theta, s) && instantiate(theta, left) == instantiate(theta, right));
    }
}

} // verus!
