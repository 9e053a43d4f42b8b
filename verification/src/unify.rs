//! Unification of two types under a substitution, as a mathematical
//! function, and what holds of its outcome.

use vstd::prelude::*;
use crate::names::NameView;
use crate::subst::{
    all_vars, bind, extends, lemma_all_vars, lemma_bind_solved, lemma_bind_vars,
    lemma_extends_refl, lemma_extends_trans, lemma_lookup, lemma_lookup_bind, lemma_resolve_bind,
    lemma_resolve_is_normal, lemma_resolve_normal, lemma_resolve_vars, lemma_unsolved_shrinks,
    lookup, normal, resolve, solved, universe, unsolved, Bindings,
};
use crate::types::{lemma_replace_absent, TypeView};

verus! {

/// Why two types cannot be made equal.
pub ghost enum Clash {
    /// The two types differ where neither is a variable.
    Mismatch(TypeView, TypeView),
    /// The variable (first) occurs inside the type it would be solved to.
    Occur(TypeView, TypeView),
}

/// The combined size of the two types once resolved.
pub open spec fn weight(s: Bindings, left: TypeView, right: TypeView) -> nat {
    resolve(s, left).size() + resolve(s, right).size()
}

/// The problem `(s2, left2, right2)` is smaller than `(s, left, right)`:
/// fewer variables are unsolved, or as many and the types are smaller.
pub open spec fn descends(
    s: Bindings,
    left: TypeView,
    right: TypeView,
    s2: Bindings,
    left2: TypeView,
    right2: TypeView,
) -> bool {
    unsolved(s2, left2, right2) < unsolved(s, left, right) || (unsolved(s2, left2, right2)
        == unsolved(s, left, right) && weight(s2, left2, right2) < weight(s, left, right))
}

/// The outcome of unifying `left` and `right` under `s`: the substitution
/// afterwards, and the unified type or the reason for failure.
///
/// Both types are resolved first. Equal types unify as they are. A variable
/// is solved to the other type unless it occurs in it. Two function types
/// unify domain first, then range, and stop at the first failure. All else
/// is a mismatch.
///
/// The two tests on `descends` keep the recursion well founded; for a
/// solved `s` they always hold (`lemma_unify_model`).
pub open spec fn unify_model(s: Bindings, left: TypeView, right: TypeView) -> (
    Bindings,
    Result<TypeView, Clash>,
)
    decreases unsolved(s, left, right), weight(s, left, right),
{
    let l = resolve(s, left);
    let r = resolve(s, right);
    if l == r {
        (s, Ok(l))
    } else {
        match (l, r) {
            (TypeView::Variable(v), _) => if r.vars().contains(v) {
                (s, Err(Clash::Occur(l, r)))
            } else {
                (bind(s, v, r), Ok(r))
            },
            (_, TypeView::Variable(v)) => if l.vars().contains(v) {
                (s, Err(Clash::Occur(r, l)))
            } else {
                (bind(s, v, l), Ok(l))
            },
            (TypeView::Function(ld, lr), TypeView::Function(rd, rr)) => {
                if descends(s, left, right, s, *ld, *rd) {
                    let first = unify_model(s, *ld, *rd);
                    if first.1 is Ok && descends(s, left, right, first.0, *lr, *rr) {
                        let second = unify_model(first.0, *lr, *rr);
                        match second.1 {
                            Ok(_) => (second.0, Ok(resolve(second.0, l))),
                            Err(_) => second,
                        }
                    } else {
                        first
                    }
                } else {
                    (s, Err(Clash::Mismatch(l, r)))
                }
            },
            _ => (s, Err(Clash::Mismatch(l, r))),
        }
    }
}

/// The parts of two resolved function types make a smaller problem.
pub proof fn lemma_descend_first(
    s: Bindings,
    left: TypeView,
    right: TypeView,
    a: TypeView,
    b: TypeView,
)
    requires
        solved(s),
        resolve(s, left) is Function,
        resolve(s, right) is Function,
        a == *resolve(s, left)->Function_0 || a == *resolve(s, left)->Function_1,
        b == *resolve(s, right)->Function_0 || b == *resolve(s, right)->Function_1,
    ensures
        descends(s, left, right, s, a, b),
        universe(s, a, b).subset_of(universe(s, left, right)),
        resolve(s, a) == a,
        resolve(s, b) == b,
{
    let l = resolve(s, left);
    let r = resolve(s, right);
    lemma_resolve_is_normal(s, left);
    lemma_resolve_is_normal(s, right);
    assert(normal(s, a));
    assert(normal(s, b));
    lemma_resolve_normal(s, a);
    lemma_resolve_normal(s, b);
    lemma_all_vars(s);
    assert forall|w: NameView| universe(s, a, b).contains(w) implies universe(
        s,
        left,
        right,
    ).contains(w) by {
        if a.vars().contains(w) {
            assert(l.vars().contains(w));
            lemma_resolve_vars(s, left, w);
        } else if b.vars().contains(w) {
            assert(r.vars().contains(w));
            lemma_resolve_vars(s, right, w);
        }
    }
    lemma_unsolved_shrinks(s, left, right, s, a, b);
}

/// What holds of the outcome of `unify_model` on a solved substitution: the
/// outcome is solved and extends the input, it solves only variables that
/// were in play, it is the input itself unless it is longer, and on success
/// both types resolve under it to the type returned.
pub proof fn lemma_unify_model(s: Bindings, left: TypeView, right: TypeView)
    requires
        solved(s),
    ensures
        ({
            let out = unify_model(s, left, right);
            &&& solved(out.0)
            &&& s.len() <= out.0.len()
            &&& (out.0.len() == s.len() ==> out.0 == s)
            &&& all_vars(out.0).subset_of(universe(s, left, right))
            &&& extends(s, out.0)
            &&& match out.1 {
                Ok(t) => t == resolve(out.0, left) && t == resolve(out.0, right),
                Err(_) => true,
            }
        }),
    decreases unsolved(s, left, right), weight(s, left, right),
{
    let l = resolve(s, left);
    let r = resolve(s, right);
    lemma_extends_refl(s);
    lemma_resolve_is_normal(s, left);
    lemma_resolve_is_normal(s, right);
    lemma_resolve_normal(s, l);
    lemma_resolve_normal(s, r);
    lemma_all_vars(s);
    if l == r {
    } else {
        match (l, r) {
            (TypeView::Variable(v), _) => {
                if !r.vars().contains(v) {
                    lemma_bind_case(s, left, right, v, r);
                    assert(resolve(bind(s, v, r), resolve(s, left)) == resolve(bind(s, v, r), left));
                    assert(resolve(bind(s, v, r), resolve(s, right)) == resolve(
                        bind(s, v, r),
                        right,
                    ));
                }
            },
            (_, TypeView::Variable(v)) => {
                if !l.vars().contains(v) {
                    lemma_bind_case(s, right, left, v, l);
                    assert(universe(s, right, left) =~= universe(s, left, right));
                    assert(resolve(bind(s, v, l), resolve(s, left)) == resolve(bind(s, v, l), left));
                    assert(resolve(bind(s, v, l), resolve(s, right)) == resolve(
                        bind(s, v, l),
                        right,
                    ));
                }
            },
            (TypeView::Function(ld, lr), TypeView::Function(rd, rr)) => {
                lemma_descend_first(s, left, right, *ld, *rd);
                lemma_descend_first(s, left, right, *lr, *rr);
                let first = unify_model(s, *ld, *rd);
                lemma_unify_model(s, *ld, *rd);
                let s1 = first.0;
                if first.1 is Ok {
                    lemma_all_vars(s1);
                    assert(universe(s1, *lr, *rr).subset_of(universe(s, left, right)));
                    lemma_unsolved_shrinks(s, left, right, s1, *lr, *rr);
                    assert(descends(s, left, right, s1, *lr, *rr));
                    let second = unify_model(s1, *lr, *rr);
                    lemma_unify_model(s1, *lr, *rr);
                    let s2 = second.0;
                    lemma_extends_trans(s, s1, s2);
                    if second.1 is Ok {
                        assert(resolve(s2, resolve(s, left)) == resolve(s2, left));
                        assert(resolve(s2, resolve(s, right)) == resolve(s2, right));
                        assert(resolve(s2, resolve(s1, *ld)) == resolve(s2, *ld));
                        assert(resolve(s2, resolve(s1, *rd)) == resolve(s2, *rd));
                    }
                }
            },
            _ => {},
        }
    }
}

/// Solving the variable that `var_side` resolves to by the type that
/// `other_side` resolves to.
pub proof fn lemma_bind_case(
    s: Bindings,
    var_side: TypeView,
    other_side: TypeView,
    v: NameView,
    r: TypeView,
)
    requires
        solved(s),
        resolve(s, var_side) == TypeView::Variable(v),
        resolve(s, other_side) == r,
        !r.vars().contains(v),
    ensures
        lookup(s, v) is None,
        solved(bind(s, v, r)),
        extends(s, bind(s, v, r)),
        bind(s, v, r).len() == s.len() + 1,
        all_vars(bind(s, v, r)).subset_of(universe(s, var_side, other_side)),
        resolve(bind(s, v, r), TypeView::Variable(v)) == r,
        resolve(bind(s, v, r), r) == r,
{
    let b = bind(s, v, r);
    lemma_resolve_is_normal(s, var_side);
    lemma_resolve_is_normal(s, other_side);
    lemma_lookup(s, v);
    if let Some(t) = lookup(s, v) {
        let k = choose|k: int| 0 <= k < s.len() && #[trigger] s[k] == (v, t);
        assert(!TypeView::Variable(v).vars().contains(s[k].0));
    }
    lemma_bind_solved(s, v, r);
    lemma_lookup_bind(s, v, r, v);
    lemma_resolve_bind(s, v, r, r);
    lemma_resolve_normal(s, r);
    lemma_replace_absent(r, v, r);
    lemma_all_vars(s);
    lemma_all_vars(b);
    assert forall|w: NameView| all_vars(b).contains(w) implies universe(
        s,
        var_side,
        other_side,
    ).contains(w) by {
        lemma_bind_vars(s, v, r, w);
        if w == v {
            lemma_resolve_vars(s, var_side, w);
        } else if r.vars().contains(w) {
            lemma_resolve_vars(s, other_side, w);
        }
    }
}

} // verus!
