//! Substitutions: finite lists of solved unification variables, and what
//! it means to apply one to a type.

use std::rc::Rc;
use vstd::prelude::*;
use vstd::set_lib::lemma_len_subset;
use crate::names::{Name, NameView};
use crate::types::{lemma_replace_vars, lemma_vars_finite, Type, TypeView};

verus! {

/// A substitution: each entry gives a variable and the type it was solved to.
pub type Bindings = Seq<(NameView, TypeView)>;

/// The solution recorded for `v`, if any; a later entry hides an earlier one.
pub open spec fn lookup(s: Bindings, v: NameView) -> Option<TypeView>
    decreases s.len(),
{
    if s.len() == 0 {
        None
    } else if s.last().0 == v {
        Some(s.last().1)
    } else {
        lookup(s.drop_last(), v)
    }
}

/// The type `t` with every solved variable replaced by its solution.
pub open spec fn resolve(s: Bindings, t: TypeView) -> TypeView
    decreases t,
{
    match t {
        TypeView::Primitive(_) => t,
        TypeView::Variable(v) => match lookup(s, v) {
            Some(r) => r,
            None => t,
        },
        TypeView::Function(dom, range) => TypeView::Function(
            Box::new(resolve(s, *dom)),
            Box::new(resolve(s, *range)),
        ),
    }
}

/// `t` mentions no variable that `s` has solved.
pub open spec fn normal(s: Bindings, t: TypeView) -> bool {
    forall|k: int| 0 <= k < s.len() ==> !t.vars().contains(#[trigger] s[k].0)
}

/// `s` is in solved form: no variable is solved twice, and no solution
/// mentions a solved variable.
pub open spec fn solved(s: Bindings) -> bool {
    &&& forall|j: int, k: int| 0 <= j < k < s.len() ==> (#[trigger] s[j]).0 != (#[trigger] s[k]).0
    &&& forall|k: int| 0 <= k < s.len() ==> normal(s, (#[trigger] s[k]).1)
}

/// `s` extended by the solution `r` for `v`, which is also put in place of
/// `v` in the solutions that `s` already holds.
pub open spec fn bind(s: Bindings, v: NameView, r: TypeView) -> Bindings {
    replace_all(s, v, r).push((v, r))
}

/// The list `s` with `r` in place of `v` in every solution.
pub open spec fn replace_all(s: Bindings, v: NameView, r: TypeView) -> Bindings {
    Seq::new(s.len(), |k: int| (s[k].0, s[k].1.replace(v, r)))
}

/// `later` knows all that `s` knows: resolving by `s` first makes no
/// difference to what `later` resolves a type to.
pub open spec fn extends(s: Bindings, later: Bindings) -> bool {
    forall|t: TypeView| #[trigger] resolve(later, resolve(s, t)) == resolve(later, t)
}

/// The variables in play when `left` and `right` are unified under `s`.
pub open spec fn universe(s: Bindings, left: TypeView, right: TypeView) -> Set<NameView> {
    all_vars(s).union(left.vars()).union(right.vars())
}

/// How many of the variables in play are not solved yet.
pub open spec fn unsolved(s: Bindings, left: TypeView, right: TypeView) -> nat {
    (universe(s, left, right).len() - s.len()) as nat
}

/// Some entry of `s` solves `w` or mentions it in its solution.
pub open spec fn mentions(s: Bindings, w: NameView) -> bool {
    exists|k: int| 0 <= k < s.len() && (#[trigger] s[k].0 == w || s[k].1.vars().contains(w))
}

/// Every variable that `s` solves or mentions.
pub open spec fn all_vars(s: Bindings) -> Set<NameView>
    decreases s.len(),
{
    if s.len() == 0 {
        Set::empty()
    } else {
        all_vars(s.drop_last()).union(s.last().1.vars()).insert(s.last().0)
    }
}

/// What `lookup` finds is an entry of the list, and it finds nothing only
/// where no entry solves the variable.
pub proof fn lemma_lookup(s: Bindings, v: NameView)
    ensures
        match lookup(s, v) {
            Some(t) => exists|k: int| 0 <= k < s.len() && #[trigger] s[k] == (v, t),
            None => forall|k: int| 0 <= k < s.len() ==> (#[trigger] s[k]).0 != v,
        },
    decreases s.len(),
{
    if s.len() == 0 {
    } else if s.last().0 == v {
        assert(s[s.len() - 1] == (v, s.last().1));
    } else {
        let p = s.drop_last();
        lemma_lookup(p, v);
        match lookup(p, v) {
            Some(t) => {
                let k = choose|k: int| 0 <= k < p.len() && #[trigger] p[k] == (v, t);
                assert(s[k] == (v, t));
            },
            None => {
                assert forall|k: int| 0 <= k < s.len() implies (#[trigger] s[k]).0 != v by {
                    if k < p.len() {
                        assert(p[k].0 != v);
                    }
                }
            },
        }
    }
}

/// In a solved list, the entry at `k` is what `lookup` finds for its variable.
pub proof fn lemma_lookup_at(s: Bindings, k: int)
    requires
        solved(s),
        0 <= k < s.len(),
    ensures
        lookup(s, s[k].0) == Some(s[k].1),
{
    lemma_lookup(s, s[k].0);
    match lookup(s, s[k].0) {
        Some(t) => {
            let j = choose|j: int| 0 <= j < s.len() && #[trigger] s[j] == (s[k].0, t);
            if j < k {
                assert(s[j].0 != s[k].0);
            } else if k < j {
                assert(s[k].0 != s[j].0);
            }
        },
        None => {
            assert(s[k].0 != s[k].0);
        },
    }
}

/// A type that mentions no solved variable resolves to itself.
pub proof fn lemma_resolve_normal(s: Bindings, t: TypeView)
    requires
        normal(s, t),
    ensures
        resolve(s, t) == t,
    decreases t,
{
    match t {
        TypeView::Primitive(_) => {},
        TypeView::Variable(v) => {
            lemma_lookup(s, v);
            if let Some(r) = lookup(s, v) {
                let k = choose|k: int| 0 <= k < s.len() && #[trigger] s[k] == (v, r);
                assert(!t.vars().contains(s[k].0));
            }
        },
        TypeView::Function(dom, range) => {
            assert(normal(s, *dom));
            assert(normal(s, *range));
            lemma_resolve_normal(s, *dom);
            lemma_resolve_normal(s, *range);
        },
    }
}

/// Under a solved list, a resolved type mentions no solved variable.
pub proof fn lemma_resolve_is_normal(s: Bindings, t: TypeView)
    requires
        solved(s),
    ensures
        normal(s, resolve(s, t)),
    decreases t,
{
    match t {
        TypeView::Primitive(_) => {},
        TypeView::Variable(v) => {
            lemma_lookup(s, v);
            match lookup(s, v) {
                Some(r) => {
                    let k = choose|k: int| 0 <= k < s.len() && #[trigger] s[k] == (v, r);
                    assert(normal(s, s[k].1));
                },
                None => {},
            }
        },
        TypeView::Function(dom, range) => {
            lemma_resolve_is_normal(s, *dom);
            lemma_resolve_is_normal(s, *range);
        },
    }
}

/// Resolving twice is resolving once.
pub proof fn lemma_resolve_idempotent(s: Bindings, t: TypeView)
    requires
        solved(s),
    ensures
        resolve(s, resolve(s, t)) == resolve(s, t),
{
    lemma_resolve_is_normal(s, t);
    lemma_resolve_normal(s, resolve(s, t));
}

/// A variable of a resolved type was in the type or is mentioned by the list.
pub proof fn lemma_resolve_vars(s: Bindings, t: TypeView, w: NameView)
    requires
        resolve(s, t).vars().contains(w),
    ensures
        t.vars().contains(w) || mentions(s, w),
    decreases t,
{
    match t {
        TypeView::Primitive(_) => {},
        TypeView::Variable(v) => {
            lemma_lookup(s, v);
            if let Some(r) = lookup(s, v) {
                let k = choose|k: int| 0 <= k < s.len() && #[trigger] s[k] == (v, r);
                assert(s[k].0 == w || s[k].1.vars().contains(w));
            }
        },
        TypeView::Function(dom, range) => {
            if resolve(s, *dom).vars().contains(w) {
                lemma_resolve_vars(s, *dom, w);
            } else {
                lemma_resolve_vars(s, *range, w);
            }
        },
    }
}

/// `all_vars` is finite and holds exactly the variables that the list mentions.
pub proof fn lemma_all_vars(s: Bindings)
    ensures
        all_vars(s).finite(),
        forall|w: NameView| all_vars(s).contains(w) <==> mentions(s, w),
    decreases s.len(),
{
    if s.len() == 0 {
    } else {
        let p = s.drop_last();
        lemma_all_vars(p);
        lemma_vars_finite(s.last().1);
        assert forall|w: NameView| all_vars(s).contains(w) <==> mentions(s, w) by {
            if mentions(s, w) {
                let k = choose|k: int|
                    0 <= k < s.len() && (#[trigger] s[k].0 == w || s[k].1.vars().contains(w));
                if k < p.len() {
                    assert(p[k].0 == w || p[k].1.vars().contains(w));
                    assert(mentions(p, w));
                }
            }
            if all_vars(s).contains(w) {
                if mentions(p, w) {
                    let k = choose|k: int|
                        0 <= k < p.len() && (#[trigger] p[k].0 == w || p[k].1.vars().contains(w));
                    assert(s[k].0 == w || s[k].1.vars().contains(w));
                } else {
                    let k = s.len() - 1;
                    assert(s[k].0 == w || s[k].1.vars().contains(w));
                }
            }
        }
    }
}

/// A solved list has at most as many entries as it mentions variables.
pub proof fn lemma_solved_len(s: Bindings)
    requires
        solved(s),
    ensures
        s.len() <= all_vars(s).len(),
{
    let keys = s.map_values(|b: (NameView, TypeView)| b.0);
    assert(keys.no_duplicates()) by {
        assert forall|i: int, j: int|
            0 <= i < keys.len() && 0 <= j < keys.len() && i != j implies keys[i] != keys[j] by {
            if i < j {
                assert(s[i].0 != s[j].0);
            } else {
                assert(s[j].0 != s[i].0);
            }
        }
    }
    keys.unique_seq_to_set();
    lemma_all_vars(s);
    assert(keys.to_set().subset_of(all_vars(s))) by {
        assert forall|w: NameView| keys.to_set().contains(w) implies all_vars(s).contains(w) by {
            let k = choose|k: int| 0 <= k < keys.len() && keys[k] == w;
            assert(s[k].0 == w);
            assert(mentions(s, w));
        }
    }
    lemma_len_subset(keys.to_set(), all_vars(s));
}

/// What `lookup` finds after `replace_all` is what it found before, rewritten.
pub proof fn lemma_lookup_replace_all(s: Bindings, v: NameView, r: TypeView, u: NameView)
    ensures
        lookup(replace_all(s, v, r), u) == match lookup(s, u) {
            Some(t) => Some(t.replace(v, r)),
            None => None,
        },
    decreases s.len(),
{
    if s.len() > 0 {
        assert(replace_all(s, v, r).drop_last() =~= replace_all(s.drop_last(), v, r));
        lemma_lookup_replace_all(s.drop_last(), v, r, u);
    }
}

/// What `lookup` finds after `bind`.
pub proof fn lemma_lookup_bind(s: Bindings, v: NameView, r: TypeView, u: NameView)
    ensures
        lookup(bind(s, v, r), u) == if u == v {
            Some(r)
        } else {
            match lookup(s, u) {
                Some(t) => Some(t.replace(v, r)),
                None => None,
            }
        },
{
    assert(bind(s, v, r).drop_last() =~= replace_all(s, v, r));
    lemma_lookup_replace_all(s, v, r, u);
}

/// Resolving after `bind` is resolving before it, then replacing the new
/// variable by its solution.
pub proof fn lemma_resolve_bind(s: Bindings, v: NameView, r: TypeView, t: TypeView)
    requires
        lookup(s, v) is None,
    ensures
        resolve(bind(s, v, r), t) == resolve(s, t).replace(v, r),
    decreases t,
{
    match t {
        TypeView::Primitive(_) => {},
        TypeView::Variable(u) => {
            lemma_lookup_bind(s, v, r, u);
        },
        TypeView::Function(dom, range) => {
            lemma_resolve_bind(s, v, r, *dom);
            lemma_resolve_bind(s, v, r, *range);
        },
    }
}

/// Binding a fresh variable to a type that mentions neither it nor a solved
/// variable keeps the list in solved form.
pub proof fn lemma_bind_solved(s: Bindings, v: NameView, r: TypeView)
    requires
        solved(s),
        lookup(s, v) is None,
        normal(s, r),
        !r.vars().contains(v),
    ensures
        solved(bind(s, v, r)),
        extends(s, bind(s, v, r)),
        bind(s, v, r).len() == s.len() + 1,
{
    let b = bind(s, v, r);
    lemma_lookup(s, v);
    assert forall|k: int| 0 <= k < b.len() implies normal(b, (#[trigger] b[k]).1) by {
        assert forall|j: int| 0 <= j < b.len() implies !b[k].1.vars().contains(
            #[trigger] b[j].0,
        ) by {
            let w = b[j].0;
            if k < s.len() {
                lemma_replace_vars(s[k].1, v, r, w);
                assert(normal(s, s[k].1));
            }
            if j < s.len() {
                assert(w == s[j].0);
            }
        }
    }
    assert forall|t: TypeView| #[trigger] resolve(b, resolve(s, t)) == resolve(b, t) by {
        lemma_resolve_idempotent(s, t);
        lemma_resolve_bind(s, v, r, resolve(s, t));
        lemma_resolve_bind(s, v, r, t);
    }
}

/// After `bind`, the list mentions only what it mentioned before, the new
/// variable, and the variables of its solution.
pub proof fn lemma_bind_vars(s: Bindings, v: NameView, r: TypeView, w: NameView)
    requires
        mentions(bind(s, v, r), w),
    ensures
        mentions(s, w) || w == v || r.vars().contains(w),
{
    let b = bind(s, v, r);
    let k = choose|k: int| 0 <= k < b.len() && (#[trigger] b[k].0 == w || b[k].1.vars().contains(w));
    if k < s.len() {
        lemma_replace_vars(s[k].1, v, r, w);
        assert(s[k].0 == w || s[k].1.vars().contains(w) || r.vars().contains(w));
    }
}

/// `extends` is transitive.
pub proof fn lemma_extends_trans(a: Bindings, b: Bindings, c: Bindings)
    requires
        extends(a, b),
        extends(b, c),
    ensures
        extends(a, c),
{
    assert forall|t: TypeView| #[trigger] resolve(c, resolve(a, t)) == resolve(c, t) by {
        assert(resolve(c, resolve(b, resolve(a, t))) == resolve(c, resolve(a, t)));
        assert(resolve(b, resolve(a, t)) == resolve(b, t));
        assert(resolve(c, resolve(b, t)) == resolve(c, t));
    }
}

/// A solved list extends itself.
pub proof fn lemma_extends_refl(s: Bindings)
    requires
        solved(s),
    ensures
        extends(s, s),
{
    assert forall|t: TypeView| #[trigger] resolve(s, resolve(s, t)) == resolve(s, t) by {
        lemma_resolve_idempotent(s, t);
    }
}

/// The universe is finite and no smaller than a solved list.
pub proof fn lemma_universe(s: Bindings, left: TypeView, right: TypeView)
    requires
        solved(s),
    ensures
        universe(s, left, right).finite(),
        s.len() <= universe(s, left, right).len(),
{
    lemma_all_vars(s);
    lemma_vars_finite(left);
    lemma_vars_finite(right);
    lemma_solved_len(s);
    lemma_len_subset(all_vars(s), universe(s, left, right));
}

/// Where the variables in play shrink and the list does not, fewer
/// variables, or as many, are unsolved.
pub proof fn lemma_unsolved_shrinks(
    s: Bindings,
    left: TypeView,
    right: TypeView,
    s2: Bindings,
    left2: TypeView,
    right2: TypeView,
)
    requires
        solved(s),
        solved(s2),
        s.len() <= s2.len(),
        universe(s2, left2, right2).subset_of(universe(s, left, right)),
    ensures
        unsolved(s2, left2, right2) <= unsolved(s, left, right),
        s.len() < s2.len() ==> unsolved(s2, left2, right2) < unsolved(s, left, right),
{
    lemma_universe(s, left, right);
    lemma_universe(s2, left2, right2);
    lemma_len_subset(universe(s2, left2, right2), universe(s, left, right));
}

/// The values of a list of names paired with types.
pub open spec fn view_pairs(list: Seq<(Name, Rc<Type>)>) -> Bindings {
    Seq::new(list.len(), |k: int| (list[k].0@, list[k].1@))
}

/// The type that the last entry for `var` in `list` holds, if there is one.
pub fn find(list: &[(Name, Rc<Type>)], var: &Name) -> (res: Option<Rc<Type>>)
    ensures
        match res {
            Some(t) => lookup(view_pairs(list@), var@) == Some(t@),
            None => lookup(view_pairs(list@), var@) is None,
        },
{
    let ghost all = view_pairs(list@);
    let mut i: usize = list.len();
    proof {
        assert(all.subrange(0, i as int) =~= all);
    }
    while i > 0
        invariant
            i <= list.len(),
            all == view_pairs(list@),
            lookup(all, var@) == lookup(all.subrange(0, i as int), var@),
        decreases i,
    {
        proof {
            assert(all.subrange(0, i as int).drop_last() =~= all.subrange(0, i - 1));
        }
        i = i - 1;
        if list[i].0.same(var) {
            return Some(Rc::clone(&list[i].1));
        }
    }
    proof {
        assert(all.subrange(0, 0).len() == 0);
    }
    None
}

} // verus!
