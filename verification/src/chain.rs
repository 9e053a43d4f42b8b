//! Substitutions as they are stored: a list in which a solution may still
//! mention variables that were solved after it, so that resolving a type
//! may follow a chain of entries. Each such list stands for one in solved
//! form.

use vstd::prelude::*;
use crate::names::NameView;
use crate::subst::{bind, lemma_lookup, lookup, normal, resolve, solved, Bindings};
use crate::types::{lemma_replace_absent, lemma_replace_vars, TypeView};

verus! {

/// No variable is solved twice, and no solution mentions its own variable
/// or one solved before it.
pub open spec fn chained(raw: Bindings) -> bool {
    &&& forall|j: int, k: int|
        0 <= j < k < raw.len() ==> (#[trigger] raw[j]).0 != (#[trigger] raw[k]).0
    &&& forall|j: int, k: int|
        0 <= j <= k < raw.len() ==> !(#[trigger] raw[k]).1.vars().contains((#[trigger] raw[j]).0)
}

/// The type `t` with the entries of `raw` put in place one after the other,
/// oldest first.
pub open spec fn full(raw: Bindings, t: TypeView) -> TypeView
    decreases raw.len(),
{
    if raw.len() == 0 {
        t
    } else {
        full(raw.drop_last(), t).replace(raw.last().0, raw.last().1)
    }
}

/// The solved form of `raw`: each variable with its solution fully resolved.
pub open spec fn solved_form(raw: Bindings) -> Bindings {
    Seq::new(raw.len(), |k: int| (raw[k].0, full(raw, raw[k].1)))
}

/// In a chained list, the entry at `k` is what `lookup` finds for its variable.
pub proof fn lemma_lookup_chained(raw: Bindings, k: int)
    requires
        chained(raw),
        0 <= k < raw.len(),
    ensures
        lookup(raw, raw[k].0) == Some(raw[k].1),
{
    lemma_lookup(raw, raw[k].0);
    match lookup(raw, raw[k].0) {
        Some(t) => {
            let j = choose|j: int| 0 <= j < raw.len() && #[trigger] raw[j] == (raw[k].0, t);
            if j < k {
                assert(raw[j].0 != raw[k].0);
            } else if k < j {
                assert(raw[k].0 != raw[j].0);
            }
        },
        None => {
            assert(raw[k].0 != raw[k].0);
        },
    }
}

/// A type that mentions no solved variable is left as it is.
pub proof fn lemma_full_fixed(raw: Bindings, t: TypeView)
    requires
        normal(raw, t),
    ensures
        full(raw, t) == t,
    decreases raw.len(),
{
    if raw.len() > 0 {
        let p = raw.drop_last();
        assert forall|k: int| 0 <= k < p.len() implies !t.vars().contains(#[trigger] p[k].0) by {
            assert(p[k] == raw[k]);
        }
        lemma_full_fixed(p, t);
        assert(!t.vars().contains(raw[raw.len() - 1].0));
        lemma_replace_absent(t, raw.last().0, raw.last().1);
    }
}

/// All but the last entry of a chained list are a chained list.
pub proof fn lemma_chained_prefix(raw: Bindings)
    requires
        chained(raw),
        raw.len() > 0,
    ensures
        chained(raw.drop_last()),
{
    let p = raw.drop_last();
    assert forall|j: int, k: int| 0 <= j < k < p.len() implies (#[trigger] p[j]).0 != (
    #[trigger] p[k]).0 by {
        assert(p[j] == raw[j] && p[k] == raw[k]);
    }
    assert forall|j: int, k: int| 0 <= j <= k < p.len() implies !(#[trigger] p[k]).1.vars().contains(
        (#[trigger] p[j]).0,
    ) by {
        assert(p[j] == raw[j] && p[k] == raw[k]);
    }
}

/// What `full` returns mentions no solved variable.
pub proof fn lemma_full_normal(raw: Bindings, t: TypeView)
    requires
        chained(raw),
    ensures
        normal(raw, full(raw, t)),
    decreases raw.len(),
{
    if raw.len() > 0 {
        let p = raw.drop_last();
        let last = raw.len() - 1;
        lemma_chained_prefix(raw);
        lemma_full_normal(p, t);
        let before = full(p, t);
        assert forall|j: int| 0 <= j < raw.len() implies !full(raw, t).vars().contains(
            #[trigger] raw[j].0,
        ) by {
            lemma_replace_vars(before, raw[last].0, raw[last].1, raw[j].0);
            assert(!raw[last].1.vars().contains(raw[j].0));
            if j < last {
                assert(p[j] == raw[j]);
                assert(!before.vars().contains(p[j].0));
            }
        }
    }
}

/// `full` goes through a function type to its two parts, and leaves a
/// primitive type alone.
pub proof fn lemma_full_shape(raw: Bindings, t: TypeView)
    ensures
        match t {
            TypeView::Primitive(_) => full(raw, t) == t,
            TypeView::Variable(_) => true,
            TypeView::Function(dom, range) => full(raw, t) == TypeView::Function(
                Box::new(full(raw, *dom)),
                Box::new(full(raw, *range)),
            ),
        },
    decreases raw.len(),
{
    if raw.len() > 0 {
        lemma_full_shape(raw.drop_last(), t);
    }
}

/// A solved variable resolves to what its solution resolves to.
pub proof fn lemma_full_key(raw: Bindings, k: int)
    requires
        chained(raw),
        0 <= k < raw.len(),
    ensures
        full(raw, TypeView::Variable(raw[k].0)) == full(raw, raw[k].1),
    decreases raw.len(),
{
    let p = raw.drop_last();
    let last = raw.len() - 1;
    let var = TypeView::Variable(raw[k].0);
    lemma_chained_prefix(raw);
    if k == last {
        assert forall|j: int| 0 <= j < p.len() implies !var.vars().contains(#[trigger] p[j].0) by {
            assert(p[j] == raw[j]);
            assert(raw[j].0 != raw[k].0);
        }
        lemma_full_fixed(p, var);
        assert forall|j: int| 0 <= j < p.len() implies !raw[k].1.vars().contains(
            #[trigger] p[j].0,
        ) by {
            assert(p[j] == raw[j]);
            assert(!raw[k].1.vars().contains(raw[j].0));
        }
        lemma_full_fixed(p, raw[k].1);
        assert(!raw[k].1.vars().contains(raw[k].0));
        lemma_replace_absent(raw[k].1, raw[k].0, raw[k].1);
    } else {
        assert(p[k] == raw[k]);
        lemma_full_key(p, k);
    }
}

/// Resolving by the solved form is what `full` does.
pub proof fn lemma_resolve_full(raw: Bindings, t: TypeView)
    requires
        chained(raw),
    ensures
        resolve(solved_form(raw), t) == full(raw, t),
    decreases t,
{
    let s = solved_form(raw);
    match t {
        TypeView::Primitive(_) => {
            lemma_full_shape(raw, t);
        },
        TypeView::Variable(u) => {
            lemma_lookup(s, u);
            match lookup(s, u) {
                Some(r) => {
                    let k = choose|k: int| 0 <= k < s.len() && #[trigger] s[k] == (u, r);
                    lemma_full_key(raw, k);
                },
                None => {
                    assert forall|k: int| 0 <= k < raw.len() implies !t.vars().contains(
                        #[trigger] raw[k].0,
                    ) by {
                        assert(s[k].0 != u);
                    }
                    lemma_full_fixed(raw, t);
                },
            }
        },
        TypeView::Function(dom, range) => {
            lemma_full_shape(raw, t);
            lemma_resolve_full(raw, *dom);
            lemma_resolve_full(raw, *range);
        },
    }
}

/// The solved form of a chained list is in solved form.
pub proof fn lemma_solved_form(raw: Bindings)
    requires
        chained(raw),
    ensures
        solved(solved_form(raw)),
{
    let s = solved_form(raw);
    assert forall|j: int, k: int| 0 <= j < k < s.len() implies (#[trigger] s[j]).0 != (
    #[trigger] s[k]).0 by {
        assert(raw[j].0 != raw[k].0);
    }
    assert forall|k: int| 0 <= k < s.len() implies normal(s, (#[trigger] s[k]).1) by {
        lemma_full_normal(raw, raw[k].1);
        assert forall|j: int| 0 <= j < s.len() implies !s[k].1.vars().contains(
            #[trigger] s[j].0,
        ) by {
            assert(s[j].0 == raw[j].0);
        }
    }
}

/// Adding a solution for a fresh variable to the stored list is `bind` on
/// its solved form.
pub proof fn lemma_push(raw: Bindings, v: NameView, r: TypeView)
    requires
        chained(raw),
        normal(raw, r),
        forall|k: int| 0 <= k < raw.len() ==> (#[trigger] raw[k]).0 != v,
        !r.vars().contains(v),
    ensures
        chained(raw.push((v, r))),
        solved_form(raw.push((v, r))) == bind(solved_form(raw), v, r),
{
    let more = raw.push((v, r));
    assert(more.drop_last() =~= raw);
    lemma_full_fixed(raw, r);
    lemma_replace_absent(r, v, r);
    assert forall|j: int, k: int| 0 <= j <= k < more.len() implies !(
    #[trigger] more[k]).1.vars().contains((#[trigger] more[j]).0) by {
        if k < raw.len() {
            assert(more[k] == raw[k] && more[j] == raw[j]);
        } else if j < raw.len() {
            assert(more[j] == raw[j]);
            assert(!r.vars().contains(raw[j].0));
        }
    }
    assert forall|j: int, k: int| 0 <= j < k < more.len() implies (#[trigger] more[j]).0 != (
    #[trigger] more[k]).0 by {
        assert(more[j] == raw[j]);
        if k < raw.len() {
            assert(more[k] == raw[k]);
        }
    }
    assert(solved_form(more) =~= bind(solved_form(raw), v, r));
}

/// The list `raw` with the solution at `k` resolved in full.
pub open spec fn compress(raw: Bindings, k: int) -> Bindings {
    raw.update(k, (raw[k].0, full(raw, raw[k].1)))
}

/// Resolving one solution in place keeps the list chained.
pub proof fn lemma_compress_chained(raw: Bindings, k: int)
    requires
        chained(raw),
        0 <= k < raw.len(),
    ensures
        chained(compress(raw, k)),
{
    let c = compress(raw, k);
    lemma_full_normal(raw, raw[k].1);
    assert forall|j: int, i: int| 0 <= j < i < c.len() implies (#[trigger] c[j]).0 != (
    #[trigger] c[i]).0 by {
        assert(raw[j].0 != raw[i].0);
    }
    assert forall|j: int, i: int| 0 <= j <= i < c.len() implies !(
    #[trigger] c[i]).1.vars().contains((#[trigger] c[j]).0) by {
        assert(c[j].0 == raw[j].0);
        if i != k {
            assert(c[i] == raw[i]);
            assert(!raw[i].1.vars().contains(raw[j].0));
        }
    }
}

/// Resolving one solution in place changes no type's resolution. Stated
/// for types that mention none of the first `j` variables.
proof fn lemma_compress_agree(raw: Bindings, k: int, j: int, t: TypeView)
    requires
        chained(raw),
        0 <= k < raw.len(),
        0 <= j <= raw.len(),
        forall|i: int| 0 <= i < j ==> !t.vars().contains(#[trigger] raw[i].0),
    ensures
        full(compress(raw, k), t) == full(raw, t),
    decreases raw.len() - j, t,
{
    let c = compress(raw, k);
    lemma_compress_chained(raw, k);
    match t {
        TypeView::Primitive(_) => {
            lemma_full_shape(raw, t);
            lemma_full_shape(c, t);
        },
        TypeView::Variable(u) => {
            if exists|i: int| 0 <= i < raw.len() && (#[trigger] raw[i]).0 == u {
                let i = choose|i: int| 0 <= i < raw.len() && (#[trigger] raw[i]).0 == u;
                assert(i >= j) by {
                    if i < j {
                        assert(!t.vars().contains(raw[i].0));
                    }
                }
                assert(c[i].0 == raw[i].0);
                lemma_full_key(raw, i);
                lemma_full_key(c, i);
                if i == k {
                    let done = full(raw, raw[k].1);
                    lemma_full_normal(raw, raw[k].1);
                    assert forall|m: int| 0 <= m < c.len() implies !done.vars().contains(
                        #[trigger] c[m].0,
                    ) by {
                        assert(c[m].0 == raw[m].0);
                    }
                    lemma_full_fixed(c, done);
                } else {
                    assert(c[i] == raw[i]);
                    assert forall|m: int| 0 <= m < i + 1 implies !raw[i].1.vars().contains(
                        #[trigger] raw[m].0,
                    ) by {
                        assert(!raw[i].1.vars().contains(raw[m].0));
                    }
                    lemma_compress_agree(raw, k, i + 1, raw[i].1);
                }
            } else {
                assert forall|m: int| 0 <= m < c.len() implies !t.vars().contains(
                    #[trigger] c[m].0,
                ) by {
                    assert(c[m].0 == raw[m].0);
                }
                lemma_full_fixed(raw, t);
                lemma_full_fixed(c, t);
            }
        },
        TypeView::Function(dom, range) => {
            lemma_full_shape(raw, t);
            lemma_full_shape(c, t);
            lemma_compress_agree(raw, k, j, *dom);
            lemma_compress_agree(raw, k, j, *range);
        },
    }
}

/// Resolving one solution in place leaves the solved form as it was.
pub proof fn lemma_compress(raw: Bindings, k: int)
    requires
        chained(raw),
        0 <= k < raw.len(),
    ensures
        chained(compress(raw, k)),
        solved_form(compress(raw, k)) == solved_form(raw),
{
    let c = compress(raw, k);
    lemma_compress_chained(raw, k);
    assert forall|i: int| 0 <= i < raw.len() implies full(c, c[i].1) == full(raw, raw[i].1) by {
        if i == k {
            let done = full(raw, raw[k].1);
            lemma_full_normal(raw, raw[k].1);
            assert forall|m: int| 0 <= m < c.len() implies !done.vars().contains(
                #[trigger] c[m].0,
            ) by {
                assert(c[m].0 == raw[m].0);
            }
            lemma_full_fixed(c, done);
        } else {
            lemma_compress_agree(raw, k, 0, raw[i].1);
        }
    }
    assert(solved_form(c) =~= solved_form(raw));
}

} // verus!
