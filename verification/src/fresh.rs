//! Freshness: a variable that the engine generates occurs nowhere before
//! it is generated, provided the environment was made without such names.

use vstd::prelude::*;
use crate::ast::AstView;
use crate::env::EnvView;
use crate::globals::{arrow, bool_type};
use crate::infer::{elaborate, fresh_name, infer, range_base, unify_at, EngineView};
use crate::names::NameView;
use crate::subst::{
    all_vars, lemma_all_vars, lemma_resolve_vars, mentions, solved, universe, Bindings,
};
use crate::types::TypeView;
use crate::unify::{lemma_unify_model, unify_model};

verus! {

/// The name `w` is none of those that an engine which has generated `uniq`
/// names will generate for the range of an application.
pub open spec fn stale(w: NameView, uniq: int) -> bool {
    match w {
        NameView::Unique(base, n) => !(*base == range_base() && n > uniq),
        _ => true,
    }
}

/// Every variable of `t` is stale.
pub open spec fn stale_type(t: TypeView, uniq: int) -> bool {
    forall|w: NameView| t.vars().contains(w) ==> stale(w, uniq)
}

/// Every variable that the substitution mentions is stale.
pub open spec fn stale_bindings(s: Bindings, uniq: int) -> bool {
    forall|w: NameView| mentions(s, w) ==> stale(w, uniq)
}

/// Every variable of every type that the environment binds is stale.
pub open spec fn stale_env(env: EnvView, uniq: int) -> bool {
    &&& forall|x: NameView| env.vars.contains_key(x) ==> stale_type(#[trigger] env.vars[x], uniq)
    &&& forall|x: NameView| env.types.contains_key(x) ==> stale_type(#[trigger] env.types[x], uniq)
}

/// What is stale stays stale as more names are generated.
pub proof fn lemma_stale_later(w: NameView, uniq: int, later: int)
    requires
        stale(w, uniq),
        uniq <= later,
    ensures
        stale(w, later),
{
}

/// An environment that is stale stays stale as more names are generated.
pub proof fn lemma_stale_env_later(env: EnvView, uniq: int, later: int)
    requires
        stale_env(env, uniq),
        uniq <= later,
    ensures
        stale_env(env, later),
{
    assert forall|x: NameView| env.vars.contains_key(x) implies stale_type(
        #[trigger] env.vars[x],
        later,
    ) by {
        lemma_stale_types_later(env.vars[x], uniq, later);
    }
    assert forall|x: NameView| env.types.contains_key(x) implies stale_type(
        #[trigger] env.types[x],
        later,
    ) by {
        lemma_stale_types_later(env.types[x], uniq, later);
    }
}

/// A type expression denotes a type made of what the environment binds.
pub proof fn lemma_elaborate_stale(env: EnvView, ast: AstView, uniq: int)
    requires
        stale_env(env, uniq),
    ensures
        elaborate(env, ast) matches Ok(t) ==> stale_type(t, uniq),
    decreases ast,
{
    match ast {
        AstView::TyFn(_, dom, range) => {
            lemma_elaborate_stale(env, *dom, uniq);
            lemma_elaborate_stale(env, *range, uniq);
        },
        _ => {},
    }
}

/// Unifying stale types under a stale substitution leaves a stale
/// substitution and gives a stale type.
pub proof fn lemma_unify_stale(s: Bindings, left: TypeView, right: TypeView, uniq: int)
    requires
        solved(s),
        stale_bindings(s, uniq),
        stale_type(left, uniq),
        stale_type(right, uniq),
    ensures
        stale_bindings(unify_model(s, left, right).0, uniq),
        unify_model(s, left, right).1 matches Ok(t) ==> stale_type(t, uniq),
{
    let out = unify_model(s, left, right);
    lemma_unify_model(s, left, right);
    lemma_all_vars(s);
    lemma_all_vars(out.0);
    assert forall|w: NameView| mentions(out.0, w) implies stale(w, uniq) by {
        assert(all_vars(out.0).contains(w));
        assert(universe(s, left, right).contains(w));
    }
    if let Ok(t) = out.1 {
        assert forall|w: NameView| t.vars().contains(w) implies stale(w, uniq) by {
            lemma_resolve_vars(out.0, left, w);
        }
    }
}

/// Inference from a stale state in a stale environment leaves a stale
/// state and gives a stale type.
pub proof fn lemma_infer_stale(st: EngineView, env: EnvView, ast: AstView)
    requires
        solved(st.soln),
        stale_bindings(st.soln, st.uniq),
        stale_env(env, st.uniq),
    ensures
        solved(infer(st, env, ast).0.soln),
        st.uniq <= infer(st, env, ast).0.uniq,
        stale_bindings(infer(st, env, ast).0.soln, infer(st, env, ast).0.uniq),
        infer(st, env, ast).1 matches Ok(t) ==> stale_type(t, infer(st, env, ast).0.uniq),
    decreases ast,
{
    match ast {
        AstView::Variable(_, name) => {
            if env.vars.contains_key(name) {
                assert(stale_type(env.vars[name], st.uniq));
            }
        },
        AstView::Application(loc, func, arg) => {
            lemma_infer_stale(st, env, *func);
            let (s1, func_out) = infer(st, env, *func);
            if let Ok(func_ty) = func_out {
                lemma_stale_env_later(env, st.uniq, s1.uniq);
                lemma_infer_stale(s1, env, *arg);
                let (s2, arg_out) = infer(s1, env, *arg);
                if let Ok(arg_ty) = arg_out {
                    if s2.uniq < i32::MAX {
                        let range = TypeView::Variable(fresh_name(s2.uniq, range_base()));
                        let up = s2.uniq + 1;
                        lemma_stale_types_later(func_ty, s1.uniq, up);
                        lemma_stale_types_later(arg_ty, s2.uniq, up);
                        lemma_stale_bindings_later(s2.soln, s2.uniq, up);
                        assert(stale_type(arrow(arg_ty, range), up)) by {
                            let applied = arrow(arg_ty, range);
                            assert forall|w: NameView| applied.vars().contains(w) implies stale(
                                w,
                                up,
                            ) by {
                                if arg_ty.vars().contains(w) {
                                } else {
                                    assert(range.vars().contains(w));
                                }
                            }
                        }
                        lemma_unify_stale(s2.soln, arrow(arg_ty, range), func_ty, up);
                        lemma_unify_model(s2.soln, arrow(arg_ty, range), func_ty);
                    }
                }
            }
        },
        AstView::Abstraction(_, param, body) => {
            if let AstView::Ascription(_, binder, ty) = *param {
                lemma_elaborate_stale(env, *ty, st.uniq);
                if let Ok(param_ty) = elaborate(env, *ty) {
                    if let AstView::Variable(_, name) = *binder {
                        let inner = EnvView {
                            vars: env.vars.insert(name, param_ty),
                            types: env.types,
                        };
                        assert(stale_env(inner, st.uniq)) by {
                            assert forall|x: NameView| inner.vars.contains_key(x) implies stale_type(
                                #[trigger] inner.vars[x],
                                st.uniq,
                            ) by {
                                if x != name {
                                    assert(stale_type(env.vars[x], st.uniq));
                                }
                            }
                        }
                        lemma_infer_stale(st, inner, *body);
                        let (s1, body_out) = infer(st, inner, *body);
                        if let Ok(body_ty) = body_out {
                            lemma_stale_types_later(param_ty, st.uniq, s1.uniq);
                        }
                    }
                }
            }
        },
        AstView::If(loc, cond, cons, alt) => {
            lemma_infer_stale(st, env, *cond);
            let (s1, cond_out) = infer(st, env, *cond);
            if let Ok(cond_ty) = cond_out {
                lemma_stale_env_later(env, st.uniq, s1.uniq);
                lemma_infer_stale(s1, env, *cons);
                let (s2, cons_out) = infer(s1, env, *cons);
                if let Ok(cons_ty) = cons_out {
                    lemma_stale_env_later(env, s1.uniq, s2.uniq);
                    lemma_infer_stale(s2, env, *alt);
                    let (s3, alt_out) = infer(s2, env, *alt);
                    if let Ok(alt_ty) = alt_out {
                        lemma_stale_types_later(cond_ty, s1.uniq, s3.uniq);
                        lemma_stale_types_later(cons_ty, s2.uniq, s3.uniq);
                        lemma_unify_stale(s3.soln, cond_ty, bool_type(), s3.uniq);
                        lemma_unify_model(s3.soln, cond_ty, bool_type());
                        let (s4, test) = unify_at(cond.loc(), s3, cond_ty, bool_type());
                        lemma_unify_stale(s4.soln, cons_ty, alt_ty, s3.uniq);
                        lemma_unify_model(s4.soln, cons_ty, alt_ty);
                    }
                }
            }
        },
        AstView::Ascription(loc, value, ty) => {
            lemma_infer_stale(st, env, *value);
            let (s1, value_out) = infer(st, env, *value);
            if let Ok(got) = value_out {
                lemma_stale_env_later(env, st.uniq, s1.uniq);
                lemma_elaborate_stale(env, *ty, s1.uniq);
                if let Ok(expected) = elaborate(env, *ty) {
                    lemma_unify_stale(s1.soln, got, expected, s1.uniq);
                    lemma_unify_model(s1.soln, got, expected);
                }
            }
        },
        _ => {},
    }
}

/// A stale type stays stale as more names are generated.
pub proof fn lemma_stale_types_later(t: TypeView, uniq: int, later: int)
    requires
        stale_type(t, uniq),
        uniq <= later,
    ensures
        stale_type(t, later),
{
    assert forall|w: NameView| t.vars().contains(w) implies stale(w, later) by {
        lemma_stale_later(w, uniq, later);
    }
}

/// A stale substitution stays stale as more names are generated.
pub proof fn lemma_stale_bindings_later(s: Bindings, uniq: int, later: int)
    requires
        stale_bindings(s, uniq),
        uniq <= later,
    ensures
        stale_bindings(s, later),
{
    assert forall|w: NameView| mentions(s, w) implies stale(w, later) by {
        lemma_stale_later(w, uniq, later);
    }
}

} // verus!
