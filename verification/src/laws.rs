//! Laws of type checking: what holds of every expression, environment and
//! engine, proved from the definitions of `infer` and `unify_model`.

use vstd::prelude::*;
use crate::ast::{AstView, LocView};
use crate::env::EnvView;
use crate::fresh::{lemma_infer_stale, lemma_stale_types_later, stale, stale_env, stale_type};
use crate::globals::{arrow, bool_type, int_type};
use crate::infer::{
    elaborate, fresh_name, infer, initial, lemma_infer, range_base, typecheck_model, EngineView,
    TypeErrorView,
};
use crate::names::NameView;
use crate::subst::{
    bind, lemma_lookup, lemma_lookup_bind, lemma_resolve_idempotent, lemma_resolve_is_normal,
    lemma_resolve_normal, lemma_resolve_vars, lookup, mentions, normal, resolve, solved, Bindings,
};
use crate::types::TypeView;
use crate::unify::{lemma_descend_first, lemma_unify_model, unify_model};

verus! {

/// Substitution is idempotent: a type that has been resolved resolves to
/// itself.
pub proof fn law_subst_idempotent(s: Bindings, t: TypeView)
    requires
        solved(s),
    ensures
        resolve(s, resolve(s, t)) == resolve(s, t),
{
    lemma_resolve_idempotent(s, t);
}

/// A literal has its primitive type, whatever the environment binds.
pub proof fn law_literals(env: EnvView, loc: LocView, n: i64, b: bool)
    ensures
        typecheck_model(env, AstView::Integer(loc, n)) == Ok::<TypeView, TypeErrorView>(int_type()),
        typecheck_model(env, AstView::Boolean(loc, b)) == Ok::<TypeView, TypeErrorView>(
            bool_type(),
        ),
{
    let empty = initial().soln;
    assert(resolve(empty, int_type()) == int_type());
    assert(resolve(empty, bool_type()) == bool_type());
}

/// A variable that the environment does not bind is reported as unbound,
/// at the place of the variable.
pub proof fn law_unbound_variable(env: EnvView, loc: LocView, name: NameView)
    requires
        !env.vars.contains_key(name),
    ensures
        typecheck_model(env, AstView::Variable(loc, name)) == Err::<TypeView, TypeErrorView>(
            TypeErrorView::UnboundVariable(loc, name),
        ),
{
}

/// Where the environment binds `f` to the function type from `a` to `b`
/// and the argument has the type `a`, the application of `f` has the type
/// `b`, resolved by what checking the argument has found.
///
/// The environment must mention no variable that the engine generates, and
/// the engine must not have run out of names.
pub proof fn law_application(
    env: EnvView,
    loc: LocView,
    func_loc: LocView,
    f: NameView,
    arg: AstView,
    a: TypeView,
    b: TypeView,
)
    requires
        stale_env(env, 0),
        env.vars.contains_key(f),
        env.vars[f] == arrow(a, b),
        typecheck_model(env, arg) == Ok::<TypeView, TypeErrorView>(a),
        infer(initial(), env, arg).0.uniq < i32::MAX,
    ensures
        typecheck_model(
            env,
            AstView::Application(loc, Box::new(AstView::Variable(func_loc, f)), Box::new(arg)),
        ) == Ok::<TypeView, TypeErrorView>(resolve(infer(initial(), env, arg).0.soln, b)),
{
    let st0 = initial();
    assert(solved(st0.soln));
    assert(forall|w: NameView| !mentions(st0.soln, w));
    lemma_infer_stale(st0, env, arg);
    let (s1, arg_out) = infer(st0, env, arg);
    let arg_ty = arg_out->Ok_0;
    let s = s1.soln;
    let name = fresh_name(s1.uniq, range_base());
    let range = TypeView::Variable(name);
    let left = arrow(arg_ty, range);
    let right = arrow(a, b);
    let b1 = resolve(s, b);
    assert(!stale(name, s1.uniq));
    assert(!mentions(s, name));
    assert(!b.vars().contains(name)) by {
        assert(stale_type(env.vars[f], 0));
        lemma_stale_types_later(env.vars[f], 0, s1.uniq);
        if b.vars().contains(name) {
            assert(right.vars().contains(name));
        }
    }
    assert(!b1.vars().contains(name)) by {
        if b1.vars().contains(name) {
            lemma_resolve_vars(s, b, name);
        }
    }
    assert(resolve(s, range) == range) by {
        lemma_lookup(s, name);
        if let Some(t) = lookup(s, name) {
            let k = choose|k: int| 0 <= k < s.len() && #[trigger] s[k] == (name, t);
            assert(s[k].0 == name || s[k].1.vars().contains(name));
        }
    }
    lemma_resolve_idempotent(s, arg_ty);
    lemma_resolve_idempotent(s, b);
    assert(resolve(s, left) == arrow(a, range));
    assert(resolve(s, right) == arrow(a, b1));
    assert(range != b1) by {
        assert(range.vars().contains(name));
    }
    lemma_descend_first(s, left, right, a, a);
    lemma_descend_first(s, left, right, range, b1);
    reveal_with_fuel(unify_model, 2);
    let first = unify_model(s, a, a);
    assert(first == (s, Ok::<TypeView, crate::unify::Clash>(a)));
    let second = unify_model(s, range, b1);
    assert(second == (bind(s, name, b1), Ok::<TypeView, crate::unify::Clash>(b1)));
    let out = unify_model(s, left, right);
    assert(out.0 == bind(s, name, b1));
    assert(out.1 is Ok);
    lemma_lookup_bind(s, name, b1, name);
    assert(resolve(bind(s, name, b1), range) == b1);
    reveal_with_fuel(infer, 2);
}

/// In the body of `fn(x: T) { .. }` the parameter has the type that `T`
/// denotes, so `fn(x: T) { x }` is a function from that type to itself;
/// and the binding does not reach the environment that the abstraction was
/// checked in, where `x` is as unbound as it was.
pub proof fn law_parameter_scope(
    env: EnvView,
    name: NameView,
    ty: AstView,
    param_ty: TypeView,
    locs: Seq<LocView>,
)
    requires
        locs.len() == 5,
        elaborate(env, ty) == Ok::<TypeView, TypeErrorView>(param_ty),
        !env.vars.contains_key(name),
    ensures
        typecheck_model(
            env,
            AstView::Abstraction(
                locs[0],
                Box::new(
                    AstView::Ascription(
                        locs[1],
                        Box::new(AstView::Variable(locs[2], name)),
                        Box::new(ty),
                    ),
                ),
                Box::new(AstView::Variable(locs[3], name)),
            ),
        ) == Ok::<TypeView, TypeErrorView>(arrow(param_ty, param_ty)),
        typecheck_model(env, AstView::Variable(locs[4], name)) == Err::<TypeView, TypeErrorView>(
            TypeErrorView::UnboundVariable(locs[4], name),
        ),
{
    let empty = initial().soln;
    assert(normal(empty, arrow(param_ty, param_ty)));
    lemma_resolve_normal(empty, arrow(param_ty, param_ty));
    reveal_with_fuel(infer, 2);
}

/// A parameter without a type is rejected, at the place of the parameter.
pub proof fn law_parameter_needs_type(env: EnvView, loc: LocView, param: AstView, body: AstView)
    requires
        !(param is Ascription),
    ensures
        typecheck_model(env, AstView::Abstraction(loc, Box::new(param), Box::new(body)))
            == Err::<TypeView, TypeErrorView>(TypeErrorView::BadDecl(param.loc())),
{
}

/// Two names that an engine generates differ, whatever their bases: the
/// counter of an engine never goes back, and every generated name takes a
/// new count.
pub proof fn law_fresh_names_differ(
    earlier: EngineView,
    later: EngineView,
    base1: NameView,
    base2: NameView,
)
    requires
        earlier.uniq < later.uniq,
    ensures
        fresh_name(earlier.uniq, base1) != fresh_name(later.uniq, base2),
{
}

/// Where unification succeeds, the two types resolve to one and the same
/// type, which is the type returned; and all that was known before is
/// still known.
pub proof fn law_unify_sound(s: Bindings, left: TypeView, right: TypeView)
    requires
        solved(s),
        unify_model(s, left, right).1 is Ok,
    ensures
        resolve(unify_model(s, left, right).0, left) == resolve(
            unify_model(s, left, right).0,
            right,
        ),
        unify_model(s, left, right).1 == Ok::<TypeView, crate::unify::Clash>(
            resolve(unify_model(s, left, right).0, left),
        ),
        solved(unify_model(s, left, right).0),
        crate::subst::extends(s, unify_model(s, left, right).0),
{
    lemma_unify_model(s, left, right);
}

/// The type returned mentions no variable that inference has solved:
/// resolving it once more changes nothing.
pub proof fn law_result_is_resolved(env: EnvView, ast: AstView)
    requires
        typecheck_model(env, ast) is Ok,
    ensures
        normal(infer(initial(), env, ast).0.soln, typecheck_model(env, ast)->Ok_0),
        resolve(infer(initial(), env, ast).0.soln, typecheck_model(env, ast)->Ok_0)
            == typecheck_model(env, ast)->Ok_0,
{
    let st = initial();
    assert(solved(st.soln));
    lemma_infer(st, env, ast);
    let found = infer(st, env, ast).0.soln;
    let inferred = infer(st, env, ast).1->Ok_0;
    lemma_resolve_is_normal(found, inferred);
    lemma_resolve_idempotent(found, inferred);
}

} // verus!
