//! The typing rules, and that inference follows them: the type that is
//! inferred for an expression is a type that the rules give it.

use vstd::prelude::*;
use crate::ast::AstView;
use crate::env::EnvView;
use crate::globals::{arrow, bool_type, int_type};
use crate::infer::{
    elaborate, fresh_name, infer, initial, lemma_infer, range_base, typecheck_model, EngineView,
};
use crate::subst::{extends, lemma_extends_refl, lemma_extends_trans, resolve, solved, Bindings};
use crate::types::TypeView;
use crate::unify::{lemma_unify_model, unify_model};

verus! {

/// A derivation by the typing rules: for each application in the
/// expression the type of its argument, laid out as the expression is.
pub ghost enum Derivation {
    /// For a literal or a variable.
    Leaf,
    /// For an application: the type of the argument, and the derivations
    /// for the function and for the argument.
    Apply(TypeView, Box<Derivation>, Box<Derivation>),
    /// For an abstraction: the derivation for the body.
    Abstract(Box<Derivation>),
    /// For a conditional: the derivations for condition, consequent and
    /// alternative.
    Branch(Box<Derivation>, Box<Derivation>, Box<Derivation>),
    /// For an ascription: the derivation for the expression.
    Ascribe(Box<Derivation>),
}

/// `d` derives that the expression `ast` has the type `t` in `env`, where
/// variables stand for what `s` has solved them to.
///
/// - An integer literal has the type of integers, a boolean literal that
///   of booleans.
/// - A variable has the type that the environment binds it to.
/// - An application has the type `t` where the function has a type from
///   some type to `t` and the argument has that type.
/// - An abstraction `fn(x: T) { e }` has the type from what `T` denotes to
///   a type that `e` has with `x` bound to what `T` denotes.
/// - A conditional has the type `t` where the condition is a boolean and
///   both branches have the type `t`.
/// - An ascription `e : T` has the type that `T` denotes where `e` has it.
pub open spec fn derives(d: Derivation, s: Bindings, env: EnvView, ast: AstView, t: TypeView) -> bool
    decreases ast,
{
    match ast {
        AstView::Integer(_, _) => t == int_type(),
        AstView::Boolean(_, _) => t == bool_type(),
        AstView::Variable(_, name) => env.vars.contains_key(name) && t == resolve(
            s,
            env.vars[name],
        ),
        AstView::Application(_, func, arg) => match d {
            Derivation::Apply(from, df, da) => derives(*df, s, env, *func, arrow(from, t))
                && derives(*da, s, env, *arg, from),
            _ => false,
        },
        AstView::Abstraction(_, param, body) => match (d, *param) {
            (Derivation::Abstract(db), AstView::Ascription(_, binder, ty)) => match (
                *binder,
                elaborate(env, *ty),
                t,
            ) {
                (
                    AstView::Variable(_, name),
                    Ok(param_ty),
                    TypeView::Function(dom, range),
                ) => *dom == resolve(s, param_ty) && derives(
                    *db,
                    s,
                    EnvView { vars: env.vars.insert(name, param_ty), types: env.types },
                    *body,
                    *range,
                ),
                _ => false,
            },
            _ => false,
        },
        AstView::If(_, cond, cons, alt) => match d {
            Derivation::Branch(dc, da, db) => derives(*dc, s, env, *cond, bool_type()) && derives(
                *da,
                s,
                env,
                *cons,
                t,
            ) && derives(*db, s, env, *alt, t),
            _ => false,
        },
        AstView::Ascription(_, value, ty) => match (d, elaborate(env, *ty)) {
            (Derivation::Ascribe(dv), Ok(expected)) => t == resolve(s, expected) && derives(
                *dv,
                s,
                env,
                *value,
                t,
            ),
            _ => false,
        },
        _ => false,
    }
}

/// The expression `ast` has the type `t` in `env` under `s`: some
/// derivation shows it.
pub open spec fn has_type(s: Bindings, env: EnvView, ast: AstView, t: TypeView) -> bool {
    exists|d: Derivation| derives(d, s, env, ast, t)
}

/// The type that is inferred for an expression is a type that it has,
/// under every substitution that knows what the engine has found. The
/// derivation is returned.
pub proof fn lemma_infer_sound(st: EngineView, env: EnvView, ast: AstView, later: Bindings) -> (d:
    Derivation)
    requires
        solved(st.soln),
        infer(st, env, ast).1 is Ok,
        extends(infer(st, env, ast).0.soln, later),
    ensures
        derives(d, later, env, ast, resolve(later, infer(st, env, ast).1->Ok_0)),
    decreases ast,
{
    match ast {
        AstView::Application(loc, func, arg) => {
            lemma_infer(st, env, *func);
            let (s1, func_out) = infer(st, env, *func);
            let func_ty = func_out->Ok_0;
            lemma_infer(s1, env, *arg);
            let (s2, arg_out) = infer(s1, env, *arg);
            let arg_ty = arg_out->Ok_0;
            let range = TypeView::Variable(fresh_name(s2.uniq, range_base()));
            let applied = arrow(arg_ty, range);
            lemma_unify_model(s2.soln, applied, func_ty);
            let s4 = unify_model(s2.soln, applied, func_ty).0;
            lemma_extends_trans(s2.soln, s4, later);
            lemma_extends_trans(s1.soln, s2.soln, later);
            let df = lemma_infer_sound(st, env, *func, later);
            let da = lemma_infer_sound(s1, env, *arg, later);
            assert(resolve(later, resolve(s4, func_ty)) == resolve(later, func_ty));
            assert(resolve(later, resolve(s4, applied)) == resolve(later, applied));
            let from = resolve(later, arg_ty);
            assert(resolve(later, func_ty) == arrow(from, resolve(later, range)));
            Derivation::Apply(from, Box::new(df), Box::new(da))
        },
        AstView::Abstraction(_, param, body) => {
            let binder = param->Ascription_1;
            let ty = param->Ascription_2;
            let param_ty = elaborate(env, *ty)->Ok_0;
            let name = binder->Variable_1;
            let inner = EnvView { vars: env.vars.insert(name, param_ty), types: env.types };
            let db = lemma_infer_sound(st, inner, *body, later);
            Derivation::Abstract(Box::new(db))
        },
        AstView::If(loc, cond, cons, alt) => {
            lemma_infer(st, env, *cond);
            let (s1, cond_out) = infer(st, env, *cond);
            let cond_ty = cond_out->Ok_0;
            lemma_infer(s1, env, *cons);
            let (s2, cons_out) = infer(s1, env, *cons);
            let cons_ty = cons_out->Ok_0;
            lemma_infer(s2, env, *alt);
            let (s3, alt_out) = infer(s2, env, *alt);
            let alt_ty = alt_out->Ok_0;
            lemma_unify_model(s3.soln, cond_ty, bool_type());
            let s4 = unify_model(s3.soln, cond_ty, bool_type()).0;
            lemma_unify_model(s4, cons_ty, alt_ty);
            let s5 = unify_model(s4, cons_ty, alt_ty).0;
            lemma_extends_trans(s4, s5, later);
            lemma_extends_trans(s3.soln, s4, later);
            lemma_extends_trans(s2.soln, s3.soln, later);
            lemma_extends_trans(s1.soln, s2.soln, later);
            let dc = lemma_infer_sound(st, env, *cond, later);
            let da = lemma_infer_sound(s1, env, *cons, later);
            let db = lemma_infer_sound(s2, env, *alt, later);
            assert(resolve(later, resolve(s4, cond_ty)) == resolve(later, cond_ty));
            assert(resolve(later, resolve(s4, bool_type())) == resolve(later, bool_type()));
            assert(resolve(later, resolve(s5, cons_ty)) == resolve(later, cons_ty));
            assert(resolve(later, resolve(s5, alt_ty)) == resolve(later, alt_ty));
            Derivation::Branch(Box::new(dc), Box::new(da), Box::new(db))
        },
        AstView::Ascription(loc, value, ty) => {
            lemma_infer(st, env, *value);
            let (s1, value_out) = infer(st, env, *value);
            let got = value_out->Ok_0;
            let expected = elaborate(env, *ty)->Ok_0;
            lemma_unify_model(s1.soln, got, expected);
            let s2 = unify_model(s1.soln, got, expected).0;
            lemma_extends_trans(s1.soln, s2, later);
            let dv = lemma_infer_sound(st, env, *value, later);
            assert(resolve(later, resolve(s2, got)) == resolve(later, got));
            assert(resolve(later, resolve(s2, expected)) == resolve(later, expected));
            Derivation::Ascribe(Box::new(dv))
        },
        _ => Derivation::Leaf,
    }
}

/// Type checking is sound: the type returned for an expression is a type
/// that the expression has by the typing rules, under the substitution
/// that inference has found.
pub proof fn law_typecheck_sound(env: EnvView, ast: AstView)
    requires
        typecheck_model(env, ast) is Ok,
    ensures
        has_type(
            infer(initial(), env, ast).0.soln,
            env,
            ast,
            typecheck_model(env, ast)->Ok_0,
        ),
{
    let st = initial();
    assert(solved(st.soln));
    lemma_infer(st, env, ast);
    let found = infer(st, env, ast).0.soln;
    lemma_extends_refl(found);
    let d = lemma_infer_sound(st, env, ast, found);
    assert(derives(d, found, env, ast, typecheck_model(env, ast)->Ok_0));
}

} // verus!
