//! Type inference as a mathematical function: what type checking returns for
//! an expression, and the state it leaves its engine in.

use vstd::prelude::*;
use crate::ast::{AstView, LocView};
use crate::env::EnvView;
use crate::globals::{arrow, bool_type, int_type};
use crate::names::NameView;
use crate::subst::{
    extends, lemma_extends_refl, lemma_extends_trans, resolve, solved, Bindings,
};
use crate::types::TypeView;
use crate::unify::{lemma_unify_model, unify_model, Clash};

verus! {

/// The state of an inference engine: the number of names it has generated
/// and the substitution it has found, in solved form.
pub ghost struct EngineView {
    pub uniq: int,
    pub soln: Bindings,
}

/// The mathematical value of a type error.
pub ghost enum TypeErrorView {
    Generic(LocView, Seq<char>),
    UnboundVariable(LocView, NameView),
    UnboundType(LocView, NameView),
    BadFunction(LocView, TypeView),
    Mismatch(LocView, TypeView, TypeView),
    BadDecl(LocView),
    BadType(LocView),
    Occur(LocView, TypeView, TypeView),
}

/// What checking yields: a type or an error.
pub type Outcome = Result<TypeView, TypeErrorView>;

/// The state of an engine that has done nothing yet.
pub open spec fn initial() -> EngineView {
    EngineView { uniq: 0, soln: Seq::empty() }
}

/// The name generated from `base` by an engine that has generated `uniq`
/// names before.
pub open spec fn fresh_name(uniq: int, base: NameView) -> NameView {
    NameView::Unique(Box::new(base), uniq + 1)
}

/// The base of the variables that stand for the range of an application.
pub open spec fn range_base() -> NameView {
    NameView::Type("rv"@)
}

/// The type that a type expression denotes in `env`: a name denotes what
/// the type namespace binds it to, an arrow the function type of what its
/// two sides denote; the domain is elaborated first. Anything else is no
/// type expression.
pub open spec fn elaborate(env: EnvView, ast: AstView) -> Outcome
    decreases ast,
{
    match ast {
        AstView::TyName(loc, name) => if env.types.contains_key(name) {
            Ok(env.types[name])
        } else {
            Err(TypeErrorView::UnboundType(loc, name))
        },
        AstView::TyFn(_, dom, range) => match elaborate(env, *dom) {
            Err(e) => Err(e),
            Ok(d) => match elaborate(env, *range) {
                Err(e) => Err(e),
                Ok(r) => Ok(arrow(d, r)),
            },
        },
        _ => Err(TypeErrorView::BadType(ast.loc())),
    }
}

/// `unify_model` on the engine's substitution, with a failure reported at `loc`.
pub open spec fn unify_at(loc: LocView, st: EngineView, left: TypeView, right: TypeView) -> (
    EngineView,
    Outcome,
) {
    let out = unify_model(st.soln, left, right);
    (
        EngineView { uniq: st.uniq, soln: out.0 },
        match out.1 {
            Ok(t) => Ok(t),
            Err(Clash::Mismatch(a, b)) => Err(TypeErrorView::Mismatch(loc, a, b)),
            Err(Clash::Occur(a, b)) => Err(TypeErrorView::Occur(loc, a, b)),
        },
    )
}

/// The message of the error for a node that is no expression.
pub open spec fn unimplemented_message() -> Seq<char> {
    "Unimplemented"@
}

/// The message of the error for an engine that has run out of names.
pub open spec fn exhausted_message() -> Seq<char> {
    "Too many type variables"@
}

/// The type of `ast` in `env`, inferred by an engine in state `st`, and the
/// state of the engine afterwards. Parts are checked left to right and the
/// first error ends the inference.
///
/// - A literal has its primitive type.
/// - A variable has the type that the term namespace binds it to.
/// - An application checks the function, then the argument, generates a
///   variable for the range, and unifies the function type from the
///   argument's type to that variable with the function's type. Its type
///   is the variable.
/// - An abstraction needs a parameter of the shape `x : T`. Its body is
///   checked with `x` bound to what `T` denotes, and its type is the
///   function type from there to the body's type.
/// - A conditional checks condition, consequent and alternative, unifies
///   the condition's type with the booleans (a failure is reported at the
///   condition), then the two branches' types, which is its type.
/// - An ascription unifies the type of its expression with what its type
///   expression denotes.
pub open spec fn infer(st: EngineView, env: EnvView, ast: AstView) -> (EngineView, Outcome)
    decreases ast,
{
    match ast {
        AstView::Integer(_, _) => (st, Ok(int_type())),
        AstView::Boolean(_, _) => (st, Ok(bool_type())),
        AstView::Variable(loc, name) => if env.vars.contains_key(name) {
            (st, Ok(env.vars[name]))
        } else {
            (st, Err(TypeErrorView::UnboundVariable(loc, name)))
        },
        AstView::Application(loc, func, arg) => {
            let (s1, func_out) = infer(st, env, *func);
            match func_out {
                Err(e) => (s1, Err(e)),
                Ok(func_ty) => {
                    let (s2, arg_out) = infer(s1, env, *arg);
                    match arg_out {
                        Err(e) => (s2, Err(e)),
                        Ok(arg_ty) => if s2.uniq >= i32::MAX {
                            (s2, Err(TypeErrorView::Generic(loc, exhausted_message())))
                        } else {
                            let range = TypeView::Variable(fresh_name(s2.uniq, range_base()));
                            let s3 = EngineView { uniq: s2.uniq + 1, soln: s2.soln };
                            let (s4, out) = unify_at(loc, s3, arrow(arg_ty, range), func_ty);
                            match out {
                                Err(e) => (s4, Err(e)),
                                Ok(_) => (s4, Ok(range)),
                            }
                        },
                    }
                },
            }
        },
        AstView::Abstraction(_, param, body) => match *param {
            AstView::Ascription(_, binder, ty) => match elaborate(env, *ty) {
                Err(e) => (st, Err(e)),
                Ok(param_ty) => match *binder {
                    AstView::Variable(_, name) => {
                        let inner = EnvView {
                            vars: env.vars.insert(name, param_ty),
                            types: env.types,
                        };
                        let (s1, body_out) = infer(st, inner, *body);
                        match body_out {
                            Err(e) => (s1, Err(e)),
                            Ok(body_ty) => (s1, Ok(arrow(param_ty, body_ty))),
                        }
                    },
                    _ => (st, Err(TypeErrorView::BadDecl(param.loc()))),
                },
            },
            _ => (st, Err(TypeErrorView::BadDecl(param.loc()))),
        },
        AstView::If(loc, cond, cons, alt) => {
            let (s1, cond_out) = infer(st, env, *cond);
            match cond_out {
                Err(e) => (s1, Err(e)),
                Ok(cond_ty) => {
                    let (s2, cons_out) = infer(s1, env, *cons);
                    match cons_out {
                        Err(e) => (s2, Err(e)),
                        Ok(cons_ty) => {
                            let (s3, alt_out) = infer(s2, env, *alt);
                            match alt_out {
                                Err(e) => (s3, Err(e)),
                                Ok(alt_ty) => {
                                    let (s4, test) = unify_at(cond.loc(), s3, cond_ty, bool_type());
                                    match test {
                                        Err(e) => (s4, Err(e)),
                                        Ok(_) => unify_at(loc, s4, cons_ty, alt_ty),
                                    }
                                },
                            }
                        },
                    }
                },
            }
        },
        AstView::Ascription(loc, value, ty) => {
            let (s1, value_out) = infer(st, env, *value);
            match value_out {
                Err(e) => (s1, Err(e)),
                Ok(got) => match elaborate(env, *ty) {
                    Err(e) => (s1, Err(e)),
                    Ok(expected) => unify_at(loc, s1, got, expected),
                },
            }
        },
        _ => (st, Err(TypeErrorView::Generic(ast.loc(), unimplemented_message()))),
    }
}

/// The type of `ast` in `env`: inferred by a new engine, then resolved by
/// the substitution that the engine has found.
pub open spec fn typecheck_model(env: EnvView, ast: AstView) -> Outcome {
    let (st, out) = infer(initial(), env, ast);
    match out {
        Ok(t) => Ok(resolve(st.soln, t)),
        Err(e) => Err(e),
    }
}

/// Inference keeps the substitution in solved form, forgets nothing that
/// was solved, and never takes back a generated name.
pub proof fn lemma_infer(st: EngineView, env: EnvView, ast: AstView)
    requires
        solved(st.soln),
    ensures
        solved(infer(st, env, ast).0.soln),
        extends(st.soln, infer(st, env, ast).0.soln),
        st.uniq <= infer(st, env, ast).0.uniq,
    decreases ast,
{
    lemma_extends_refl(st.soln);
    match ast {
        AstView::Application(loc, func, arg) => {
            lemma_infer(st, env, *func);
            let (s1, func_out) = infer(st, env, *func);
            if let Ok(func_ty) = func_out {
                lemma_infer(s1, env, *arg);
                let (s2, arg_out) = infer(s1, env, *arg);
                lemma_extends_trans(st.soln, s1.soln, s2.soln);
                if let Ok(arg_ty) = arg_out {
                    let range = TypeView::Variable(fresh_name(s2.uniq, range_base()));
                    lemma_unify_model(s2.soln, arrow(arg_ty, range), func_ty);
                    let found = unify_model(s2.soln, arrow(arg_ty, range), func_ty).0;
                    lemma_extends_trans(st.soln, s2.soln, found);
                }
            }
        },
        AstView::Abstraction(_, param, body) => {
            if let AstView::Ascription(_, binder, ty) = *param {
                if let Ok(param_ty) = elaborate(env, *ty) {
                    if let AstView::Variable(_, name) = *binder {
                        let inner = EnvView {
                            vars: env.vars.insert(name, param_ty),
                            types: env.types,
                        };
                        lemma_infer(st, inner, *body);
                    }
                }
            }
        },
        AstView::If(loc, cond, cons, alt) => {
            lemma_infer(st, env, *cond);
            let (s1, cond_out) = infer(st, env, *cond);
            if let Ok(cond_ty) = cond_out {
                lemma_infer(s1, env, *cons);
                let (s2, cons_out) = infer(s1, env, *cons);
                lemma_extends_trans(st.soln, s1.soln, s2.soln);
                if let Ok(cons_ty) = cons_out {
                    lemma_infer(s2, env, *alt);
                    let (s3, alt_out) = infer(s2, env, *alt);
                    lemma_extends_trans(st.soln, s2.soln, s3.soln);
                    if let Ok(alt_ty) = alt_out {
                        lemma_unify_model(s3.soln, cond_ty, bool_type());
                        let (s4, test) = unify_at(cond.loc(), s3, cond_ty, bool_type());
                        lemma_extends_trans(st.soln, s3.soln, s4.soln);
                        lemma_unify_model(s4.soln, cons_ty, alt_ty);
                        let s5 = unify_model(s4.soln, cons_ty, alt_ty).0;
                        lemma_extends_trans(st.soln, s4.soln, s5);
                    }
                }
            }
        },
        AstView::Ascription(loc, value, ty) => {
            lemma_infer(st, env, *value);
            let (s1, value_out) = infer(st, env, *value);
            if let Ok(got) = value_out {
                if let Ok(expected) = elaborate(env, *ty) {
                    lemma_unify_model(s1.soln, got, expected);
                    let found = unify_model(s1.soln, got, expected).0;
                    lemma_extends_trans(st.soln, s1.soln, found);
                }
            }
        },
        _ => {},
    }
}

} // verus!
