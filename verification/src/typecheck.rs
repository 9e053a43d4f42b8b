//! The type checker: an inference engine that generates fresh variables,
//! keeps a substitution and unifies types, and the walk over the syntax
//! tree that drives it.

use std::rc::Rc;
use vstd::prelude::*;
use crate::ast::{ast_view, Loc, AST};
use crate::chain::{
    chained, compress, lemma_compress, lemma_lookup_chained, lemma_push, lemma_resolve_full,
    lemma_solved_form, solved_form,
};
use crate::env::{lemma_to_map_single, EnvView, TypeEnv};
use crate::globals::{bool, integer};
use crate::infer::{
    elaborate, fresh_name, infer, initial, typecheck_model, unify_at, EngineView, Outcome,
    TypeErrorView,
};
use crate::names::{typ, Name, NameView};
use crate::subst::{
    bind, lemma_all_vars, lemma_lookup, lemma_lookup_at, lemma_resolve_idempotent,
    lemma_resolve_is_normal, lemma_unsolved_shrinks, lookup, normal, resolve, solved, universe,
    unsolved, view_pairs, Bindings,
};
use crate::types::{Type, TypeView};
use crate::unifier::{law_unify_succeeds_iff_unifiable, unifiable};
use crate::unify::{lemma_bind_case, lemma_descend_first, lemma_unify_model, unify_model, weight};

verus! {

/// Why an expression has no type. Each error holds the place in the source
/// that it was found at.
#[derive(Debug)]
pub enum TypeError {
    /// Anything else, with a message.
    Generic(Loc, String),
    /// A variable that no frame binds.
    UnboundVariable(Loc, Name),
    /// A type name that no frame binds.
    UnboundType(Loc, Name),
    /// What was applied is no function.
    BadFunction(Loc, Rc<Type>),
    /// Two types that had to be equal differ.
    Mismatch(Loc, Rc<Type>, Rc<Type>),
    /// The parameter of an abstraction is no variable with a type.
    BadDecl(Loc),
    /// What stands where a type expression should is none.
    BadType(Loc),
    /// A variable would be solved to a type that contains it.
    Occur(Loc, Rc<Type>, Rc<Type>),
}

impl View for TypeError {
    type V = TypeErrorView;

    open spec fn view(&self) -> TypeErrorView {
        match self {
            TypeError::Generic(loc, msg) => TypeErrorView::Generic(loc@, msg@),
            TypeError::UnboundVariable(loc, name) => TypeErrorView::UnboundVariable(loc@, name@),
            TypeError::UnboundType(loc, name) => TypeErrorView::UnboundType(loc@, name@),
            TypeError::BadFunction(loc, t) => TypeErrorView::BadFunction(loc@, t@),
            TypeError::Mismatch(loc, a, b) => TypeErrorView::Mismatch(loc@, a@, b@),
            TypeError::BadDecl(loc) => TypeErrorView::BadDecl(loc@),
            TypeError::BadType(loc) => TypeErrorView::BadType(loc@),
            TypeError::Occur(loc, a, b) => TypeErrorView::Occur(loc@, a@, b@),
        }
    }
}

/// What type checking returns.
pub type TCResult = Result<Rc<Type>, TypeError>;

/// The mathematical value of such a result.
pub open spec fn view_result(r: TCResult) -> Outcome {
    match r {
        Ok(t) => Ok(t@),
        Err(e) => Err(e@),
    }
}

/// The index of the entry for `var` in `list`, if there is one.
fn position(list: &Vec<(Name, Rc<Type>)>, var: &Name) -> (res: Option<usize>)
    ensures
        match res {
            Some(k) => k < list.len() && list[k as int].0@ == var@,
            None => forall|k: int| 0 <= k < list.len() ==> (#[trigger] list[k]).0@ != var@,
        },
{
    let mut i: usize = 0;
    while i < list.len()
        invariant
            i <= list.len(),
            forall|k: int| 0 <= k < i ==> (#[trigger] list[k]).0@ != var@,
        decreases list.len() - i,
    {
        if list[i].0.same(var) {
            return Some(i);
        }
        i = i + 1;
    }
    None
}

/// An inference engine: a counter for fresh names and the substitution
/// found so far. One engine serves one run of type checking.
pub struct Typecheck {
    uniq: i32,
    soln: Vec<(Name, Rc<Type>)>,
}

impl View for Typecheck {
    type V = EngineView;

    closed spec fn view(&self) -> EngineView {
        EngineView { uniq: self.uniq as int, soln: solved_form(view_pairs(self.soln@)) }
    }
}

impl Typecheck {
    /// The stored list of solutions.
    closed spec fn raw(&self) -> Bindings {
        view_pairs(self.soln@)
    }

    /// What the engine has stored for the variable `v`: its solution as it
    /// was recorded or last resolved, which may mention variables that
    /// were solved later.
    pub closed spec fn stored(&self, v: NameView) -> Option<TypeView> {
        lookup(self.raw(), v)
    }

    /// The engine is consistent: no variable is solved twice or by a type
    /// that leads back to it, and the counter has not wrapped.
    pub closed spec fn wf(&self) -> bool {
        chained(self.raw()) && self.uniq >= 0
    }

    /// The substitution of a consistent engine is in solved form.
    pub proof fn lemma_wf(&self)
        requires
            self.wf(),
        ensures
            solved(self@.soln),
            0 <= self@.uniq <= i32::MAX,
    {
        lemma_solved_form(self.raw());
    }

    /// An engine that has generated no name and solved no variable.
    pub fn new() -> (res: Typecheck)
        ensures
            res.wf(),
            res@ == initial(),
    {
        let tc = Typecheck { uniq: 0, soln: Vec::new() };
        proof {
            assert(tc@.soln =~= Seq::empty());
        }
        tc
    }

    /// A name that this engine has not generated before, made from `base`.
    pub fn gensym(&mut self, base: Name) -> (res: Name)
        requires
            old(self).wf(),
            old(self)@.uniq < i32::MAX,
        ensures
            final(self).wf(),
            final(self)@ == (EngineView { uniq: old(self)@.uniq + 1, soln: old(self)@.soln }),
            res@ == fresh_name(old(self)@.uniq, base@),
    {
        self.uniq = self.uniq + 1;
        Name::Unique(Box::new(base), self.uniq)
    }

    /// A variable that this engine has not generated before.
    pub fn genvar(&mut self, base: Name) -> (res: Rc<Type>)
        requires
            old(self).wf(),
            old(self)@.uniq < i32::MAX,
        ensures
            final(self).wf(),
            final(self)@ == (EngineView { uniq: old(self)@.uniq + 1, soln: old(self)@.soln }),
            res@ == TypeView::Variable(fresh_name(old(self)@.uniq, base@)),
    {
        Rc::new(Type::Variable(self.gensym(base)))
    }

    /// Resolves `ty`, which mentions none of the first `floor` stored
    /// variables, and stores each solution met on the way in resolved form.
    fn walk(&mut self, ty: &Rc<Type>, Ghost(floor): Ghost<int>) -> (res: Rc<Type>)
        requires
            old(self).wf(),
            0 <= floor <= old(self).soln.len(),
            forall|j: int| 0 <= j < floor ==> !ty@.vars().contains(#[trigger] old(self).raw()[j].0),
        ensures
            final(self).wf(),
            final(self)@ == old(self)@,
            final(self).soln.len() == old(self).soln.len(),
            forall|j: int|
                0 <= j < old(self).soln.len() ==> (#[trigger] final(self).raw()[j]).0 == old(
                    self,
                ).raw()[j].0,
            res@ == resolve(old(self)@.soln, ty@),
            forall|j: int|
                0 <= j < old(self).soln.len() ==> (#[trigger] final(self).raw()[j]).1 == old(
                    self,
                ).raw()[j].1 || final(self).raw()[j].1 == old(self)@.soln[j].1,
            forall|j: int|
                0 <= j < old(self).soln.len() && ty@.vars().contains(old(self).raw()[j].0) ==> (
                #[trigger] final(self).raw()[j]).1 == old(self)@.soln[j].1,
        decreases old(self).soln.len() - floor, ty,
    {
        let ghost raw0 = self.raw();
        let ghost s = self@.soln;
        proof {
            lemma_solved_form(raw0);
        }
        match &**ty {
            Type::Primitive(_) => Rc::clone(ty),
            Type::Variable(var) => {
                match position(&self.soln, var) {
                    None => {
                        proof {
                            lemma_lookup(s, var@);
                            if let Some(r) = lookup(s, var@) {
                                let k = choose|k: int| 0 <= k < s.len() && #[trigger] s[k] == (var@, r);
                                assert(raw0[k].0 == var@);
                            }
                        }
                        Rc::clone(ty)
                    },
                    Some(k) => {
                        let stored = Rc::clone(&self.soln[k].1);
                        proof {
                            assert(raw0[k as int].0 == var@);
                            assert(floor <= k) by {
                                if k < floor {
                                    assert(!ty@.vars().contains(raw0[k as int].0));
                                }
                            }
                            assert forall|j: int| 0 <= j < k + 1 implies !stored@.vars().contains(
                                #[trigger] raw0[j].0,
                            ) by {
                                assert(!raw0[k as int].1.vars().contains(raw0[j].0));
                            }
                            lemma_lookup_at(s, k as int);
                            lemma_resolve_full(raw0, stored@);
                        }
                        let inner = self.walk(&stored, Ghost(k + 1));
                        let ghost raw1 = self.raw();
                        let name = self.soln[k].0.clone();
                        self.soln.set(k, (name, Rc::clone(&inner)));
                        proof {
                            assert(solved_form(raw1)[k as int] == solved_form(raw0)[k as int]);
                            assert(self.raw() =~= compress(raw1, k as int));
                            lemma_compress(raw1, k as int);
                            let raw2 = self.raw();
                            assert forall|j: int| 0 <= j < raw0.len() implies (#[trigger] raw2[j]).1
                                == raw0[j].1 || raw2[j].1 == s[j].1 by {
                                if j != k {
                                    assert(raw2[j] == raw1[j]);
                                }
                            }
                            assert forall|j: int|
                                0 <= j < raw0.len() && ty@.vars().contains(raw0[j].0) implies (
                            #[trigger] raw2[j]).1 == s[j].1 by {
                                if j < k {
                                    assert(raw0[j].0 != raw0[k as int].0);
                                } else if j > k {
                                    assert(raw0[k as int].0 != raw0[j].0);
                                }
                            }
                        }
                        inner
                    },
                }
            },
            Type::Function(dom, range) => {
                let d = self.walk(dom, Ghost(floor));
                let ghost raw1 = self.raw();
                let r = self.walk(range, Ghost(floor));
                proof {
                    let raw2 = self.raw();
                    assert forall|j: int| 0 <= j < raw0.len() implies (#[trigger] raw2[j]).1
                        == raw0[j].1 || raw2[j].1 == s[j].1 by {
                        assert(raw1[j].1 == raw0[j].1 || raw1[j].1 == s[j].1);
                    }
                    assert forall|j: int|
                        0 <= j < raw0.len() && ty@.vars().contains(raw0[j].0) implies (
                    #[trigger] raw2[j]).1 == s[j].1 by {
                        assert(raw1[j].0 == raw0[j].0);
                        if dom@.vars().contains(raw0[j].0) {
                            assert(raw1[j].1 == s[j].1);
                        }
                    }
                }
                Rc::new(Type::Function(d, r))
            },
        }
    }

    /// The type `ty` with every solved variable replaced by its solution,
    /// chains of solutions followed to their end.
    ///
    /// What the engine knows is unchanged, but each solved variable of
    /// `ty` is afterwards stored with its solution in resolved form, so
    /// that the next look at it follows no chain.
    pub fn subst_type(&mut self, ty: &Rc<Type>) -> (res: Rc<Type>)
        requires
            old(self).wf(),
        ensures
            final(self).wf(),
            final(self)@ == old(self)@,
            res@ == resolve(old(self)@.soln, ty@),
            forall|v: NameView|
                ty@.vars().contains(v) && lookup(old(self)@.soln, v) is Some
                    ==> final(self).stored(v) == lookup(old(self)@.soln, v),
    {
        let ghost raw0 = self.raw();
        let ghost s = self@.soln;
        let res = self.walk(ty, Ghost(0));
        proof {
            let raw2 = self.raw();
            lemma_solved_form(raw0);
            assert forall|v: NameView|
                ty@.vars().contains(v) && lookup(s, v) is Some implies lookup(raw2, v) == lookup(
                s,
                v,
            ) by {
                lemma_lookup(s, v);
                let t = lookup(s, v).unwrap();
                let k = choose|k: int| 0 <= k < s.len() && #[trigger] s[k] == (v, t);
                assert(raw0[k].0 == v);
                assert(raw2[k].0 == raw0[k].0);
                assert(raw2[k].1 == s[k].1);
                lemma_lookup_chained(raw2, k);
            }
        }
        res
    }

    /// Whether `var` occurs in `ty`, which mentions none of the first
    /// `floor` stored variables, once `ty` is resolved.
    fn occur_from(&self, var: &Name, ty: &Rc<Type>, Ghost(floor): Ghost<int>) -> (res: bool)
        requires
            self.wf(),
            0 <= floor <= self.soln.len(),
            forall|j: int| 0 <= j < floor ==> !ty@.vars().contains(#[trigger] self.raw()[j].0),
        ensures
            res == resolve(self@.soln, ty@).vars().contains(var@),
        decreases self.soln.len() - floor, ty,
    {
        let ghost raw0 = self.raw();
        let ghost s = self@.soln;
        proof {
            lemma_solved_form(raw0);
        }
        match &**ty {
            Type::Primitive(_) => false,
            Type::Variable(v) => {
                match position(&self.soln, v) {
                    None => {
                        proof {
                            lemma_lookup(s, v@);
                            if let Some(r) = lookup(s, v@) {
                                let k = choose|k: int| 0 <= k < s.len() && #[trigger] s[k] == (v@, r);
                                assert(raw0[k].0 == v@);
                            }
                        }
                        v.same(var)
                    },
                    Some(k) => {
                        proof {
                            assert(raw0[k as int].0 == v@);
                            assert(floor <= k) by {
                                if k < floor {
                                    assert(!ty@.vars().contains(raw0[k as int].0));
                                }
                            }
                            assert forall|j: int| 0 <= j < k + 1 implies !raw0[k as int].1.vars().contains(
                                #[trigger] raw0[j].0,
                            ) by {
                                assert(!raw0[k as int].1.vars().contains(raw0[j].0));
                            }
                            lemma_lookup_at(s, k as int);
                            lemma_resolve_full(raw0, raw0[k as int].1);
                        }
                        self.occur_from(var, &self.soln[k].1, Ghost(k + 1))
                    },
                }
            },
            Type::Function(dom, range) => {
                self.occur_from(var, dom, Ghost(floor)) || self.occur_from(var, range, Ghost(floor))
            },
        }
    }

    /// The occurs check: whether the variable `var` occurs in `ty` under
    /// the substitution found so far. Solving `var` to such a type would
    /// make a type that contains itself.
    pub fn occur(&self, var: &Name, ty: &Rc<Type>) -> (res: bool)
        requires
            self.wf(),
        ensures
            res == resolve(self@.soln, ty@).vars().contains(var@),
    {
        self.occur_from(var, ty, Ghost(0))
    }

    /// Records that the unsolved variable `var` is solved to the resolved
    /// type `ty`, which does not mention it.
    fn add_soln(&mut self, var: &Name, ty: &Rc<Type>)
        requires
            old(self).wf(),
            lookup(old(self)@.soln, var@) is None,
            normal(old(self)@.soln, ty@),
            !ty@.vars().contains(var@),
        ensures
            final(self).wf(),
            final(self)@ == (EngineView {
                uniq: old(self)@.uniq,
                soln: bind(old(self)@.soln, var@, ty@),
            }),
    {
        proof {
            let raw0 = self.raw();
            let s = self@.soln;
            lemma_lookup(s, var@);
            assert forall|k: int| 0 <= k < raw0.len() implies (#[trigger] raw0[k]).0 != var@ by {
                assert(s[k].0 == raw0[k].0);
            }
            assert forall|k: int| 0 <= k < raw0.len() implies !ty@.vars().contains(
                #[trigger] raw0[k].0,
            ) by {
                assert(s[k].0 == raw0[k].0);
            }
            lemma_push(raw0, var@, ty@);
            assert(view_pairs(self.soln@.push((*var, *ty))) =~= raw0.push((var@, ty@)));
        }
        let ghost before = self.soln@;
        self.soln.push((var.clone(), Rc::clone(ty)));
        proof {
            assert(self.raw() =~= view_pairs(before).push((var@, ty@)));
        }
    }

    /// Makes `left` and `right` equal by solving variables, or says why
    /// that cannot be done; `node` gives the place to report.
    ///
    /// The outcome is that of `unify_model` on the engine's substitution.
    /// On success both types resolve to the type returned. Success comes
    /// exactly where the two types have a unifier that agrees with what the
    /// engine has solved.
    pub fn unify(&mut self, node: &AST, left: &Rc<Type>, right: &Rc<Type>) -> (res: TCResult)
        requires
            old(self).wf(),
        ensures
            final(self).wf(),
            (final(self)@, view_result(res)) == unify_at(node@.loc(), old(self)@, left@, right@),
            res is Ok ==> res->Ok_0@ == resolve(final(self)@.soln, left@) && res->Ok_0@ == resolve(
                final(self)@.soln,
                right@,
            ),
            res is Ok <==> unifiable(old(self)@.soln, left@, right@),
        decreases unsolved(old(self)@.soln, left@, right@), weight(old(self)@.soln, left@, right@),
    {
        let ghost s = self@.soln;
        let ghost left0 = left@;
        let ghost right0 = right@;
        proof {
            self.lemma_wf();
            lemma_unify_model(s, left0, right0);
            law_unify_succeeds_iff_unifiable(s, left0, right0);
            lemma_resolve_idempotent(s, left0);
            lemma_resolve_idempotent(s, right0);
            lemma_resolve_is_normal(s, left0);
            lemma_resolve_is_normal(s, right0);
        }
        let left = self.subst_type(left);
        let right = self.subst_type(right);
        if left.same(&right) {
            return Ok(left);
        }
        match &*left {
            Type::Variable(lv) => {
                if self.occur(lv, &right) {
                    return Err(TypeError::Occur(node.loc(), Rc::clone(&left), Rc::clone(&right)));
                }
                proof {
                    lemma_bind_case(s, left0, right0, lv@, right@);
                }
                self.add_soln(lv, &right);
            },
            _ => match &*right {
                Type::Variable(rv) => {
                    if self.occur(rv, &left) {
                        return Err(TypeError::Occur(node.loc(), Rc::clone(&right), Rc::clone(&left)));
                    }
                    proof {
                        lemma_bind_case(s, right0, left0, rv@, left@);
                    }
                    self.add_soln(rv, &left);
                },
                Type::Function(rdom, rrange) => match &*left {
                    Type::Function(ldom, lrange) => {
                        proof {
                            lemma_descend_first(s, left0, right0, ldom@, rdom@);
                            lemma_descend_first(s, left0, right0, lrange@, rrange@);
                            lemma_unify_model(s, ldom@, rdom@);
                        }
                        match self.unify(node, ldom, rdom) {
                            Err(e) => {
                                return Err(e);
                            },
                            Ok(_) => {},
                        }
                        proof {
                            let s1 = self@.soln;
                            lemma_all_vars(s1);
                            assert(universe(s1, lrange@, rrange@).subset_of(
                                universe(s, left0, right0),
                            ));
                            lemma_unsolved_shrinks(s, left0, right0, s1, lrange@, rrange@);
                        }
                        match self.unify(node, lrange, rrange) {
                            Err(e) => {
                                return Err(e);
                            },
                            Ok(_) => {},
                        }
                    },
                    _ => {
                        return Err(TypeError::Mismatch(node.loc(), Rc::clone(&left), Rc::clone(&right)));
                    },
                },
                _ => {
                    return Err(TypeError::Mismatch(node.loc(), Rc::clone(&left), Rc::clone(&right)));
                },
            },
        }
        Ok(self.subst_type(&left))
    }

    /// The type that the type expression `ast` denotes in `env`. The
    /// engine takes no part in this and is left as it was.
    pub fn ast_to_type(&mut self, env: &Rc<TypeEnv>, ast: &AST) -> (res: TCResult)
        ensures
            *final(self) == *old(self),
            view_result(res) == elaborate(env@, ast@),
        decreases ast,
    {
        match ast {
            AST::TyName(_, tyvar) => {
                match env.lookup_type(tyvar) {
                    Some(ty) => Ok(ty),
                    None => Err(TypeError::UnboundType(ast.loc(), tyvar.clone())),
                }
            },
            AST::TyFn(_, dom, range) => {
                let dom_ty = match self.ast_to_type(env, dom) {
                    Ok(t) => t,
                    Err(e) => {
                        return Err(e);
                    },
                };
                let range_ty = match self.ast_to_type(env, range) {
                    Ok(t) => t,
                    Err(e) => {
                        return Err(e);
                    },
                };
                Ok(Rc::new(Type::Function(dom_ty, range_ty)))
            },
            _ => Err(TypeError::BadType(ast.loc())),
        }
    }

    /// The type of the expression `ast` in `env`, as far as this engine
    /// has determined it: the type may mention variables that the engine
    /// has solved. The outcome is that of `infer`.
    pub fn typecheck(&mut self, env: &Rc<TypeEnv>, ast: &AST) -> (res: TCResult)
        requires
            old(self).wf(),
        ensures
            final(self).wf(),
            (final(self)@, view_result(res)) == infer(old(self)@, env@, ast@),
            old(self)@.uniq <= final(self)@.uniq,
        decreases ast, 1nat,
    {
        match ast {
            AST::Integer(_, _) => Ok(integer()),
            AST::Boolean(_, _) => Ok(bool()),
            AST::Variable(_, var) => {
                match env.lookup(var) {
                    Some(ty) => Ok(ty),
                    None => Err(TypeError::UnboundVariable(ast.loc(), var.clone())),
                }
            },
            AST::Application(_, _, _) => self.check_application(env, ast),
            AST::Abstraction(_, _, _) => self.check_abstraction(env, ast),
            AST::If(_, _, _, _) => self.check_conditional(env, ast),
            AST::Ascription(_, _, _) => self.check_ascription(env, ast),
            _ => Err(TypeError::Generic(ast.loc(), "Unimplemented".to_owned())),
        }
    }

    /// `typecheck` on an application.
    fn check_application(&mut self, env: &Rc<TypeEnv>, ast: &AST) -> (res: TCResult)
        requires
            old(self).wf(),
            ast is Application,
        ensures
            final(self).wf(),
            (final(self)@, view_result(res)) == infer(old(self)@, env@, ast@),
            old(self)@.uniq <= final(self)@.uniq,
        decreases ast, 0nat,
    {
        match ast {
            AST::Application(_, func, arg) => {
                let func_ty = match self.typecheck(env, func) {
                    Ok(t) => t,
                    Err(e) => {
                        return Err(e);
                    },
                };
                let arg_ty = match self.typecheck(env, arg) {
                    Ok(t) => t,
                    Err(e) => {
                        return Err(e);
                    },
                };
                if self.uniq >= i32::MAX {
                    return Err(
                        TypeError::Generic(ast.loc(), "Too many type variables".to_owned()),
                    );
                }
                let rng = self.genvar(typ("rv"));
                let applied = Rc::new(Type::Function(arg_ty, Rc::clone(&rng)));
                match self.unify(ast, &applied, &func_ty) {
                    Ok(_) => Ok(rng),
                    Err(e) => Err(e),
                }
            },
            _ => unreached(),
        }
    }

    /// `typecheck` on an abstraction.
    fn check_abstraction(&mut self, env: &Rc<TypeEnv>, ast: &AST) -> (res: TCResult)
        requires
            old(self).wf(),
            ast is Abstraction,
        ensures
            final(self).wf(),
            (final(self)@, view_result(res)) == infer(old(self)@, env@, ast@),
            old(self)@.uniq <= final(self)@.uniq,
        decreases ast, 0nat,
    {
        match ast {
            AST::Abstraction(_, arg, body) => {
                proof {
                    assert(arg@ == ast_view(&**arg));
                }
                match &**arg {
                    AST::Ascription(_, vbox, ty) => {
                        let ty = match self.ast_to_type(env, ty) {
                            Ok(t) => t,
                            Err(e) => {
                                return Err(e);
                            },
                        };
                        proof {
                            assert(vbox@ == ast_view(&**vbox));
                        }
                        match &**vbox {
                            AST::Variable(_, var) => {
                                let binds = [(var.clone(), Rc::clone(&ty))];
                                let frame = TypeEnv::with_bindings(env, binds.as_slice());
                                proof {
                                    assert(view_pairs(binds@) =~= seq![(var@, ty@)]);
                                    lemma_to_map_single(env@.vars, var@, ty@);
                                    assert(frame@ == (EnvView {
                                        vars: env@.vars.insert(var@, ty@),
                                        types: env@.types,
                                    }));
                                }
                                match self.typecheck(&frame, body) {
                                    Ok(result_ty) => Ok(Rc::new(Type::Function(ty, result_ty))),
                                    Err(e) => Err(e),
                                }
                            },
                            _ => Err(TypeError::BadDecl(arg.loc())),
                        }
                    },
                    _ => Err(TypeError::BadDecl(arg.loc())),
                }
            },
            _ => unreached(),
        }
    }

    /// `typecheck` on a conditional.
    fn check_conditional(&mut self, env: &Rc<TypeEnv>, ast: &AST) -> (res: TCResult)
        requires
            old(self).wf(),
            ast is If,
        ensures
            final(self).wf(),
            (final(self)@, view_result(res)) == infer(old(self)@, env@, ast@),
            old(self)@.uniq <= final(self)@.uniq,
        decreases ast, 0nat,
    {
        match ast {
            AST::If(_, cond, cons, alt) => {
                let cond_ty = match self.typecheck(env, cond) {
                    Ok(t) => t,
                    Err(e) => {
                        return Err(e);
                    },
                };
                let cons_ty = match self.typecheck(env, cons) {
                    Ok(t) => t,
                    Err(e) => {
                        return Err(e);
                    },
                };
                let alt_ty = match self.typecheck(env, alt) {
                    Ok(t) => t,
                    Err(e) => {
                        return Err(e);
                    },
                };
                match self.unify(cond, &cond_ty, &bool()) {
                    Ok(_) => {},
                    Err(e) => {
                        return Err(e);
                    },
                }
                self.unify(ast, &cons_ty, &alt_ty)
            },
            _ => unreached(),
        }
    }

    /// `typecheck` on an ascription.
    fn check_ascription(&mut self, env: &Rc<TypeEnv>, ast: &AST) -> (res: TCResult)
        requires
            old(self).wf(),
            ast is Ascription,
        ensures
            final(self).wf(),
            (final(self)@, view_result(res)) == infer(old(self)@, env@, ast@),
            old(self)@.uniq <= final(self)@.uniq,
        decreases ast, 0nat,
    {
        match ast {
            AST::Ascription(_, val, ty) => {
                let got_ty = match self.typecheck(env, val) {
                    Ok(t) => t,
                    Err(e) => {
                        return Err(e);
                    },
                };
                let exp_ty = match self.ast_to_type(env, ty) {
                    Ok(t) => t,
                    Err(e) => {
                        return Err(e);
                    },
                };
                self.unify(ast, &got_ty, &exp_ty)
            },
            _ => unreached(),
        }
    }
}

/// The type of the expression `ast` in `env`, or the first error found.
///
/// A new engine infers the type, which is then resolved by all that the
/// engine has found: the type returned mentions no variable that was
/// solved, though it may mention variables that nothing constrained.
pub fn typecheck(env: &Rc<TypeEnv>, ast: &AST) -> (res: TCResult)
    ensures
        view_result(res) == typecheck_model(env@, ast@),
{
    let mut tc = Typecheck::new();
    match tc.typecheck(env, ast) {
        Ok(ty) => Ok(tc.subst_type(&ty)),
        Err(e) => Err(e),
    }
}

/// The type that the type expression `ast` denotes in `env`, or the first
/// error found.
pub fn ast_to_type(env: &Rc<TypeEnv>, ast: &AST) -> (res: TCResult)
    ensures
        view_result(res) == elaborate(env@, ast@),
{
    Typecheck::new().ast_to_type(env, ast)
}

} // verus!
