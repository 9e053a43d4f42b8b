//! Static semantic core of a small typed lambda calculus: names, types,
//! lexically scoped environments, and type inference by unification.
//!
//! The data: [`names`], [`types`], [`ast`], [`env`], [`globals`].
//!
//! The theory: [`subst`] says what a substitution is and what it does to a
//! type, [`unify`] what unifying two types under a substitution yields,
//! [`unifier`] that this succeeds exactly where the types can be made
//! equal, [`chain`] how the engine stores a substitution, [`infer`] what
//! type inference yields for an expression, [`typing`] that this is a type
//! by the typing rules, [`fresh`] that generated variables are new, and
//! [`laws`] what follows for every expression and environment.
//!
//! The code: [`typecheck`] holds the inference engine and the type checker,
//! [`lexer`], [`grammar`], [`parser`] and [`spans`] the concrete syntax.

pub mod names;
pub mod types;
pub mod ast;
pub mod subst;
pub mod unify;
pub mod unifier;
pub mod chain;
pub mod env;
pub mod globals;
pub mod infer;
pub mod fresh;
pub mod typing;
pub mod typecheck;
pub mod laws;
pub mod lexer;
pub mod grammar;
pub mod parser;
pub mod spans;
