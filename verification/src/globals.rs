//! The primitive types and the environment that programs start from.

use std::rc::Rc;
use vstd::prelude::*;
use crate::env::{to_map, EnvView, TypeEnv};
use crate::names::{ident, typ, NameView};
use crate::subst::view_pairs;
use crate::types::{Type, TypeView};

verus! {

/// The value of the primitive type of booleans.
pub open spec fn bool_type() -> TypeView {
    TypeView::Primitive(NameView::Type("bool"@))
}

/// The value of the primitive type of integers.
pub open spec fn int_type() -> TypeView {
    TypeView::Primitive(NameView::Type("int"@))
}

/// The value of the function type from `dom` to `range`.
pub open spec fn arrow(dom: TypeView, range: TypeView) -> TypeView {
    TypeView::Function(Box::new(dom), Box::new(range))
}

/// The term bindings of the global environment, in the order they are made.
pub open spec fn global_terms() -> Seq<(NameView, TypeView)> {
    seq![
        (NameView::Ident("add"@), arrow(int_type(), arrow(int_type(), int_type()))),
        (NameView::Ident("sub"@), arrow(int_type(), arrow(int_type(), int_type()))),
        (NameView::Ident("mul"@), arrow(int_type(), arrow(int_type(), int_type()))),
        (NameView::Ident("dec"@), arrow(int_type(), int_type())),
        (NameView::Ident("iszero"@), arrow(int_type(), bool_type())),
        (NameView::Ident("not"@), arrow(bool_type(), bool_type())),
    ]
}

/// The type names of the global environment.
pub open spec fn global_types() -> Seq<(NameView, TypeView)> {
    seq![(NameView::Type("bool"@), bool_type()), (NameView::Type("int"@), int_type())]
}

/// The primitive type of booleans.
pub fn bool() -> (res: Rc<Type>)
    ensures
        res@ == bool_type(),
{
    Rc::new(Type::Primitive(typ("bool")))
}

/// The primitive type of integers.
pub fn integer() -> (res: Rc<Type>)
    ensures
        res@ == int_type(),
{
    Rc::new(Type::Primitive(typ("int")))
}

/// The environment that programs are checked in: the type names `bool` and
/// `int`, and the primitive operations on them.
pub fn global_env() -> (res: Rc<TypeEnv>)
    ensures
        res@ == (EnvView { vars: to_map(global_terms()), types: to_map(global_types()) }),
{
    let unary_int = Rc::new(Type::Function(integer(), integer()));
    let binary_int = Rc::new(Type::Function(integer(), Rc::clone(&unary_int)));
    let types = [(typ("bool"), bool()), (typ("int"), integer())];
    let terms = [
        (ident("add"), Rc::clone(&binary_int)),
        (ident("sub"), Rc::clone(&binary_int)),
        (ident("mul"), Rc::clone(&binary_int)),
        (ident("dec"), Rc::clone(&unary_int)),
        (ident("iszero"), Rc::new(Type::Function(integer(), bool()))),
        (ident("not"), Rc::new(Type::Function(bool(), bool()))),
    ];
    proof {
        assert(unary_int@ == arrow(int_type(), int_type()));
        assert(binary_int@ == arrow(int_type(), arrow(int_type(), int_type())));
        assert(terms@[4].1@ == arrow(int_type(), bool_type()));
        assert(terms@[5].1@ == arrow(bool_type(), bool_type()));
    }
    let root = TypeEnv::from_types(types.as_slice());
    let env = TypeEnv::with_bindings(&root, terms.as_slice());
    proof {
        assert(view_pairs(types@) =~= global_types());
        assert(view_pairs(terms@) =~= global_terms());
        assert(env@.vars =~= to_map(global_terms()));
    }
    env
}

} // verus!
