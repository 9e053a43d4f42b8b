//! Environments: parent-linked frames that bind names to types, with one
//! namespace for terms and one for type names.

use std::rc::Rc;
use vstd::prelude::*;
use crate::names::{Name, NameView};
use crate::subst::{find, lookup, view_pairs, Bindings};
use crate::types::{Type, TypeView};

verus! {

/// One frame of an environment. A frame is never changed once made; a
/// child frame holds a shared handle on its parent.
#[derive(Debug)]
pub struct TypeEnv {
    binds: Vec<(Name, Rc<Type>)>,
    types: Vec<(Name, Rc<Type>)>,
    parent: Option<Rc<TypeEnv>>,
}

/// What an environment binds, seen through all its frames: the term
/// namespace and the type namespace.
pub ghost struct EnvView {
    pub vars: Map<NameView, TypeView>,
    pub types: Map<NameView, TypeView>,
}

/// The finite map that a list of bindings stands for; a later entry for a
/// name hides an earlier one.
pub open spec fn to_map(s: Bindings) -> Map<NameView, TypeView> {
    Map::new(|v: NameView| lookup(s, v) is Some, |v: NameView| lookup(s, v).unwrap())
}

/// A single binding makes a map of one entry, and laying it over a map is
/// an insertion.
pub proof fn lemma_to_map_single(m: Map<NameView, TypeView>, v: NameView, t: TypeView)
    ensures
        m.union_prefer_right(to_map(seq![(v, t)])) == m.insert(v, t),
{
    let one = seq![(v, t)];
    assert(one.drop_last().len() == 0);
    assert forall|w: NameView| lookup(one, w) == (if w == v {
        Some(t)
    } else {
        None
    }) by {
        assert(one.last() == (v, t));
        assert(lookup(one.drop_last(), w) is None);
    }
    assert(m.union_prefer_right(to_map(one)) =~= m.insert(v, t));
}

/// A copy of the list that shares its types.
fn copy_pairs(binds: &[(Name, Rc<Type>)]) -> (res: Vec<(Name, Rc<Type>)>)
    ensures
        view_pairs(res@) == view_pairs(binds@),
{
    let mut out: Vec<(Name, Rc<Type>)> = Vec::new();
    let mut i: usize = 0;
    while i < binds.len()
        invariant
            i <= binds.len(),
            out.len() == i,
            forall|k: int| 0 <= k < i ==> out[k].0@ == binds[k].0@ && out[k].1@ == binds[k].1@,
        decreases binds.len() - i,
    {
        out.push((binds[i].0.clone(), Rc::clone(&binds[i].1)));
        i = i + 1;
    }
    proof {
        assert(view_pairs(out@) =~= view_pairs(binds@));
    }
    out
}

impl TypeEnv {
    /// The type bound to the term name `v`, searching this frame, then its
    /// ancestors.
    pub closed spec fn term_of(&self, v: NameView) -> Option<TypeView>
        decreases self,
    {
        match lookup(view_pairs(self.binds@), v) {
            Some(t) => Some(t),
            None => match self.parent {
                Some(p) => p.term_of(v),
                None => None,
            },
        }
    }

    /// The type bound to the type name `v`, searching this frame, then its
    /// ancestors.
    pub closed spec fn type_of(&self, v: NameView) -> Option<TypeView>
        decreases self,
    {
        match lookup(view_pairs(self.types@), v) {
            Some(t) => Some(t),
            None => match self.parent {
                Some(p) => p.type_of(v),
                None => None,
            },
        }
    }

    /// An environment that binds nothing.
    pub fn empty() -> (res: Rc<TypeEnv>)
        ensures
            res@.vars == Map::<NameView, TypeView>::empty(),
            res@.types == Map::<NameView, TypeView>::empty(),
    {
        let env = TypeEnv { binds: Vec::new(), types: Vec::new(), parent: None };
        proof {
            assert(view_pairs(env.binds@) =~= Seq::empty());
            assert(view_pairs(env.types@) =~= Seq::empty());
            assert(env@.vars =~= Map::<NameView, TypeView>::empty());
            assert(env@.types =~= Map::<NameView, TypeView>::empty());
        }
        Rc::new(env)
    }

    /// A root environment with the given term bindings; where a name comes
    /// twice, the later binding holds.
    pub fn from_bindings(binds: &[(Name, Rc<Type>)]) -> (res: Rc<TypeEnv>)
        ensures
            res@.vars == to_map(view_pairs(binds@)),
            res@.types == Map::<NameView, TypeView>::empty(),
    {
        let env = TypeEnv { binds: copy_pairs(binds), types: Vec::new(), parent: None };
        proof {
            assert(view_pairs(env.types@) =~= Seq::empty());
            assert(env@.vars =~= to_map(view_pairs(binds@)));
            assert(env@.types =~= Map::<NameView, TypeView>::empty());
        }
        Rc::new(env)
    }

    /// A root environment with the given type names and no term bindings.
    pub fn from_types(bindings: &[(Name, Rc<Type>)]) -> (res: Rc<TypeEnv>)
        ensures
            res@.vars == Map::<NameView, TypeView>::empty(),
            res@.types == to_map(view_pairs(bindings@)),
    {
        let env = TypeEnv { binds: Vec::new(), types: copy_pairs(bindings), parent: None };
        proof {
            assert(view_pairs(env.binds@) =~= Seq::empty());
            assert(env@.vars =~= Map::<NameView, TypeView>::empty());
            assert(env@.types =~= to_map(view_pairs(bindings@)));
        }
        Rc::new(env)
    }

    /// The type bound to the term name `var` in this frame or the nearest
    /// ancestor that binds it.
    pub fn lookup(&self, var: &Name) -> (res: Option<Rc<Type>>)
        ensures
            match res {
                Some(t) => self@.vars.contains_key(var@) && self@.vars[var@] == t@,
                None => !self@.vars.contains_key(var@),
            },
        decreases self,
    {
        match find(self.binds.as_slice(), var) {
            Some(t) => Some(t),
            None => match &self.parent {
                Some(p) => p.lookup(var),
                None => None,
            },
        }
    }

    /// The type bound to the type name `name` in this frame or the nearest
    /// ancestor that binds it.
    pub fn lookup_type(&self, name: &Name) -> (res: Option<Rc<Type>>)
        ensures
            match res {
                Some(t) => self@.types.contains_key(name@) && self@.types[name@] == t@,
                None => !self@.types.contains_key(name@),
            },
        decreases self,
    {
        match find(self.types.as_slice(), name) {
            Some(t) => Some(t),
            None => match &self.parent {
                Some(p) => p.lookup_type(name),
                None => None,
            },
        }
    }

    /// A child frame of `parent` with the given term bindings. The parent
    /// is shared, not changed; a binding of the child hides one of the same
    /// name further up, and of two in `binds` the later holds.
    pub fn with_bindings(parent: &Rc<TypeEnv>, binds: &[(Name, Rc<Type>)]) -> (res: Rc<TypeEnv>)
        ensures
            res@.vars == parent@.vars.union_prefer_right(to_map(view_pairs(binds@))),
            res@.types == parent@.types,
    {
        let env = TypeEnv {
            binds: copy_pairs(binds),
            types: Vec::new(),
            parent: Some(Rc::clone(parent)),
        };
        proof {
            assert(view_pairs(env.types@) =~= Seq::empty());
            assert(env@.vars =~= parent@.vars.union_prefer_right(to_map(view_pairs(binds@))));
            assert(env@.types =~= parent@.types);
        }
        Rc::new(env)
    }
}

impl View for TypeEnv {
    type V = EnvView;

    closed spec fn view(&self) -> EnvView {
        EnvView {
            vars: Map::new(
                |v: NameView| self.term_of(v) is Some,
                |v: NameView| self.term_of(v).unwrap(),
            ),
            types: Map::new(
                |v: NameView| self.type_of(v) is Some,
                |v: NameView| self.type_of(v).unwrap(),
            ),
        }
    }
}

} // verus!
