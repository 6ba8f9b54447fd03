//! Module identifiers.

use vstd::prelude::*;

verus! {

/// The mathematical value of a [`ModuleId`]: path, query and optional scope
/// suffix, each as a sequence of characters.
pub type IdRepr = (Seq<char>, Seq<char>, Option<Seq<char>>);

/// Identifier of a module: a canonical path, a query string (possibly empty)
/// and, once the module has been duplicated for a scoped dynamic input, the
/// scope suffix. Two ids are equal exactly when all three components match.
#[derive(Debug)]
pub struct ModuleId {
    pub path: String,
    pub query: String,
    pub scope: Option<String>,
}

impl View for ModuleId {
    type V = IdRepr;

    open spec fn view(&self) -> IdRepr {
        (
            self.path@,
            self.query@,
            match self.scope {
                Some(s) => Some(s@),
                None => None,
            },
        )
    }
}

/// The id a module gets when it is scoped: same path and query, with the
/// scope suffix set.
pub open spec fn scoped_repr(id: IdRepr, scope: Seq<char>) -> IdRepr {
    (id.0, id.1, Some(scope))
}

impl ModuleId {
    /// Plain id with the given path: empty query, no scope suffix.
    pub fn from_path(path: String) -> (r: ModuleId)
        ensures
            r@ == (path@, Seq::<char>::empty(), None::<Seq<char>>),
    {
        ModuleId { path, query: String::new(), scope: None }
    }

    /// The id this module would get under the given scope.
    pub fn scoped(&self, scope: &String) -> (r: ModuleId)
        ensures
            r@ == scoped_repr(self@, scope@),
    {
        ModuleId { path: self.path.clone(), query: self.query.clone(), scope: Some(scope.clone()) }
    }
}

impl Clone for ModuleId {
    fn clone(&self) -> (r: Self)
        ensures
            r == *self,
    {
        ModuleId {
            path: self.path.clone(),
            query: self.query.clone(),
            scope: match &self.scope {
                Some(s) => Some(s.clone()),
                None => None,
            },
        }
    }
}

impl PartialEq for ModuleId {
    fn eq(&self, other: &ModuleId) -> (r: bool) {
        self.path == other.path && self.query == other.query && match (&self.scope, &other.scope) {
            (Some(a), Some(b)) => *a == *b,
            (None, None) => true,
            _ => false,
        }
    }
}

impl vstd::std_specs::cmp::PartialEqSpecImpl for ModuleId {
    open spec fn obeys_eq_spec() -> bool {
        true
    }

    open spec fn eq_spec(&self, other: &ModuleId) -> bool {
        self@ == other@
    }
}

} // verus!
