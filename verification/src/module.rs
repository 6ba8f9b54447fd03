//! Graph nodes: modules and their kinds.

use vstd::prelude::*;

use crate::ids::ModuleId;

verus! {

/// Kind of a module. `Script` and `Stylesheet` are the kinds the scoper may
/// duplicate or rename; a scoped copy is retagged `Custom(scope)`; other
/// asset kinds are left alone by the scoper.
pub enum ModuleType {
    Script,
    Stylesheet,
    Html,
    Asset,
    Custom(String),
}

impl ModuleType {
    pub open spec fn is_script_spec(&self) -> bool {
        self is Script
    }

    pub open spec fn is_css_spec(&self) -> bool {
        self is Stylesheet
    }

    #[verifier::when_used_as_spec(is_script_spec)]
    pub fn is_script(&self) -> (r: bool)
        ensures
            r == self.is_script_spec(),
    {
        matches!(self, ModuleType::Script)
    }

    #[verifier::when_used_as_spec(is_css_spec)]
    pub fn is_css(&self) -> (r: bool)
        ensures
            r == self.is_css_spec(),
    {
        matches!(self, ModuleType::Stylesheet)
    }

    /// Retag as the custom kind carrying the given scope.
    pub fn to_custom(&self, scope: &String) -> (r: ModuleType)
        ensures
            r == ModuleType::Custom(*scope),
    {
        ModuleType::Custom(scope.clone())
    }
}

impl Clone for ModuleType {
    fn clone(&self) -> (r: Self)
        ensures
            r == *self,
    {
        match self {
            ModuleType::Script => ModuleType::Script,
            ModuleType::Stylesheet => ModuleType::Stylesheet,
            ModuleType::Html => ModuleType::Html,
            ModuleType::Asset => ModuleType::Asset,
            ModuleType::Custom(s) => ModuleType::Custom(s.clone()),
        }
    }
}

/// A module may be duplicated or renamed by the scoper only if it is a
/// script or a stylesheet.
pub open spec fn qualifies_for_scoping(t: ModuleType) -> bool {
    t is Script || t is Stylesheet
}

/// A node of the module graph.
pub struct Module {
    pub id: ModuleId,
    pub module_type: ModuleType,
    /// Resolved outside the graph; excluded from bundling.
    pub external: bool,
    /// Content-addressed or vendor code that can be cached long-term.
    pub immutable: bool,
    /// Id of the resource pot currently owning this module; `None` while
    /// reassignment is pending. A weak association, never an owning link.
    pub resource_pot: Option<String>,
    /// Position in the dependency-respecting ordering used by code
    /// generation.
    pub execution_order: usize,
}

impl Module {
    /// Plain script module with the given id; not external, not immutable,
    /// owned by no pot.
    pub fn new(id: ModuleId) -> (r: Module)
        ensures
            r.id == id,
            r.module_type == ModuleType::Script,
            !r.external,
            !r.immutable,
            r.resource_pot is None,
    {
        Module {
            id,
            module_type: ModuleType::Script,
            external: false,
            immutable: false,
            resource_pot: None,
            execution_order: 0,
        }
    }
}

impl Clone for Module {
    fn clone(&self) -> (r: Self)
        ensures
            r == *self,
    {
        Module {
            id: self.id.clone(),
            module_type: self.module_type.clone(),
            external: self.external,
            immutable: self.immutable,
            resource_pot: match &self.resource_pot {
                Some(p) => Some(p.clone()),
                None => None,
            },
            execution_order: self.execution_order,
        }
    }
}

} // verus!
