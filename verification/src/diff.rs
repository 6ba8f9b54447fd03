//! What a graph diff hands to the regeneration step.

use vstd::prelude::*;

use crate::ids::ModuleId;

verus! {

/// One edge delta observed between two graph states.
pub struct DepChange {
    pub source: ModuleId,
    pub target: ModuleId,
    /// True for an added dependency, false for a removed one.
    pub added: bool,
}

/// Added and removed modules and dependency changes between two graph
/// states. An empty diff means pot membership needs no recomputation.
pub struct DiffResult {
    pub added_modules: Vec<ModuleId>,
    pub removed_modules: Vec<ModuleId>,
    pub deps_changes: Vec<DepChange>,
}

pub open spec fn diff_is_empty(d: DiffResult) -> bool {
    d.added_modules@.len() == 0 && d.removed_modules@.len() == 0 && d.deps_changes@.len() == 0
}

impl DiffResult {
    pub fn new() -> (r: DiffResult)
        ensures
            diff_is_empty(r),
    {
        DiffResult { added_modules: Vec::new(), removed_modules: Vec::new(), deps_changes: Vec::new() }
    }

    /// No added modules, no removed modules, no dependency changes.
    pub fn is_empty(&self) -> (r: bool)
        ensures
            r == diff_is_empty(*self),
    {
        self.added_modules.len() == 0 && self.removed_modules.len() == 0
            && self.deps_changes.len() == 0
    }
}

/// A cluster of modules sharing an output boundary, used to scope
/// incremental recomputation.
pub struct ModuleGroup {
    pub id: String,
    pub modules: Vec<ModuleId>,
}

} // verus!
