//! Incremental-rebuild core of a module bundler.
//!
//! A module dependency graph changes over time; this library updates only the
//! affected parts of the graph and regenerates only the affected output
//! bundles, keeping the invariants needed for hot-module-replacement and
//! caching: dynamic-input scoping (duplicating a subgraph per build scope),
//! diff-driven resource regeneration, and HMR update-payload assembly.

pub mod diff;
pub mod graph;
pub mod hmr;
pub mod ids;
pub mod module;
pub mod pot;
pub mod regenerate;
pub mod resource;
pub mod scoper;
pub mod script_meta;
pub mod store;
