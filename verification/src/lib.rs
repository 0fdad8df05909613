//! Core engine of a build/dependency orchestrator: it resolves package targets
//! into build configurations, models the dependency graph as tasks, derives
//! content-addressed cache identities for resolved configurations, and defines
//! the plugin contracts by which resolution and building are extended.

pub mod actions;
pub mod cargo;
pub mod context;
pub mod document;
pub mod errors;
pub mod tasks;
pub mod hashing;
pub mod strutil;
