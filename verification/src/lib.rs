//! For a named package, this library answers how many leaf packages the
//! package reaches through chains of dependents, and which heavily used
//! packages are among what it reaches.
//!
//! The dependency graph maps each package to its dependents
//! ([`DependenciesMap`]); the heavily used packages form a set
//! ([`MostUsedMap`]). [`count_depended_upon`] walks the graph from a start
//! package, and [`QueryService`] keeps each answer, so that the walk for a
//! package is made once. The module [`closure`] holds the mathematical model
//! that the contracts of all of them are stated over.

pub mod cache;
pub mod closure;
pub mod graph;
pub mod most_used;
pub mod search;
pub mod service;

pub use cache::ResultCache;
pub use graph::{create_dependencies_map, record_text, DependenciesMap, DependencyRecord};
pub use most_used::{create_most_used_map, MostUsedMap};
pub use search::{count_depended_upon, SearchResult, TOTAL_NPM_PACKAGES};
pub use service::QueryService;
