//! Workspace index engine: structured queries, reconcile and refresh
//! decisions, and the Python semantic tier.

pub mod component;
pub mod evidence;
pub mod fingerprint;
pub mod graph;
pub mod index_tables;
pub mod json;
pub mod knowledge;
pub mod laws;
pub mod model;
pub mod paths;
pub mod projection;
pub mod python_semantic;
pub mod query;
pub mod query_surface;
pub mod query_text;
pub mod reconcile;
pub mod refresh;
pub mod registry;
pub mod runtime;
pub mod scan_error;
pub mod semantic;
pub mod semantic_index;
pub mod text;
