//! Fast, deliberately incomplete name resolution and body analysis for Rust sources.
//!
//! The library keeps the phase databases of an editor backend: frozen def maps with module
//! scopes and import resolution, lowered function bodies with lexical scopes, and the small
//! queries that an editor asks of them.

pub mod body;
pub mod body_ids;
pub mod body_infer;
pub mod body_resolve;
pub mod body_ty;
pub mod candidate_laws;
pub mod completion;
pub mod cursor;
pub mod db;
pub mod dot_completion;
pub mod def_map;
pub mod def_map_cursor;
pub mod freeze;
pub mod ids;
pub mod implicit_roots;
pub mod imports;
pub mod item_tree;
pub mod laws;
pub mod literal;
pub mod navigation;
pub mod lower;
pub mod lower_body;
pub mod path;
pub mod path_completion;
pub mod path_laws;
pub mod query_laws;
pub mod pattern_types;
pub mod receiver;
pub mod resolution;
pub mod text;
pub mod scope;
pub mod scoped_types;
pub mod semantic;
pub mod workspace_graph;
