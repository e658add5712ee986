//! Front end for a small graph-description language: a typed syntax tree is
//! walked once, building an abstract syntax tree while binding graph and node
//! names to slots in a single shared variable store and collecting an edge
//! list.

pub mod ast;
pub mod binder;
pub mod context;
pub mod errors;
pub mod laws;
pub mod numbers;
pub mod syntax;
