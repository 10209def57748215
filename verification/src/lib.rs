//! A model of accessibility trees: the node schema that UI toolkits fill in,
//! and the consumer side that applies incremental updates to a tree and
//! navigates it.

pub mod filters;
pub mod ids;
pub mod iterators;
pub mod maps;
pub mod node;
pub mod ranges;
pub mod roles;
pub mod schema;
pub mod table;
pub mod text;
pub mod tree;
