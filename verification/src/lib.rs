//! An in-memory tree for a parsed markup document: text, element and comment
//! nodes, the attributes of elements, structural equality, and an indented
//! dump of a tree for diagnostics.

pub mod attrs;
pub mod classes;
pub mod dom;
pub mod render;
pub mod text;
