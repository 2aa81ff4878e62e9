//! A small XML reader: spans into the source text, character data with entities,
//! opening tags with attributes, and a node tree kept in an arena.
pub mod span;
pub mod cdata;
pub mod block;
pub mod tag;
pub mod arena;
pub mod node;
