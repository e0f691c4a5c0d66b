//! Turns loosely typed catalog documents (authors, characters, tags, books and
//! the links between them) into normalized relational rows.

pub mod document;
pub mod ident;
pub mod registry;
pub mod extract;
pub mod links;
pub mod pipeline;
pub mod sink;
pub mod order;
