//! The arena DOM: nodes, the document that owns them, and the code that
//! builds, queries, walks and serializes it.
pub mod node;
pub mod tree;
pub mod document;
pub mod serializer;
pub mod query;
pub mod walker;
pub mod parser;
pub mod forms;
pub mod frame;
pub mod copy;
