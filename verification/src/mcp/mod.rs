//! The tool server: its HTTP and JSON-RPC side and its tools.
pub mod protocol;
pub mod server;
pub mod tools;
