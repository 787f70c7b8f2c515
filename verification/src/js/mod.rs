//! The script-side types the engine shares with its front ends.
pub mod runtime;
pub mod context;
pub mod script;
pub mod location;
