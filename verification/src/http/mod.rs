//! HTTP-side records and the headers requests carry.
pub mod cache;
pub mod headers;
