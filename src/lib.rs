//! Compiles a parsed JSON document into Rust source text that rebuilds the
//! same `serde_json::Value` when the generated program runs.
pub mod document;
pub mod laws;
pub mod plan;
pub mod recipe;
pub mod source;
pub mod value;
