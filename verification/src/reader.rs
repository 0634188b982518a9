//! What is decided about a source of chunks.

pub mod generic;
