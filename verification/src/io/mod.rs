//! Storage backends.

pub mod backend;
