//! Markdown documents with executable code samples: fences that mark code blocks and the
//! commands run against them, and the modules generated from them.

pub mod document;
pub mod md;
pub mod module;
pub mod types;
