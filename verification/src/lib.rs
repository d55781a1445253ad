//! Reduces a raw unified diff to a context-aware summary: a diff model, a
//! line-window filter, a structural extractor for C# sources and a structural
//! filter that merges hunks with the extracted entities.

pub mod error;
pub mod pattern;
pub mod text;
pub mod utils;
pub mod filters;
