//! The knowledge base: cards and the search in them.

pub mod coverage;
pub mod loader;
pub mod matcher;
pub mod relevance;
