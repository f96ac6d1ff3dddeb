//! The decision logic of a discovery node: which published resource packages
//! are indexed, how their text is projected for semantic search, how queries
//! are matched and ranked, and how the semantic indexes are rebuilt.

pub mod text;
pub mod words;
pub mod ordering;
pub mod json;
pub mod domains;
pub mod tokens;
pub mod package;
pub mod document;
pub mod encoding;
pub mod config;
pub mod startup;
pub mod provider;
pub mod query;
pub mod ranking;
pub mod results;
pub mod answers;
pub mod validation;
pub mod sync;
pub mod index;
pub mod rejected;
pub mod rebuild;
pub mod seed;
pub mod suggestions;
