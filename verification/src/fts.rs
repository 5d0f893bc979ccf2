//! Full-text search.

pub mod analyzer;
pub mod definition;
pub mod engine;
pub mod highlight;
pub mod index;
pub mod inverted;
pub mod json;
pub mod laws;
pub mod matching;
pub mod query;
pub mod ranking;
pub mod scores;
pub mod search;
pub mod search_laws;
