//! OxideDB: the logic of a Couchbase-compatible document database.

pub mod api;
pub mod audit;
pub mod auth;
pub mod be_bytes;
pub mod clock;
pub mod cluster;
pub mod config;
pub mod crypto;
pub mod dcp;
pub mod document;
pub mod error;
pub mod fts;
pub mod hex;
pub mod idmap;
pub mod json;
pub mod json_text;
pub mod memcached;
pub mod snappy;
pub mod strmap;
pub mod tasks;
pub mod text;
pub mod text_split;
pub mod unicode;
