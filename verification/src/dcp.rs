//! Change streams and the replication that feeds on them.

pub mod replicator;
pub mod stream;
