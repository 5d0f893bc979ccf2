//! Cluster membership, data distribution and metadata consensus.

pub mod chronicle;
pub mod durability;
pub mod failover;
pub mod manager;
pub mod manager_laws;
pub mod node;
pub mod orchestrator;
pub mod partition;
pub mod server_map;

pub use manager::{ClusterInfo, ClusterManager};
