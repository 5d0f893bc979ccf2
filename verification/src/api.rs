//! What the services answer, apart from how requests come in and answers go out.

pub mod audit_routes;
pub mod backup_routes;
pub mod bucket_routes;
pub mod cluster_routes;
pub mod couchbase_compat;
pub mod dcp_routes;
pub mod document_list;
pub mod document_routes;
pub mod fts_routes;
pub mod index_routes;
pub mod metrics;
pub mod metrics_laws;
pub mod query_routes;
pub mod rbac_routes;
pub mod replication_routes;
pub mod root;
pub mod transaction_routes;
pub mod xdcr_routes;
