//! Users, roles and permissions.

pub mod rbac;
pub mod middleware;
