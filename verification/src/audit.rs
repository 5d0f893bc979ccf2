//! The audit log.

pub mod logger;
