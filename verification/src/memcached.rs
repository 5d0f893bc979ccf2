//! The memcached binary protocol and the key-value service behind it.

pub mod protocol;
pub mod scram;
pub mod handler;
pub mod subdoc;
pub mod server;
