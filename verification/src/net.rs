//! Network services.

pub mod proxy_server;
