//! TCP port forwarder, reverse proxy and certificate manager.
pub mod account;
pub mod config;
pub mod csr;
pub mod dns;
pub mod expiry;
pub mod ip_addr;
pub mod ip_filter;
pub mod json;
pub mod logger;
pub mod port_forward;
pub mod renewal;
pub mod ssl;
pub mod text;
pub mod tls;
pub mod web_service;
