//! A client library for a deep-packet-inspection event stream: framing,
//! classification, record filtering and connection control.
pub mod cli;
pub mod config;
pub mod connection;
pub mod filter;
pub mod frame;
pub mod json;
pub mod logging;
pub mod router;
