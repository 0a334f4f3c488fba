//! The prediction daemon: protocol, configuration, engines, router and the
//! decisions of its connection server.

pub mod config;
pub mod predictor;
pub mod protocol;
pub mod server;
