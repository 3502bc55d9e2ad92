//! The Connector: it dials the Edges and serves their requests from local targets.

pub mod config;
pub mod forwarder;
pub mod health;
pub mod identity;
pub mod ingress;
pub mod quic_client;
pub mod session;
pub mod valkey;
