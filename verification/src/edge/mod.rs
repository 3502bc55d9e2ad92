//! The Edge: it takes public traffic and hands it to Connectors.

pub mod acme;
pub mod acme_order;
pub mod certificate_store;
pub mod config;
pub mod config_check;
pub mod connector_registry;
pub mod dns;
pub mod headers;
pub mod health;
pub mod http_proxy;
pub mod listener;
pub mod mesh;
pub mod metrics;
pub mod plugins;
pub mod startup;
pub mod token;
