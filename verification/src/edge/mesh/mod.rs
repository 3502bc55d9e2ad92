//! Edge-to-Edge forwarding.

pub mod certs;
pub mod forward;
pub mod routes;
pub mod setup;
pub mod transport;
