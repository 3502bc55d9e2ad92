//! Sieve Tube: the rules of a self-hosted reverse tunnel.

#![verifier::loop_isolation(false)]

pub mod addr;
pub mod app_error;
pub mod auth;
pub mod buffer;
pub mod concurrent;
pub mod config;
pub mod connector;
pub mod digest;
pub mod edge;
pub mod error;
pub mod health;
pub mod hostname;
pub mod json;
pub mod mesh_protocol;
pub mod order;
pub mod pki;
pub mod positional;
pub mod protocol;
pub mod text;
pub mod text_map;
pub mod text_set;
pub mod time;
