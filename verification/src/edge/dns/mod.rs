//! DNS record management through provider APIs.
//!
//! Authoritative DNS stays with the provider. Sieve Tube only manages records an
//! administrator lists explicitly, never deletes records merely because they left
//! the configuration, and stops on any sign of an external change.

pub mod cloudflare;
pub mod compile;
pub mod memory;
pub mod plan;
pub mod reconciler;
pub mod record;
pub mod route53;
pub mod txt;
