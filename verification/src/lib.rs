//! Verified core of a command-line client for an ISC DHCP REST management
//! API: filter validation, request preparation, timestamp formatting,
//! MAC-vendor enrichment planning, and table-row construction. All network
//! and terminal I/O lives outside this crate.

pub mod cidr;
pub mod client;
pub mod config;
pub mod error;
pub mod globals;
pub mod leases;
pub mod mac;
pub mod scopes;
pub mod strutil;
pub mod timefmt;
pub mod vendor;
