//! The standalone Cloudflare client: one program that watches the public
//! addresses and updates the records itself, with metrics.

pub mod cf_types;
pub mod client;
pub mod config;
pub mod errors;
pub mod metrics;
pub mod utils;
