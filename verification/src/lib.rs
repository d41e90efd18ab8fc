//! Dynamic DNS for domains managed by Cloudflare: the rules that decide which
//! records change, which requests a relay server accepts, and how the
//! configuration is checked, stated as contracts and proved with Verus.

pub mod address;
pub mod client;
pub mod config;
pub mod dyndns;
pub mod relay;
pub mod server;
pub mod standalone;
pub mod text;
pub mod version;
