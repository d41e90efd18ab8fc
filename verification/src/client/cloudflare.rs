//! The shapes of Cloudflare API requests and responses.
use vstd::prelude::*;

verus! {

pub const DEFAULT_API_URL: &'static str = "https://api.cloudflare.com/client/v4";

/// Response wrapper for Cloudflare API responses.
#[derive(Debug, Clone)]
pub struct CloudflareResponse<T> {
    pub success: bool,
    pub errors: Vec<CloudflareMessage>,
    pub messages: Vec<CloudflareMessage>,
    pub result: Option<T>,
}

/// Message structure for Cloudflare API responses.
#[derive(Debug, Clone)]
pub struct CloudflareMessage {
    pub code: u64,
    pub message: String,
}

/// Status of a token or a zone.
#[derive(PartialEq, Eq, Structural, Clone, Copy, Debug)]
pub enum Status {
    Active,
    Inactive,
    Disabled,
}

/// Result for Verify Token endpoint.
#[derive(Debug, Clone)]
pub struct VerifyTokenResult {
    pub id: String,
    pub status: Status,
}

/// Cloudflare dns zone
#[derive(Debug, Clone)]
pub struct Zone {
    pub id: String,
    pub status: Status,
}

/// Cloudflare dns record
#[derive(Debug, Clone)]
pub struct Record {
    pub name: String,
    pub ttl: u64,
    pub record_type: String,
    pub content: String,
    pub proxied: bool,
    pub id: String,
}

/// Record type, either A or AAAA
#[derive(PartialEq, Eq, Structural, Clone, Copy, Debug)]
pub enum RecordType {
    A,
    AAAA,
}

} // verus!
