//! The Cloudflare API shapes used by the standalone client.
use vstd::prelude::*;

verus! {

/// A response of the Cloudflare API.
pub struct CloudflareResponse<T> {
    pub errors: Vec<CloudflareMessage>,
    pub messages: Vec<CloudflareMessage>,
    pub success: bool,
    pub result: Option<T>,
}

/// An error or message of a response.
pub struct CloudflareMessage {
    pub code: i64,
    pub message: String,
}

/// A zone, as listed.
pub struct CloudflareZone {
    pub id: String,
}

/// Used for both GET responses and POST/PUT request bodies. A field that is
/// empty, false or zero is left out of a request body.
#[derive(Debug, Clone)]
pub struct CloudflareRecord {
    pub content: String,
    pub name: String,
    pub proxied: bool,
    pub record_type: String,
    pub comment: String,
    pub ttl: u32,
    pub id: String,
    pub modified_on: String,
}

pub open spec fn is_empty_record(r: CloudflareRecord) -> bool {
    &&& r.content@.len() == 0
    &&& r.name@.len() == 0
    &&& !r.proxied
    &&& r.record_type@.len() == 0
    &&& r.comment@.len() == 0
    &&& r.ttl == 0
    &&& r.id@.len() == 0
    &&& r.modified_on@.len() == 0
}

impl Default for CloudflareRecord {
    fn default() -> (r: Self)
        ensures
            is_empty_record(r),
    {
        CloudflareRecord {
            content: String::new(),
            name: String::new(),
            proxied: false,
            record_type: String::new(),
            comment: String::new(),
            ttl: 0,
            id: String::new(),
            modified_on: String::new(),
        }
    }
}

/// Whether a flag is left out of a request body.
pub fn is_false(v: &bool) -> (b: bool)
    ensures
        b == !*v,
{
    !*v
}

/// Whether a number is left out of a request body.
pub fn is_zero(v: &u32) -> (b: bool)
    ensures
        b == (*v == 0),
{
    *v == 0
}

} // verus!
