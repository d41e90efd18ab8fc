//! Address checks of the standalone client.
use vstd::prelude::*;
use vstd::string::*;

use crate::address::{is_ipv4_text, is_ipv6_text, valid_ipv4_text, valid_ipv6_text};
use crate::standalone::errors::DynDnsError;
use crate::text::{trim_text, trimmed};

verus! {

/// Validate whether the given string is a valid IPv4 address.
pub fn valid_ipv4(ip: &str) -> (b: bool)
    ensures
        b == is_ipv4_text(ip@),
{
    valid_ipv4_text(ip)
}

/// Validate whether the given string is a valid IPv6 address.
pub fn valid_ipv6(ip: &str) -> (b: bool)
    ensures
        b == is_ipv6_text(ip@),
{
    valid_ipv6_text(ip)
}

/// The public address in the answer of the address service: the answer
/// must have status 200, and its trimmed body must be an IPv4 or an IPv6
/// address.
pub fn public_ip_from_reply(status: u16, body: String) -> (r: Result<String, DynDnsError>)
    ensures
        status != 200 ==> (r matches Err(DynDnsError::HttpRequestFailed { status: s, body: b })
            && s == status && b@ == body@),
        status == 200 ==> ({
            let ip = trimmed(body@);
            if is_ipv4_text(ip) || is_ipv6_text(ip) {
                r matches Ok(t) && t@ == ip
            } else {
                r matches Err(DynDnsError::InvalidIp(t)) && t@ == ip
            }
        }),
{
    if status != 200 {
        return Err(DynDnsError::HttpRequestFailed { status, body });
    }
    let ip = trim_text(body.as_str());
    if !valid_ipv4(ip.as_str()) && !valid_ipv6(ip.as_str()) {
        return Err(DynDnsError::InvalidIp(ip));
    }
    Ok(ip)
}

} // verus!
