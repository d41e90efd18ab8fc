//! The state of a dynamic DNS client: the domains it keeps up to date and
//! the public addresses it last saw.
use vstd::prelude::*;
use vstd::string::*;

use crate::address::{is_ipv4_text, is_ipv6_text, valid_ipv4_text, valid_ipv6_text};
use crate::text::{trim_text, trimmed, views};

verus! {

/// Why client data was refused.
#[derive(Debug, Clone, PartialEq)]
pub enum DataError {
    /// The text is not empty and not an IPv4 address.
    InvalidIpv4(String),
    /// The text is not empty and not an IPv6 address.
    InvalidIpv6(String),
    /// Neither an IPv4 nor an IPv6 address is set.
    NoAddress,
    /// No domain is set.
    NoDomain,
}

pub open spec fn invalid_ipv4_message(ip: Seq<char>) -> Seq<char> {
    "Invalid IPv4 address: '"@ + ip + "'"@
}

pub open spec fn invalid_ipv6_message(ip: Seq<char>) -> Seq<char> {
    "Invalid IPv6 address: '"@ + ip + "'"@
}

pub open spec fn no_address_message() -> Seq<char> {
    "At least one IP address must be provided"@
}

pub open spec fn no_domain_message() -> Seq<char> {
    "At least one domain must be provided"@
}

impl DataError {
    pub open spec fn message_spec(&self) -> Seq<char> {
        match self {
            DataError::InvalidIpv4(ip) => invalid_ipv4_message(ip@),
            DataError::InvalidIpv6(ip) => invalid_ipv6_message(ip@),
            DataError::NoAddress => no_address_message(),
            DataError::NoDomain => no_domain_message(),
        }
    }

    /// The text that describes the error.
    pub fn message(&self) -> (m: String)
        ensures
            m@ == self.message_spec(),
    {
        match self {
            DataError::InvalidIpv4(ip) => {
                let mut m = String::from_str("Invalid IPv4 address: '");
                m.append(ip.as_str());
                m.append("'");
                m
            },
            DataError::InvalidIpv6(ip) => {
                let mut m = String::from_str("Invalid IPv6 address: '");
                m.append(ip.as_str());
                m.append("'");
                m
            },
            DataError::NoAddress => String::from_str("At least one IP address must be provided"),
            DataError::NoDomain => String::from_str("At least one domain must be provided"),
        }
    }
}

/// Check that `ip` is an IPv4 address.
pub fn validate_ipv4(ip: &str) -> (r: Result<(), DataError>)
    ensures
        r is Ok <==> is_ipv4_text(ip@),
        r matches Err(e) ==> e matches DataError::InvalidIpv4(t) && t@ == ip@,
{
    if valid_ipv4_text(ip) {
        Ok(())
    } else {
        Err(DataError::InvalidIpv4(String::from_str(ip)))
    }
}

/// Check that `ip` is an IPv6 address.
pub fn validate_ipv6(ip: &str) -> (r: Result<(), DataError>)
    ensures
        r is Ok <==> is_ipv6_text(ip@),
        r matches Err(e) ==> e matches DataError::InvalidIpv6(t) && t@ == ip@,
{
    if valid_ipv6_text(ip) {
        Ok(())
    } else {
        Err(DataError::InvalidIpv6(String::from_str(ip)))
    }
}

/// The IPv4 address in the answer of the address service: the answer,
/// without the whitespace around it, must be an IPv4 address.
pub fn public_ipv4_from_reply(body: &str) -> (r: Result<String, DataError>)
    ensures
        is_ipv4_text(trimmed(body@)) ==> (r matches Ok(ip) && ip@ == trimmed(body@)),
        !is_ipv4_text(trimmed(body@)) ==> (r matches Err(DataError::InvalidIpv4(t)) && t@
            == trimmed(body@)),
{
    let ip = trim_text(body);
    validate_ipv4(ip.as_str())?;
    Ok(ip)
}

/// The IPv6 address in the answer of the address service: the answer,
/// without the whitespace around it, must be an IPv6 address.
pub fn public_ipv6_from_reply(body: &str) -> (r: Result<String, DataError>)
    ensures
        is_ipv6_text(trimmed(body@)) ==> (r matches Ok(ip) && ip@ == trimmed(body@)),
        !is_ipv6_text(trimmed(body@)) ==> (r matches Err(DataError::InvalidIpv6(t)) && t@
            == trimmed(body@)),
{
    let ip = trim_text(body);
    validate_ipv6(ip.as_str())?;
    Ok(ip)
}

/// Whether the next update is forced: after a failed one, or before the
/// first, the records are sent even when no address changed.
pub fn force_next_update(last_succeeded: bool) -> (force: bool)
    ensures
        force == !last_succeeded,
{
    !last_succeeded
}

/// An address slot accepts the empty text (no address) or a valid address.
pub open spec fn acceptable_ipv4(ip: Seq<char>) -> bool {
    ip.len() == 0 || is_ipv4_text(ip)
}

pub open spec fn acceptable_ipv6(ip: Seq<char>) -> bool {
    ip.len() == 0 || is_ipv6_text(ip)
}

/// Holds the current state of a dyndns client.
#[derive(Debug)]
pub struct ClientData {
    pub proxy: bool,
    pub domains: Vec<String>,
    ipv4: String,
    ipv6: String,
}

impl ClientData {
    /// Whether the records are to be proxied by Cloudflare.
    pub closed spec fn proxy_view(&self) -> bool {
        self.proxy
    }

    /// The domains kept up to date.
    pub closed spec fn domains_view(&self) -> Seq<Seq<char>> {
        views(self.domains@)
    }

    /// The IPv4 address held, empty when there is none.
    pub closed spec fn ipv4_view(&self) -> Seq<char> {
        self.ipv4@
    }

    /// The IPv6 address held, empty when there is none.
    pub closed spec fn ipv6_view(&self) -> Seq<char> {
        self.ipv6@
    }

    /// What every value of the type keeps: each address slot is empty or
    /// holds a valid address.
    pub open spec fn wf(&self) -> bool {
        acceptable_ipv4(self.ipv4_view()) && acceptable_ipv6(self.ipv6_view())
    }

    /// Create a new ClientData instance; the addresses start empty.
    pub fn new(proxy: bool, domains: Vec<String>) -> (d: Self)
        ensures
            d.proxy_view() == proxy,
            d.domains_view() == views(domains@),
            d.ipv4_view().len() == 0,
            d.ipv6_view().len() == 0,
            d.wf(),
    {
        ClientData { proxy, domains, ipv4: String::new(), ipv6: String::new() }
    }

    /// Whether the records are to be proxied.
    pub fn proxied(&self) -> (p: bool)
        ensures
            p == self.proxy_view(),
    {
        self.proxy
    }

    /// The domains kept up to date.
    pub fn domain_list(&self) -> (d: &Vec<String>)
        ensures
            views(d@) == self.domains_view(),
    {
        &self.domains
    }

    /// Get the IPv4 address
    pub fn ipv4(&self) -> (ip: &str)
        ensures
            ip@ == self.ipv4_view(),
    {
        self.ipv4.as_str()
    }

    /// Get the IPv6 address
    pub fn ipv6(&self) -> (ip: &str)
        ensures
            ip@ == self.ipv6_view(),
    {
        self.ipv6.as_str()
    }

    /// Set the IPv4 address; the empty text clears it. On error nothing
    /// changes.
    pub fn set_ipv4(&mut self, ip: &str) -> (r: Result<(), DataError>)
        ensures
            r is Ok <==> acceptable_ipv4(ip@),
            r is Ok ==> final(self).ipv4_view() == ip@,
            r matches Err(e) ==> (e matches DataError::InvalidIpv4(t) && t@ == ip@),
            r is Err ==> final(self).ipv4_view() == old(self).ipv4_view(),
            final(self).ipv6_view() == old(self).ipv6_view(),
            final(self).proxy_view() == old(self).proxy_view(),
            final(self).domains_view() == old(self).domains_view(),
            old(self).wf() ==> final(self).wf(),
    {
        if ip.unicode_len() != 0 {
            validate_ipv4(ip)?;
        }
        self.ipv4 = String::from_str(ip);
        Ok(())
    }

    /// Set the IPv6 address; the empty text clears it. On error nothing
    /// changes.
    pub fn set_ipv6(&mut self, ip: &str) -> (r: Result<(), DataError>)
        ensures
            r is Ok <==> acceptable_ipv6(ip@),
            r is Ok ==> final(self).ipv6_view() == ip@,
            r matches Err(e) ==> (e matches DataError::InvalidIpv6(t) && t@ == ip@),
            r is Err ==> final(self).ipv6_view() == old(self).ipv6_view(),
            final(self).ipv4_view() == old(self).ipv4_view(),
            final(self).proxy_view() == old(self).proxy_view(),
            final(self).domains_view() == old(self).domains_view(),
            old(self).wf() ==> final(self).wf(),
    {
        if ip.unicode_len() != 0 {
            validate_ipv6(ip)?;
        }
        self.ipv6 = String::from_str(ip);
        Ok(())
    }

    /// Add a domain to keep up to date, after the others.
    pub fn add_domain(&mut self, domain: String)
        ensures
            final(self).domains_view() == old(self).domains_view().push(domain@),
            final(self).proxy_view() == old(self).proxy_view(),
            final(self).ipv4_view() == old(self).ipv4_view(),
            final(self).ipv6_view() == old(self).ipv6_view(),
    {
        let ghost before = self.domains@;
        self.domains.push(domain);
        assert(views(self.domains@) =~= views(before).push(self.domains@.last()@));
    }

    /// Checks if data contains at least one IP and one domain.
    pub fn check(&self) -> (r: Result<(), DataError>)
        ensures
            self.ipv4_view().len() == 0 && self.ipv6_view().len() == 0 ==> r matches Err(
                DataError::NoAddress,
            ),
            (self.ipv4_view().len() != 0 || self.ipv6_view().len() != 0) && self.domains_view().len()
                == 0 ==> r matches Err(DataError::NoDomain),
            r is Ok <==> ((self.ipv4_view().len() != 0 || self.ipv6_view().len() != 0)
                && self.domains_view().len() != 0),
    {
        if self.ipv4.as_str().unicode_len() == 0 && self.ipv6.as_str().unicode_len() == 0 {
            return Err(DataError::NoAddress);
        }
        if self.domains.len() == 0 {
            return Err(DataError::NoDomain);
        }
        Ok(())
    }

    /// Take in freshly discovered public addresses: each one that differs
    /// from the held one replaces it. Tells whether the records must be sent
    /// to the provider: when an address changed or when `force` is set. On
    /// error the addresses replaced before it stay replaced.
    pub fn apply_public_addresses(&mut self, ipv4: &str, ipv6: &str, force: bool) -> (r: Result<
        bool,
        DataError,
    >)
        ensures
            final(self).proxy_view() == old(self).proxy_view(),
            final(self).domains_view() == old(self).domains_view(),
            old(self).wf() ==> final(self).wf(),
            ({
                let v4_changed = ipv4@ != old(self).ipv4_view();
                let v6_changed = ipv6@ != old(self).ipv6_view();
                match r {
                    Ok(send) => {
                        &&& (v4_changed ==> acceptable_ipv4(ipv4@))
                        &&& (v6_changed ==> acceptable_ipv6(ipv6@))
                        &&& final(self).ipv4_view() == ipv4@
                        &&& final(self).ipv6_view() == ipv6@
                        &&& send == (v4_changed || v6_changed || force)
                    },
                    Err(e) => if v4_changed && !acceptable_ipv4(ipv4@) {
                        &&& e matches DataError::InvalidIpv4(t) && t@ == ipv4@
                        &&& final(self).ipv4_view() == old(self).ipv4_view()
                        &&& final(self).ipv6_view() == old(self).ipv6_view()
                    } else {
                        &&& v6_changed && !acceptable_ipv6(ipv6@)
                        &&& e matches DataError::InvalidIpv6(t) && t@ == ipv6@
                        &&& final(self).ipv4_view() == ipv4@
                        &&& final(self).ipv6_view() == old(self).ipv6_view()
                    },
                }
            }),
    {
        let mut changed = false;
        let cur4 = String::from_str(self.ipv4());
        if String::from_str(ipv4) != cur4 {
            self.set_ipv4(ipv4)?;
            changed = true;
        }
        let cur6 = String::from_str(self.ipv6());
        if String::from_str(ipv6) != cur6 {
            self.set_ipv6(ipv6)?;
            changed = true;
        }
        Ok(changed || force)
    }
}

} // verus!
