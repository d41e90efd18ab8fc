//! The relay server: which update requests it accepts and what it answers.
use vstd::prelude::*;
use vstd::string::*;

use crate::config::ServerConfig;
use crate::dyndns::{ClientData, DataError, acceptable_ipv4, acceptable_ipv6};
use crate::text::{contains_text, join_spec, lemma_join_nonempty, lemma_join_prepend, lemma_split_concat, lemma_split_without_sep, split_on, split_spec, views};

verus! {

pub const MESSAGE_DOMAINS_FORBIDDEN: &'static str =
    "At least one of the provided domains is not whitelisted by the server";

pub const MESSAGE_UNAUTHORIZED: &'static str =
    "Failed to authenticate to Cloudflare, please provide a valid API token";

pub const MESSAGE_FAILED_UPDATE: &'static str = "Failed to update the records";

pub const MESSAGE_SUCCESS: &'static str = "Updated dyndns records";

pub const STATUS_OK: u16 = 200;

pub const STATUS_BAD_REQUEST: u16 = 400;

pub const STATUS_UNAUTHORIZED: u16 = 401;

pub const STATUS_FORBIDDEN: u16 = 403;

/// An update request.
#[derive(Clone, Debug)]
pub struct RequestData {
    /// Cloudflare API token
    pub token: String,
    /// List of domains to update, requires at least one domain.
    pub domains: Vec<String>,
    /// IPv4 Address, optional, when IPv6 set
    pub ipv4: String,
    /// IPv6 Address, optional, when IPv4 set
    pub ipv6: String,
    /// Indicate if domain should be proxied, defaults to true
    pub proxy: bool,
}

/// The value of `proxy` when a request leaves it out.
pub fn default_true() -> (b: bool)
    ensures
        b,
{
    true
}

/// The answer to an update request.
#[derive(Clone, Debug)]
pub struct ResponseMessage {
    /// Message describing the result of the request
    pub msg: String,
    /// Indicates if the request was successful
    pub success: bool,
}

impl Default for ResponseMessage {
    fn default() -> (m: Self)
        ensures
            m.msg@.len() == 0,
            !m.success,
    {
        ResponseMessage { msg: String::new(), success: false }
    }
}

/// HTTP Server for receiving updates from clients and relaying them to the
/// cloudflare API.
#[derive(Clone, Debug)]
pub struct Server {
    pub options: ServerConfig,
}

impl Server {
    /// Create a new server from the given configuration.
    pub fn from_config(config: ServerConfig) -> (s: Self)
        ensures
            s.options == config,
    {
        Server { options: config }
    }
}

/// The candidate names the server checks for a domain, built from its
/// labels taken from the end: the first is the last label; each next one is
/// the next label on the left, followed by a dot and the name before it
/// (or the label alone while the name before it is empty).
pub open spec fn suffix_name(labels: Seq<Seq<char>>, k: nat) -> Seq<char>
    decreases k,
{
    if k == 0 || k > labels.len() {
        Seq::empty()
    } else {
        let before = suffix_name(labels, (k - 1) as nat);
        let part = labels[labels.len() - k];
        if before.len() == 0 {
            part
        } else {
            part + "."@ + before
        }
    }
}

/// A domain is allowed when one of its candidate names is whitelisted.
pub open spec fn domain_allowed(whitelist: Seq<Seq<char>>, domain: Seq<char>) -> bool {
    let labels = split_spec(domain, '.');
    exists|k: nat| 1 <= k <= labels.len() && whitelist.contains(#[trigger] suffix_name(labels, k))
}

/// Requests pass when the whitelist is empty or every domain is allowed.
pub open spec fn domains_permitted(whitelist: Seq<Seq<char>>, domains: Seq<Seq<char>>) -> bool {
    whitelist.len() == 0 || forall|i: int| 0 <= i < domains.len() ==> domain_allowed(whitelist, #[trigger] domains[i])
}

proof fn lemma_suffix_name_prepend(labels: Seq<Seq<char>>, x: Seq<char>, k: nat)
    requires
        k <= labels.len(),
    ensures
        suffix_name(seq![x] + labels, k) == suffix_name(labels, k),
    decreases k,
{
    if k > 0 {
        lemma_suffix_name_prepend(labels, x, (k - 1) as nat);
        let l2 = seq![x] + labels;
        assert(l2[l2.len() - k] == labels[labels.len() - k]);
    }
}

/// A subdomain of an allowed domain is allowed: putting a label (without
/// dots) in front keeps every candidate name that matched.
pub proof fn law_subdomain_allowed(whitelist: Seq<Seq<char>>, domain: Seq<char>, label: Seq<char>)
    requires
        domain_allowed(whitelist, domain),
        !label.contains('.'),
    ensures
        domain_allowed(whitelist, label + "."@ + domain),
{
    reveal_strlit(".");
    assert("."@ =~= seq!['.']);
    lemma_split_concat(label, domain, '.');
    lemma_split_without_sep(label, '.');
    let labels = split_spec(domain, '.');
    let labels2 = split_spec(label + "."@ + domain, '.');
    assert(labels2 == seq![label] + labels);
    let k = choose|k: nat| 1 <= k <= labels.len() && whitelist.contains(#[trigger] suffix_name(labels, k));
    lemma_suffix_name_prepend(labels, label, k);
    assert(whitelist.contains(suffix_name(labels2, k)));
}

/// When no label of a domain is empty, its candidate names are the domain
/// and its parent domains: the last `k` labels joined by dots.
pub proof fn law_candidates_are_parent_domains(labels: Seq<Seq<char>>, k: nat)
    requires
        1 <= k <= labels.len(),
        forall|i: int| 0 <= i < labels.len() ==> (#[trigger] labels[i]).len() > 0,
    ensures
        suffix_name(labels, k) == join_spec(labels.subrange(labels.len() - k, labels.len() as int), "."@),
    decreases k,
{
    let n = labels.len() as int;
    let tail = labels.subrange(n - k, n);
    if k == 1 {
        assert(suffix_name(labels, 0) =~= Seq::<char>::empty());
    } else {
        law_candidates_are_parent_domains(labels, (k - 1) as nat);
        let rest = labels.subrange(n - k + 1, n);
        assert(rest.last() == labels[n - 1]);
        lemma_join_nonempty(rest, "."@);
        lemma_join_prepend(labels[n - k], rest, "."@);
        assert(seq![labels[n - k]] + rest =~= tail);
    }
}

/// Shared state for the server: the whitelist of root domains.
#[derive(Clone, Debug)]
pub struct SharedState {
    pub domains: Vec<String>,
}

impl SharedState {
    /// Create a new shared state with the given domains.
    pub fn new(domains: Vec<String>) -> (s: Self)
        ensures
            s.domains == domains,
    {
        SharedState { domains }
    }

    fn domain_ok(&self, domain: &String) -> (ok: bool)
        ensures
            ok == domain_allowed(views(self.domains@), domain@),
    {
        let parts = split_on(domain.as_str(), '.');
        let ghost labels = split_spec(domain@, '.');
        let n = parts.len();
        let mut name = String::new();
        let mut k: usize = 0;
        while k < n
            invariant
                n == parts.len(),
                views(parts@) == labels,
                labels == split_spec(domain@, '.'),
                k <= n,
                name@ == suffix_name(labels, k as nat),
                forall|j: nat| 1 <= j <= k ==> !views(self.domains@).contains(#[trigger] suffix_name(labels, j)),
            decreases n - k,
        {
            let part = &parts[n - 1 - k];
            assert(labels[labels.len() - (k + 1)] == part@);
            if name.as_str().unicode_len() == 0 {
                name = String::from_str(part.as_str());
            } else {
                let mut next = String::from_str(part.as_str());
                next.append(".");
                next.append(name.as_str());
                name = next;
            }
            k = k + 1;
            if contains_text(&self.domains, &name) {
                assert(views(self.domains@).contains(suffix_name(labels, k as nat)));
                return true;
            }
        }
        false
    }

    /// Verify that all domains are whitelisted by the server.
    /// Returns false if any domain is not whitelisted.
    /// Returns true if all domains are whitelisted or if the whitelist is empty.
    pub fn verify_domains(&self, domains: &[String]) -> (ok: bool)
        ensures
            ok == domains_permitted(views(self.domains@), views(domains@)),
    {
        if self.domains.len() == 0 {
            return true;
        }
        let mut i: usize = 0;
        while i < domains.len()
            invariant
                i <= domains@.len(),
                self.domains@.len() != 0,
                forall|j: int| 0 <= j < i ==> domain_allowed(views(self.domains@), #[trigger] views(domains@)[j]),
            decreases domains@.len() - i,
        {
            assert(views(domains@)[i as int] == domains@[i as int]@);
            if !self.domain_ok(&domains[i]) {
                return false;
            }
            i = i + 1;
        }
        true
    }
}

/// An answer with the given status code, message and success flag.
pub open spec fn is_reply(r: (u16, ResponseMessage), code: u16, msg: Seq<char>, success: bool) -> bool {
    r.0 == code && r.1.msg@ == msg && r.1.success == success
}

fn reply(code: u16, msg: String, success: bool) -> (r: (u16, ResponseMessage))
    ensures
        is_reply(r, code, msg@, success),
{
    (code, ResponseMessage { msg, success })
}

/// Why the server refuses an update request before calling the API, as
/// the status code and the message of its answer: a domain that is not
/// whitelisted (403), then an address that is neither empty nor valid, no
/// address at all, or no domain (400).
pub open spec fn refusal(whitelist: Seq<Seq<char>>, domains: Seq<Seq<char>>, v4: Seq<char>, v6: Seq<char>) -> Option<(u16, Seq<char>)> {
    if !domains_permitted(whitelist, domains) {
        Some((STATUS_FORBIDDEN, MESSAGE_DOMAINS_FORBIDDEN@))
    } else if !acceptable_ipv4(v4) {
        Some((STATUS_BAD_REQUEST, crate::dyndns::invalid_ipv4_message(v4)))
    } else if !acceptable_ipv6(v6) {
        Some((STATUS_BAD_REQUEST, crate::dyndns::invalid_ipv6_message(v6)))
    } else if v4.len() == 0 && v6.len() == 0 {
        Some((STATUS_BAD_REQUEST, crate::dyndns::no_address_message()))
    } else if domains.len() == 0 {
        Some((STATUS_BAD_REQUEST, crate::dyndns::no_domain_message()))
    } else {
        None
    }
}

/// The first half of handling an update request: a request with a
/// `refusal` is answered with it; otherwise this gives the token and the
/// client data to update the records with.
pub fn admit_request(state: &SharedState, payload: RequestData) -> (r: Result<
    (String, ClientData),
    (u16, ResponseMessage),
>)
    ensures
        match refusal(views(state.domains@), views(payload.domains@), payload.ipv4@, payload.ipv6@) {
            Some((code, msg)) => r matches Err(e) && is_reply(e, code, msg, false),
            None => r matches Ok((token, data)) && {
                &&& token@ == payload.token@
                &&& data.proxy_view() == payload.proxy
                &&& data.domains_view() == views(payload.domains@)
                &&& data.ipv4_view() == payload.ipv4@
                &&& data.ipv6_view() == payload.ipv6@
                &&& data.wf()
            },
        },
{
    if !state.verify_domains(payload.domains.as_slice()) {
        return Err(reply(STATUS_FORBIDDEN, String::from_str(MESSAGE_DOMAINS_FORBIDDEN), false));
    }
    let mut data = ClientData::new(payload.proxy, payload.domains);
    if let Err(e) = data.set_ipv4(payload.ipv4.as_str()) {
        return Err(reply(STATUS_BAD_REQUEST, e.message(), false));
    }
    if let Err(e) = data.set_ipv6(payload.ipv6.as_str()) {
        return Err(reply(STATUS_BAD_REQUEST, e.message(), false));
    }
    if let Err(e) = data.check() {
        return Err(reply(STATUS_BAD_REQUEST, e.message(), false));
    }
    Ok((payload.token, data))
}

/// The second half of handling an update request: 401 when the token could
/// not be verified; otherwise 200, with success only when the records were
/// updated.
pub fn final_reply(token_verified: bool, records_updated: bool) -> (r: (u16, ResponseMessage))
    ensures
        !token_verified ==> is_reply(r, STATUS_UNAUTHORIZED, MESSAGE_UNAUTHORIZED@, false),
        token_verified && !records_updated ==> is_reply(r, STATUS_OK, MESSAGE_FAILED_UPDATE@, false),
        token_verified && records_updated ==> is_reply(r, STATUS_OK, MESSAGE_SUCCESS@, true),
{
    if !token_verified {
        reply(STATUS_UNAUTHORIZED, String::from_str(MESSAGE_UNAUTHORIZED), false)
    } else if !records_updated {
        reply(STATUS_OK, String::from_str(MESSAGE_FAILED_UPDATE), false)
    } else {
        reply(STATUS_OK, String::from_str(MESSAGE_SUCCESS), true)
    }
}

} // verus!
