//! A dynamic DNS client that talks to the Cloudflare API itself.
use vstd::prelude::*;
use vstd::string::*;

use crate::config::ClientConfig;
use crate::dyndns::ClientData;
use crate::text::{lemma_split_concat, lemma_split_pieces_without_sep, lemma_split_without_sep, split_on, split_spec, views};
use self::cloudflare::{CloudflareResponse, DEFAULT_API_URL, Record, RecordType, Status, VerifyTokenResult, Zone};
use self::sync::SyncState;

pub mod cloudflare;
pub mod sync;

verus! {

/// The base domain of a domain: its last two labels, joined by a dot; the
/// empty text when it has fewer than two labels.
pub open spec fn base_domain_spec(domain: Seq<char>) -> Seq<char> {
    let parts = split_spec(domain, '.');
    if parts.len() < 2 {
        Seq::empty()
    } else {
        parts[parts.len() - 2] + "."@ + parts[parts.len() - 1]
    }
}

/// The base domain of a base domain is itself.
pub proof fn law_base_domain_idempotent(domain: Seq<char>)
    ensures
        base_domain_spec(base_domain_spec(domain)) == base_domain_spec(domain),
{
    reveal_strlit(".");
    let parts = split_spec(domain, '.');
    let b = base_domain_spec(domain);
    if parts.len() < 2 {
        assert(b =~= Seq::<char>::empty());
        assert(split_spec(b, '.') =~= seq![Seq::<char>::empty()]);
    } else {
        let p = parts[parts.len() - 2];
        let q = parts[parts.len() - 1];
        lemma_split_pieces_without_sep(domain, '.');
        assert(!p.contains('.'));
        assert(!q.contains('.'));
        lemma_split_without_sep(p, '.');
        lemma_split_without_sep(q, '.');
        lemma_split_concat(p, q, '.');
        assert("."@ =~= seq!['.']);
        assert(split_spec(b, '.') =~= seq![p, q]);
    }
}

/// Return the base domain for a given domain.
/// Example: "sub.example.com" -> "example.com"
pub fn base_domain(domain: &str) -> (b: String)
    ensures
        b@ == base_domain_spec(domain@),
{
    let parts = split_on(domain, '.');
    let n = parts.len();
    if n < 2 {
        return String::new();
    }
    assert(views(parts@)[n - 2] == parts@[n - 2]@);
    assert(views(parts@)[n - 1] == parts@[n - 1]@);
    let mut b = String::from_str(parts[n - 2].as_str());
    b.append(".");
    b.append(parts[n - 1].as_str());
    b
}

/// Why a step of talking to the API failed, besides the call itself.
#[derive(Debug, Clone, PartialEq)]
pub enum ClientError {
    MissingToken,
    TokenInactive,
    InvalidDomain,
    NoZone,
    ApiFailure,
    NoResult,
}

impl ClientError {
    pub open spec fn message_spec(&self) -> Seq<char> {
        match self {
            ClientError::MissingToken => "Missing cloudflare api token"@,
            ClientError::TokenInactive => "Token is not active"@,
            ClientError::InvalidDomain => "Invalid domain"@,
            ClientError::NoZone => "No zone found, does the domain exist and is active?"@,
            ClientError::ApiFailure => "API responded with failure"@,
            ClientError::NoResult => "API responded with success but returned no result"@,
        }
    }

    /// The text that describes the error.
    pub fn message(&self) -> (m: String)
        ensures
            m@ == self.message_spec(),
    {
        match self {
            ClientError::MissingToken => String::from_str("Missing cloudflare api token"),
            ClientError::TokenInactive => String::from_str("Token is not active"),
            ClientError::InvalidDomain => String::from_str("Invalid domain"),
            ClientError::NoZone => String::from_str(
                "No zone found, does the domain exist and is active?",
            ),
            ClientError::ApiFailure => String::from_str("API responded with failure"),
            ClientError::NoResult => String::from_str(
                "API responded with success but returned no result",
            ),
        }
    }
}

/// The result of a Cloudflare response: refused when the API reports
/// failure, or success without a result.
pub fn unwrap_response<T>(response: CloudflareResponse<T>) -> (r: Result<T, ClientError>)
    ensures
        !response.success ==> r == Err::<T, ClientError>(ClientError::ApiFailure),
        response.success && response.result is None ==> r == Err::<T, ClientError>(
            ClientError::NoResult,
        ),
        response.success && response.result is Some ==> r == Ok::<T, ClientError>(
            response.result->0,
        ),
{
    if !response.success {
        return Err(ClientError::ApiFailure);
    }
    match response.result {
        Some(result) => Ok(result),
        None => Err(ClientError::NoResult),
    }
}

/// A verified token must be active.
pub fn check_token_status(result: &VerifyTokenResult) -> (r: Result<(), ClientError>)
    ensures
        r is Ok <==> result.status == Status::Active,
        r is Err ==> r == Err::<(), ClientError>(ClientError::TokenInactive),
{
    if result.status != Status::Active {
        return Err(ClientError::TokenInactive);
    }
    Ok(())
}

/// The id of the first zone listed; there must be one.
pub fn first_zone_id(zones: &Vec<Zone>) -> (r: Result<String, ClientError>)
    ensures
        zones@.len() == 0 ==> r == Err::<String, ClientError>(ClientError::NoZone),
        zones@.len() != 0 ==> (r matches Ok(id) && id@ == zones@[0].id@),
{
    if zones.len() == 0 {
        return Err(ClientError::NoZone);
    }
    Ok(String::from_str(zones[0].id.as_str()))
}

/// `r` is the record of type `t` named `domain` with id `id` that holds the
/// address of that type in `data`, with automatic TTL (1) and the proxy
/// setting of `data`.
pub open spec fn record_matches(r: Record, data: ClientData, domain: Seq<char>, id: Seq<char>, t: RecordType) -> bool {
    &&& r.name@ == domain
    &&& r.ttl == 1
    &&& r.record_type@ == (match t {
        RecordType::A => "A"@,
        RecordType::AAAA => "AAAA"@,
    })
    &&& r.content@ == (match t {
        RecordType::A => data.ipv4_view(),
        RecordType::AAAA => data.ipv6_view(),
    })
    &&& r.proxied == data.proxy_view()
    &&& r.id@ == id
}

/// Dyndns client that calls the Cloudflare API directly.
pub struct Client {
    api_url: String,
    token: String,
    data: ClientData,
}

impl Client {
    pub closed spec fn api_url_view(&self) -> Seq<char> {
        self.api_url@
    }

    pub closed spec fn token_view(&self) -> Seq<char> {
        self.token@
    }

    pub closed spec fn data_spec(&self) -> ClientData {
        self.data
    }

    /// Create a new Client instance from the client config.
    pub fn from_config(config: ClientConfig) -> (c: Self)
        ensures
            c.api_url_view() == DEFAULT_API_URL@,
            c.token_view() == config.token@,
            c.data_spec().proxy_view() == config.proxy,
            c.data_spec().domains_view() == views(config.domains@),
            c.data_spec().ipv4_view().len() == 0,
            c.data_spec().ipv6_view().len() == 0,
            c.data_spec().wf(),
    {
        Client {
            api_url: String::from_str(DEFAULT_API_URL),
            token: config.token,
            data: ClientData::new(config.proxy, config.domains),
        }
    }

    /// Create a new Client instance from the provided data.
    pub fn from_data(token: String, data: ClientData) -> (c: Self)
        ensures
            c.api_url_view() == DEFAULT_API_URL@,
            c.token_view() == token@,
            c.data_spec() == data,
    {
        Client { api_url: String::from_str(DEFAULT_API_URL), token, data }
    }

    /// The base address of the API.
    pub fn api_url(&self) -> (u: &str)
        ensures
            u@ == self.api_url_view(),
    {
        self.api_url.as_str()
    }

    /// The API token.
    pub fn token(&self) -> (t: &str)
        ensures
            t@ == self.token_view(),
    {
        self.token.as_str()
    }

    /// The state of the client.
    pub fn data(&self) -> (d: &ClientData)
        ensures
            *d == self.data_spec(),
    {
        &self.data
    }

    /// The state of the client, to change it.
    pub fn data_mut(&mut self) -> (d: &mut ClientData)
        ensures
            *d == old(self).data_spec(),
            final(self).data_spec() == *final(d),
            final(self).api_url_view() == old(self).api_url_view(),
            final(self).token_view() == old(self).token_view(),
    {
        &mut self.data
    }

    /// The address of the token check: GET /user/tokens/verify. Refused
    /// without a token.
    pub fn verify_token_url(&self) -> (r: Result<String, ClientError>)
        ensures
            self.token_view().len() == 0 ==> r == Err::<String, ClientError>(
                ClientError::MissingToken,
            ),
            self.token_view().len() != 0 ==> (r matches Ok(u) && u@ == self.api_url_view()
                + "/user/tokens/verify"@),
    {
        if self.token.as_str().unicode_len() == 0 {
            return Err(ClientError::MissingToken);
        }
        let mut u = String::from_str(self.api_url.as_str());
        u.append("/user/tokens/verify");
        Ok(u)
    }

    /// The address that lists the active zone of the domain's base domain:
    /// GET /zones?name={base}&status=active. Refused when the domain has no
    /// base domain.
    pub fn zone_lookup_url(&self, domain: &str) -> (r: Result<String, ClientError>)
        ensures
            base_domain_spec(domain@).len() == 0 ==> r == Err::<String, ClientError>(
                ClientError::InvalidDomain,
            ),
            base_domain_spec(domain@).len() != 0 ==> (r matches Ok(u) && u@ == self.api_url_view()
                + "/zones?name="@ + base_domain_spec(domain@) + "&status=active"@),
    {
        let base = base_domain(domain);
        if base.as_str().unicode_len() == 0 {
            return Err(ClientError::InvalidDomain);
        }
        let mut u = String::from_str(self.api_url.as_str());
        u.append("/zones?name=");
        u.append(base.as_str());
        u.append("&status=active");
        Ok(u)
    }

    /// The address that lists the records of a domain in a zone:
    /// GET /zones/{zone_id}/dns_records?name={domain}.
    pub fn records_url(&self, zone_id: &str, domain: &str) -> (u: String)
        ensures
            u@ == self.api_url_view() + "/zones/"@ + zone_id@ + "/dns_records?name="@ + domain@,
    {
        let mut u = String::from_str(self.api_url.as_str());
        u.append("/zones/");
        u.append(zone_id);
        u.append("/dns_records?name=");
        u.append(domain);
        u
    }

    /// The record that holds the client's address of the given type for a
    /// domain, with automatic TTL.
    pub fn record_for(&self, domain: &str, record_id: &str, record_type: RecordType) -> (r: Record)
        ensures
            record_matches(r, self.data_spec(), domain@, record_id@, record_type),
    {
        let (kind, ip) = match record_type {
            RecordType::A => (String::from_str("A"), String::from_str(self.data.ipv4())),
            RecordType::AAAA => (String::from_str("AAAA"), String::from_str(self.data.ipv6())),
        };
        Record {
            name: String::from_str(domain),
            ttl: 1,
            record_type: kind,
            content: ip,
            proxied: self.data.proxied(),
            id: String::from_str(record_id),
        }
    }

    /// The request that writes the client's address into an existing
    /// record: PATCH /zones/{zone_id}/dns_records/{record_id}, with the
    /// record as body.
    pub fn update_record_request(
        &self,
        zone_id: &str,
        domain: &str,
        record_id: &str,
        record_type: RecordType,
    ) -> (req: (String, Record))
        ensures
            req.0@ == self.api_url_view() + "/zones/"@ + zone_id@ + "/dns_records/"@ + record_id@,
            record_matches(req.1, self.data_spec(), domain@, record_id@, record_type),
    {
        let mut u = String::from_str(self.api_url.as_str());
        u.append("/zones/");
        u.append(zone_id);
        u.append("/dns_records/");
        u.append(record_id);
        (u, self.record_for(domain, record_id, record_type))
    }

    /// The request that creates a record with the client's address:
    /// POST /zones/{zone_id}/dns_records, with the record (without id) as
    /// body.
    pub fn create_record_request(&self, zone_id: &str, domain: &str, record_type: RecordType) -> (req: (
        String,
        Record,
    ))
        ensures
            req.0@ == self.api_url_view() + "/zones/"@ + zone_id@ + "/dns_records"@,
            record_matches(req.1, self.data_spec(), domain@, Seq::empty(), record_type),
    {
        let mut u = String::from_str(self.api_url.as_str());
        u.append("/zones/");
        u.append(zone_id);
        u.append("/dns_records");
        let none = String::new();
        (u, self.record_for(domain, none.as_str(), record_type))
    }

    /// A run of `send_update` for the client's current data.
    pub fn start_update(&self) -> (s: SyncState)
        ensures
            s@ == sync::run_start(
                self.data_spec().ipv4_view(),
                self.data_spec().ipv6_view(),
                self.data_spec().domains_view(),
            ),
    {
        SyncState::new(&self.data)
    }
}

} // verus!
