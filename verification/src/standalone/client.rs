//! The standalone Cloudflare client: its state, the requests it makes and
//! the order in which it brings the records in line with its addresses.
use vstd::prelude::*;
use vstd::string::*;

use crate::client::base_domain_spec;
use crate::client::cloudflare::{Record, RecordType};
use crate::client::sync::{ChangeView, RecordChange, changes_view, facts_of, facts_seq, plan_changes, plan_spec, RecordFacts};
use crate::standalone::cf_types::{CloudflareMessage, CloudflareRecord, CloudflareResponse, CloudflareZone};
use crate::standalone::errors::DynDnsError;
use crate::text::{join_spec, signed_decimal, signed_text, views};

verus! {

pub const CLOUDFLARE_API_ENDPOINT: &'static str = "https://api.cloudflare.com/client/v4/";

/// State shared across update cycles.
#[derive(Debug)]
pub struct ClientData {
    pub proxy: bool,
    pub domains: Vec<String>,
    pub ipv4: String,
    pub ipv6: String,
}

impl ClientData {
    /// Data without domains and addresses.
    pub fn new(proxy: bool) -> (d: Self)
        ensures
            d.proxy == proxy,
            d.domains@.len() == 0,
            d.ipv4@.len() == 0,
            d.ipv6@.len() == 0,
    {
        ClientData { proxy, domains: Vec::new(), ipv4: String::new(), ipv6: String::new() }
    }
}

/// Extract the base domain from a FQDN (e.g. `foo.example.org` -> `example.org`).
pub fn get_base_domain(domain: &str) -> (b: String)
    ensures
        b@ == base_domain_spec(domain@),
{
    crate::client::base_domain(domain)
}

/// The HTTP method of a request to the API.
#[derive(PartialEq, Eq, Structural, Clone, Copy, Debug)]
pub enum Method {
    Get,
    Post,
    Put,
}

/// The text of the errors of a failed response: `[code] message` for each,
/// joined by `; `.
pub open spec fn errors_spec(errors: Seq<CloudflareMessage>) -> Seq<char> {
    join_spec(
        errors.map_values(|e: CloudflareMessage| "["@ + signed_decimal(e.code as int) + "] "@ + e.message@),
        "; "@,
    )
}

/// The text of the errors of a failed response.
pub fn errors_text(errors: &Vec<CloudflareMessage>) -> (t: String)
    ensures
        t@ == errors_spec(errors@),
{
    let mut parts: Vec<String> = Vec::new();
    let mut i: usize = 0;
    let ghost f = |e: CloudflareMessage| "["@ + signed_decimal(e.code as int) + "] "@ + e.message@;
    while i < errors.len()
        invariant
            i <= errors.len(),
            f == (|e: CloudflareMessage| "["@ + signed_decimal(e.code as int) + "] "@ + e.message@),
            views(parts@) == errors@.map_values(f).take(i as int),
        decreases errors.len() - i,
    {
        let mut p = String::from_str("[");
        p.append(signed_text(errors[i].code).as_str());
        p.append("] ");
        p.append(errors[i].message.as_str());
        let ghost before = parts@;
        parts.push(p);
        assert(views(parts@) =~= errors@.map_values(f).take(i + 1)) by {
            assert(views(parts@) =~= views(before).push(p@));
        }
        i = i + 1;
    }
    assert(errors@.map_values(f).take(errors.len() as int) =~= errors@.map_values(f));
    crate::text::join_with(&parts, "; ")
}

/// A response with a status other than 200 is a failed request.
pub fn check_status(status: u16, body: String) -> (r: Result<(), DynDnsError>)
    ensures
        status == 200 ==> r is Ok,
        status != 200 ==> (r matches Err(DynDnsError::HttpRequestFailed { status: s, body: b })
            && s == status && b@ == body@),
{
    if status != 200 {
        return Err(DynDnsError::HttpRequestFailed { status, body });
    }
    Ok(())
}

/// A parsed response that does not report success is a failed operation,
/// described by its errors.
pub fn check_success<T>(parsed: CloudflareResponse<T>) -> (r: Result<CloudflareResponse<T>, DynDnsError>)
    ensures
        parsed.success ==> r == Ok::<CloudflareResponse<T>, DynDnsError>(parsed),
        !parsed.success ==> (r matches Err(DynDnsError::OperationFailed(t)) && t@ == errors_spec(
            parsed.errors@,
        )),
{
    if !parsed.success {
        return Err(DynDnsError::OperationFailed(errors_text(&parsed.errors)));
    }
    Ok(parsed)
}

/// The path that lists the active zone of a domain's base domain.
pub fn zone_path(domain: &str) -> (p: String)
    ensures
        p@ == "zones?name="@ + base_domain_spec(domain@) + "&status=active"@,
{
    let zone = get_base_domain(domain);
    let mut p = String::from_str("zones?name=");
    p.append(zone.as_str());
    p.append("&status=active");
    p
}

/// The id of the first zone listed; there must be one.
pub fn pick_zone(result: Option<Vec<CloudflareZone>>) -> (r: Result<String, DynDnsError>)
    ensures
        match result {
            Some(zones) if zones@.len() > 0 => r matches Ok(id) && id@ == zones@[0].id@,
            _ => r == Err::<String, DynDnsError>(DynDnsError::NoDomain),
        },
{
    match result {
        Some(zones) => {
            if zones.len() == 0 {
                return Err(DynDnsError::NoDomain);
            }
            Ok(String::from_str(zones[0].id.as_str()))
        },
        None => Err(DynDnsError::NoDomain),
    }
}

/// The path that lists the records of a domain in a zone.
pub fn records_path(zone: &str, domain: &str) -> (p: String)
    ensures
        p@ == "zones/"@ + zone@ + "/dns_records?name="@ + domain@,
{
    let mut p = String::from_str("zones/");
    p.append(zone);
    p.append("/dns_records?name=");
    p.append(domain);
    p
}

/// Cloudflare DDNS client.
pub struct CloudflareClient {
    endpoint: String,
    token: String,
    data: ClientData,
}

impl CloudflareClient {
    pub closed spec fn endpoint_view(&self) -> Seq<char> {
        self.endpoint@
    }

    pub closed spec fn token_view(&self) -> Seq<char> {
        self.token@
    }

    pub closed spec fn data_spec(&self) -> ClientData {
        self.data
    }

    /// A client for the Cloudflare API with the given token; refused
    /// without a token.
    pub fn new(token: &str, proxy: bool) -> (r: Result<Self, DynDnsError>)
        ensures
            token@.len() == 0 ==> r == Err::<Self, DynDnsError>(DynDnsError::MissingToken),
            token@.len() != 0 ==> (r matches Ok(c) && {
                &&& c.endpoint_view() == CLOUDFLARE_API_ENDPOINT@
                &&& c.token_view() == token@
                &&& c.data_spec().proxy == proxy
                &&& c.data_spec().domains@.len() == 0
                &&& c.data_spec().ipv4@.len() == 0
                &&& c.data_spec().ipv6@.len() == 0
            }),
    {
        if token.unicode_len() == 0 {
            return Err(DynDnsError::MissingToken);
        }
        Ok(
            CloudflareClient {
                endpoint: String::from_str(CLOUDFLARE_API_ENDPOINT),
                token: String::from_str(token),
                data: ClientData::new(proxy),
            },
        )
    }

    /// A client for the API at `endpoint`.
    pub fn new_test(endpoint: &str, token: &str, proxy: bool) -> (c: Self)
        ensures
            c.endpoint_view() == endpoint@,
            c.token_view() == token@,
            c.data_spec().proxy == proxy,
            c.data_spec().domains@.len() == 0,
            c.data_spec().ipv4@.len() == 0,
            c.data_spec().ipv6@.len() == 0,
    {
        CloudflareClient {
            endpoint: String::from_str(endpoint),
            token: String::from_str(token),
            data: ClientData::new(proxy),
        }
    }

    /// The state shared across update cycles.
    pub fn data(&self) -> (d: &ClientData)
        ensures
            *d == self.data_spec(),
    {
        &self.data
    }

    /// The state shared across update cycles, to change it; the endpoint
    /// and the token stay.
    pub fn data_mut(&mut self) -> (d: &mut ClientData)
        ensures
            *d == old(self).data_spec(),
            final(self).data_spec() == *final(d),
            final(self).endpoint_view() == old(self).endpoint_view(),
            final(self).token_view() == old(self).token_view(),
    {
        &mut self.data
    }

    /// Set the domains to keep up to date; nothing else changes.
    pub fn set_domains(&mut self, domains: Vec<String>)
        ensures
            final(self).data_spec().domains == domains,
            final(self).data_spec().proxy == old(self).data_spec().proxy,
            final(self).data_spec().ipv4 == old(self).data_spec().ipv4,
            final(self).data_spec().ipv6 == old(self).data_spec().ipv6,
            final(self).endpoint_view() == old(self).endpoint_view(),
            final(self).token_view() == old(self).token_view(),
    {
        self.data.domains = domains;
    }

    /// The address of a path of the API.
    pub fn request_url(&self, path: &str) -> (u: String)
        ensures
            u@ == self.endpoint_view() + path@,
    {
        let mut u = String::from_str(self.endpoint.as_str());
        u.append(path);
        u
    }

    /// The value of the Authorization header.
    pub fn authorization(&self) -> (h: String)
        ensures
            h@ == "Bearer "@ + self.token_view(),
    {
        let mut h = String::from_str("Bearer ");
        h.append(self.token.as_str());
        h
    }

    /// The request that creates a record of `record_type` for `domain`
    /// (POST, when `record_id` is empty) or replaces the record `record_id`
    /// (PUT), with the client's address of that type (none for other
    /// types), its proxy setting and automatic TTL.
    pub fn write_request(&self, zone: &str, domain: &str, record_type: &str, record_id: &str) -> (req: (
        Method,
        String,
        CloudflareRecord,
    ))
        ensures
            record_id@.len() == 0 ==> req.0 == Method::Post && req.1@ == "zones/"@ + zone@
                + "/dns_records"@,
            record_id@.len() != 0 ==> req.0 == Method::Put && req.1@ == "zones/"@ + zone@
                + "/dns_records/"@ + record_id@,
            req.2.content@ == (if record_type@ == "A"@ {
                self.data_spec().ipv4@
            } else if record_type@ == "AAAA"@ {
                self.data_spec().ipv6@
            } else {
                Seq::empty()
            }),
            req.2.name@ == domain@,
            req.2.proxied == self.data_spec().proxy,
            req.2.record_type@ == record_type@,
            req.2.ttl == 1,
            req.2.comment@.len() == 0,
            req.2.id@.len() == 0,
            req.2.modified_on@.len() == 0,
    {
        let t = String::from_str(record_type);
        let ip = if t == String::from_str("A") {
            String::from_str(self.data.ipv4.as_str())
        } else if t == String::from_str("AAAA") {
            String::from_str(self.data.ipv6.as_str())
        } else {
            String::new()
        };
        let record = CloudflareRecord {
            content: ip,
            name: String::from_str(domain),
            proxied: self.data.proxy,
            record_type: t,
            comment: String::new(),
            ttl: 1,
            id: String::new(),
            modified_on: String::new(),
        };
        let mut path = String::from_str("zones/");
        path.append(zone);
        if record_id.unicode_len() == 0 {
            path.append("/dns_records");
            (Method::Post, path, record)
        } else {
            path.append("/dns_records/");
            path.append(record_id);
            (Method::Put, path, record)
        }
    }

    /// A run of `update` for the client's current data.
    pub fn start_update(&self) -> (s: UpdateRun)
        ensures
            s@ == update_start(self.data_spec().ipv4@, self.data_spec().ipv6@, views(self.data_spec().domains@)),
    {
        UpdateRun::new(&self.data)
    }
}

/// What the planning reads of a listed record.
pub open spec fn cf_facts(r: CloudflareRecord) -> RecordFacts {
    RecordFacts { record_type: r.record_type@, content: r.content@, id: r.id@ }
}

/// The records of a listing, none when it gave no result.
pub open spec fn listed_facts(result: Option<Seq<CloudflareRecord>>) -> Seq<RecordFacts> {
    match result {
        Some(rs) => rs.map_values(|r: CloudflareRecord| cf_facts(r)),
        None => Seq::empty(),
    }
}

fn plain_records(result: Option<Vec<CloudflareRecord>>) -> (out: Vec<Record>)
    ensures
        facts_seq(out@) == listed_facts(match result {
            Some(rs) => Some(rs@),
            None => None,
        }),
{
    let mut out: Vec<Record> = Vec::new();
    match result {
        None => {
            assert(facts_seq(out@) =~= Seq::<RecordFacts>::empty());
        },
        Some(rs) => {
            let ghost target = rs@.map_values(|r: CloudflareRecord| cf_facts(r));
            let mut i: usize = 0;
            while i < rs.len()
                invariant
                    i <= rs.len(),
                    target == rs@.map_values(|r: CloudflareRecord| cf_facts(r)),
                    facts_seq(out@) == target.take(i as int),
                decreases rs.len() - i,
            {
                let r = &rs[i];
                let ghost before = out@;
                out.push(
                    Record {
                        name: String::from_str(r.name.as_str()),
                        ttl: r.ttl as u64,
                        record_type: String::from_str(r.record_type.as_str()),
                        content: String::from_str(r.content.as_str()),
                        proxied: r.proxied,
                        id: String::from_str(r.id.as_str()),
                    },
                );
                assert(facts_seq(out@) =~= target.take(i + 1)) by {
                    assert(facts_seq(out@) =~= facts_seq(before).push(facts_of(out@.last())));
                }
                i = i + 1;
            }
            assert(target.take(rs.len() as int) =~= target);
        },
    }
    out
}

/// Where a run of `update` stands.
#[derive(PartialEq, Eq, Structural, Clone, Copy, Debug)]
pub enum RunPhase {
    Begin,
    AwaitZone,
    AwaitRecords,
    AwaitWrite,
    Done,
}

/// The progress of one run of `update`. The caller performs the requests
/// the steps ask for and reports their outcome.
pub struct UpdateRun {
    phase: RunPhase,
    ipv4: String,
    ipv6: String,
    domains: Vec<String>,
    domain: usize,
    zone: String,
    changes: Vec<RecordChange>,
    next: usize,
}

pub struct UpdateView {
    pub phase: RunPhase,
    pub ipv4: Seq<char>,
    pub ipv6: Seq<char>,
    pub domains: Seq<Seq<char>>,
    pub domain: nat,
    pub zone: Seq<char>,
    pub changes: Seq<ChangeView>,
    pub next: nat,
}

impl View for UpdateRun {
    type V = UpdateView;

    closed spec fn view(&self) -> UpdateView {
        UpdateView {
            phase: self.phase,
            ipv4: self.ipv4@,
            ipv6: self.ipv6@,
            domains: views(self.domains@),
            domain: self.domain as nat,
            zone: self.zone@,
            changes: changes_view(self.changes@),
            next: self.next as nat,
        }
    }
}

/// The outcome of the last request.
pub enum RunEvent {
    Begin,
    ZoneFound(String),
    RecordsListed(Option<Vec<CloudflareRecord>>),
    WriteDone,
    CallFailed,
}

pub enum RunEventView {
    Begin,
    ZoneFound(Seq<char>),
    RecordsListed(Seq<RecordFacts>),
    WriteDone,
    CallFailed,
}

impl View for RunEvent {
    type V = RunEventView;

    open spec fn view(&self) -> RunEventView {
        match self {
            RunEvent::Begin => RunEventView::Begin,
            RunEvent::ZoneFound(z) => RunEventView::ZoneFound(z@),
            RunEvent::RecordsListed(r) => RunEventView::RecordsListed(
                listed_facts(
                    match r {
                        Some(rs) => Some(rs@),
                        None => None,
                    },
                ),
            ),
            RunEvent::WriteDone => RunEventView::WriteDone,
            RunEvent::CallFailed => RunEventView::CallFailed,
        }
    }
}

/// The next request to make.
pub enum RunStep {
    /// Find the zone id of `domain` (`get_zone_id`).
    LookupZone { domain: String },
    /// List the records of `domain` in `zone` (`get_records`).
    ListRecords { zone: String, domain: String },
    /// Write a record (`update_record`): create it when `record_id` is
    /// empty.
    WriteRecord { zone: String, domain: String, record_type: String, record_id: String },
    /// All records are in line.
    Finished,
    /// The run failed: with the error, or with the error of the failed
    /// request when there is none.
    Fail(Option<DynDnsError>),
}

pub enum RunStepView {
    LookupZone { domain: Seq<char> },
    ListRecords { zone: Seq<char>, domain: Seq<char> },
    WriteRecord { zone: Seq<char>, domain: Seq<char>, record_type: Seq<char>, record_id: Seq<char> },
    Finished,
    Fail(Option<DynDnsError>),
}

impl View for RunStep {
    type V = RunStepView;

    open spec fn view(&self) -> RunStepView {
        match self {
            RunStep::LookupZone { domain } => RunStepView::LookupZone { domain: domain@ },
            RunStep::ListRecords { zone, domain } => RunStepView::ListRecords {
                zone: zone@,
                domain: domain@,
            },
            RunStep::WriteRecord { zone, domain, record_type, record_id } => RunStepView::WriteRecord {
                zone: zone@,
                domain: domain@,
                record_type: record_type@,
                record_id: record_id@,
            },
            RunStep::Finished => RunStepView::Finished,
            RunStep::Fail(e) => RunStepView::Fail(*e),
        }
    }
}

pub open spec fn record_type_text(t: RecordType) -> Seq<char> {
    match t {
        RecordType::A => "A"@,
        RecordType::AAAA => "AAAA"@,
    }
}

/// The write request a planned change becomes: an update names the
/// record, a creation names none.
pub open spec fn write_for(zone: Seq<char>, domain: Seq<char>, c: ChangeView) -> RunStepView {
    match c {
        ChangeView::Update { record_id, record_type } => RunStepView::WriteRecord {
            zone,
            domain,
            record_type: record_type_text(record_type),
            record_id,
        },
        ChangeView::Create { record_type } => RunStepView::WriteRecord {
            zone,
            domain,
            record_type: record_type_text(record_type),
            record_id: Seq::empty(),
        },
    }
}

pub open spec fn run_accepts(v: UpdateView, e: RunEventView) -> bool {
    match v.phase {
        RunPhase::Begin => e is Begin,
        RunPhase::AwaitZone => e is ZoneFound || e is CallFailed,
        RunPhase::AwaitRecords => e is RecordsListed || e is CallFailed,
        RunPhase::AwaitWrite => e is WriteDone || e is CallFailed,
        RunPhase::Done => false,
    }
}

pub open spec fn run_in_range(v: UpdateView) -> bool {
    &&& v.next <= v.changes.len()
    &&& (v.phase == RunPhase::AwaitZone || v.phase == RunPhase::AwaitRecords || v.phase
        == RunPhase::AwaitWrite) ==> v.domain < v.domains.len()
    &&& v.phase == RunPhase::AwaitWrite ==> v.next < v.changes.len()
}

pub open spec fn run_settle(v: UpdateView) -> (UpdateView, RunStepView) {
    if v.next < v.changes.len() {
        (
            UpdateView { phase: RunPhase::AwaitWrite, ..v },
            write_for(v.zone, v.domains[v.domain as int], v.changes[v.next as int]),
        )
    } else if v.domain + 1 < v.domains.len() {
        (
            UpdateView {
                phase: RunPhase::AwaitZone,
                domain: v.domain + 1,
                zone: Seq::empty(),
                changes: Seq::empty(),
                next: 0,
                ..v
            },
            RunStepView::LookupZone { domain: v.domains[v.domain + 1 as int] },
        )
    } else {
        (UpdateView { phase: RunPhase::Done, ..v }, RunStepView::Finished)
    }
}

/// One step of `update`: without an address it fails with `NoIp`, without a
/// domain with `NoDomain`; then, domain by domain, it finds the zone, lists
/// the records and writes the planned changes in order; a failed request
/// ends the run with that request's error.
pub open spec fn run_next(v: UpdateView, e: RunEventView) -> (UpdateView, RunStepView) {
    match e {
        RunEventView::Begin => if v.ipv4.len() == 0 && v.ipv6.len() == 0 {
            (UpdateView { phase: RunPhase::Done, ..v }, RunStepView::Fail(Some(DynDnsError::NoIp)))
        } else if v.domains.len() == 0 {
            (
                UpdateView { phase: RunPhase::Done, ..v },
                RunStepView::Fail(Some(DynDnsError::NoDomain)),
            )
        } else {
            (
                UpdateView { phase: RunPhase::AwaitZone, domain: 0, ..v },
                RunStepView::LookupZone { domain: v.domains[0] },
            )
        },
        RunEventView::ZoneFound(z) => (
            UpdateView { phase: RunPhase::AwaitRecords, zone: z, ..v },
            RunStepView::ListRecords { zone: z, domain: v.domains[v.domain as int] },
        ),
        RunEventView::RecordsListed(rs) => run_settle(
            UpdateView { changes: plan_spec(rs, v.ipv4, v.ipv6), next: 0, ..v },
        ),
        RunEventView::WriteDone => run_settle(UpdateView { next: v.next + 1, ..v }),
        RunEventView::CallFailed => (
            UpdateView { phase: RunPhase::Done, ..v },
            RunStepView::Fail(None),
        ),
    }
}

fn type_text(t: RecordType) -> (s: String)
    ensures
        s@ == record_type_text(t),
{
    match t {
        RecordType::A => String::from_str("A"),
        RecordType::AAAA => String::from_str("AAAA"),
    }
}

impl UpdateRun {
    pub fn new(data: &ClientData) -> (s: Self)
        ensures
            s@ == update_start(data.ipv4@, data.ipv6@, views(data.domains@)),
    {
        let s = UpdateRun {
            phase: RunPhase::Begin,
            ipv4: String::from_str(data.ipv4.as_str()),
            ipv6: String::from_str(data.ipv6.as_str()),
            domains: crate::text::copy_texts(&data.domains),
            domain: 0,
            zone: String::new(),
            changes: Vec::new(),
            next: 0,
        };
        assert(changes_view(s.changes@) =~= Seq::<ChangeView>::empty());
        s
    }

    /// The phase the run is in.
    pub fn phase(&self) -> (p: RunPhase)
        ensures
            p == self@.phase,
    {
        self.phase
    }

    /// Whether the run waits for `e` now.
    pub fn accepts(&self, e: &RunEvent) -> (b: bool)
        ensures
            b == run_accepts(self@, e@),
    {
        match (self.phase, e) {
            (RunPhase::Begin, RunEvent::Begin) => true,
            (RunPhase::AwaitZone, RunEvent::ZoneFound(_)) => true,
            (RunPhase::AwaitRecords, RunEvent::RecordsListed(_)) => true,
            (RunPhase::AwaitWrite, RunEvent::WriteDone) => true,
            (RunPhase::Begin, RunEvent::CallFailed) => false,
            (RunPhase::Done, _) => false,
            (_, RunEvent::CallFailed) => true,
            _ => false,
        }
    }

    fn settle(&mut self) -> (a: RunStep)
        requires
            old(self)@.next <= old(self)@.changes.len(),
            old(self)@.domain < old(self)@.domains.len(),
        ensures
            (final(self)@, a@) == run_settle(old(self)@),
    {
        assert(self.domain < self.domains@.len());
        assert(self.next <= self.changes@.len());
        if self.next < self.changes.len() {
            self.phase = RunPhase::AwaitWrite;
            let zone = String::from_str(self.zone.as_str());
            let domain = String::from_str(self.domains[self.domain].as_str());
            match &self.changes[self.next] {
                RecordChange::Update { record_id, record_type } => RunStep::WriteRecord {
                    zone,
                    domain,
                    record_type: type_text(*record_type),
                    record_id: String::from_str(record_id.as_str()),
                },
                RecordChange::Create { record_type } => RunStep::WriteRecord {
                    zone,
                    domain,
                    record_type: type_text(*record_type),
                    record_id: String::new(),
                },
            }
        } else if self.domain < self.domains.len() - 1 {
            self.phase = RunPhase::AwaitZone;
            self.domain = self.domain + 1;
            self.zone = String::new();
            self.changes = Vec::new();
            self.next = 0;
            proof {
                assert(changes_view(self.changes@) =~= Seq::<ChangeView>::empty());
            }
            RunStep::LookupZone { domain: String::from_str(self.domains[self.domain].as_str()) }
        } else {
            self.phase = RunPhase::Done;
            RunStep::Finished
        }
    }

    /// Take the outcome `e` of the last step and say what to do next.
    pub fn step(&mut self, e: RunEvent) -> (a: RunStep)
        requires
            run_in_range(old(self)@),
            run_accepts(old(self)@, e@),
        ensures
            (final(self)@, a@) == run_next(old(self)@, e@),
            run_in_range(final(self)@),
    {
        match e {
            RunEvent::Begin => {
                if self.ipv4.as_str().unicode_len() == 0 && self.ipv6.as_str().unicode_len() == 0 {
                    self.phase = RunPhase::Done;
                    RunStep::Fail(Some(DynDnsError::NoIp))
                } else if self.domains.len() == 0 {
                    self.phase = RunPhase::Done;
                    RunStep::Fail(Some(DynDnsError::NoDomain))
                } else {
                    self.phase = RunPhase::AwaitZone;
                    self.domain = 0;
                    RunStep::LookupZone { domain: String::from_str(self.domains[0].as_str()) }
                }
            },
            RunEvent::ZoneFound(z) => {
                self.phase = RunPhase::AwaitRecords;
                let zone = String::from_str(z.as_str());
                self.zone = z;
                RunStep::ListRecords {
                    zone,
                    domain: String::from_str(self.domains[self.domain].as_str()),
                }
            },
            RunEvent::RecordsListed(rs) => {
                let plain = plain_records(rs);
                self.changes = plan_changes(&plain, self.ipv4.as_str(), self.ipv6.as_str());
                self.next = 0;
                self.settle()
            },
            RunEvent::WriteDone => {
                let total = self.changes.len();
                assert(self.next < total);
                self.next = self.next + 1;
                self.settle()
            },
            RunEvent::CallFailed => {
                self.phase = RunPhase::Done;
                RunStep::Fail(None)
            },
        }
    }
}

/// A failed request ends the run of `update`, which fails with that
/// request's error.
pub proof fn law_failed_request_ends_update(v: UpdateView)
    requires
        run_in_range(v),
        run_accepts(v, RunEventView::CallFailed),
    ensures
        run_next(v, RunEventView::CallFailed).0.phase == RunPhase::Done,
        run_next(v, RunEventView::CallFailed).1 == RunStepView::Fail(None),
{
}

/// `update` handles the domains one after the other: after the start, a
/// step either stays with the current domain or moves to the next one, and
/// it moves on only once no planned write of the current domain is left.
pub proof fn law_update_domains_in_order(v: UpdateView, e: RunEventView)
    requires
        run_in_range(v),
        run_accepts(v, e),
        !(e is Begin),
    ensures
        ({
            let w = run_next(v, e).0;
            ||| w.domain == v.domain
            ||| (w.domain == v.domain + 1 && w.phase == RunPhase::AwaitZone && match e {
                RunEventView::WriteDone => v.next + 1 == v.changes.len(),
                RunEventView::RecordsListed(rs) => plan_spec(rs, v.ipv4, v.ipv6).len() == 0,
                _ => false,
            })
        }),
{
}

/// `update` succeeds only at the last domain, once all its planned writes
/// are made.
pub proof fn law_update_finished_only_after_last_domain(v: UpdateView, e: RunEventView)
    requires
        run_in_range(v),
        run_accepts(v, e),
        run_next(v, e).1 is Finished,
    ensures
        v.domain + 1 >= v.domains.len(),
        run_next(v, e).0.next == run_next(v, e).0.changes.len(),
        run_next(v, e).0.phase == RunPhase::Done,
{
}

/// Which addresses changed in a cycle and whether the records are to be
/// sent.
#[derive(PartialEq, Eq, Structural, Clone, Copy, Debug)]
pub struct AddressUpdate {
    pub ipv4_changed: bool,
    pub ipv6_changed: bool,
    pub send: bool,
}

/// Take in the freshly fetched public addresses: a changed address replaces
/// the held one; the records are to be sent when one changed or the last
/// attempt did not succeed (`updated` is false).
pub fn absorb_addresses(data: &mut ClientData, ipv4: String, ipv6: String, updated: bool) -> (u: AddressUpdate)
    ensures
        u.ipv4_changed == (ipv4@ != old(data).ipv4@),
        u.ipv6_changed == (ipv6@ != old(data).ipv6@),
        u.send == (u.ipv4_changed || u.ipv6_changed || !updated),
        final(data).ipv4@ == ipv4@,
        final(data).ipv6@ == ipv6@,
        final(data).proxy == old(data).proxy,
        final(data).domains == old(data).domains,
{
    let ipv4_changed = ipv4 != data.ipv4;
    let ipv6_changed = ipv6 != data.ipv6;
    if ipv4_changed {
        data.ipv4 = ipv4;
    }
    if ipv6_changed {
        data.ipv6 = ipv6;
    }
    AddressUpdate { ipv4_changed, ipv6_changed, send: ipv4_changed || ipv6_changed || !updated }
}

/// Whether the last attempt to update the records succeeded, after a cycle:
/// when records were sent, whether that succeeded; otherwise as before.
pub fn updated_after(sent: bool, succeeded: bool, updated: bool) -> (u: bool)
    ensures
        u == if sent {
            succeeded
        } else {
            updated
        },
{
    if sent {
        succeeded
    } else {
        updated
    }
}

/// The steps a run of `update` gives for the events, one step per event,
/// and the state it ends in.
pub open spec fn update_feed(v: UpdateView, events: Seq<RunEventView>) -> (UpdateView, Seq<RunStepView>)
    decreases events.len(),
{
    if events.len() == 0 {
        (v, Seq::empty())
    } else {
        let (w, s) = run_next(v, events[0]);
        let (u, ss) = update_feed(w, events.drop_first());
        (u, seq![s] + ss)
    }
}

/// Each event comes when the run waits for it (and its indices are in
/// range).
pub open spec fn update_all_accepted(v: UpdateView, events: Seq<RunEventView>) -> bool
    decreases events.len(),
{
    events.len() == 0 || (run_in_range(v) && run_accepts(v, events[0]) && update_all_accepted(
        run_next(v, events[0]).0,
        events.drop_first(),
    ))
}

/// `m` reports of a write made.
pub open spec fn writes_done(m: nat) -> Seq<RunEventView>
    decreases m,
{
    if m == 0 {
        Seq::empty()
    } else {
        seq![RunEventView::WriteDone] + writes_done((m - 1) as nat)
    }
}

/// What an API that always succeeds reports for one domain: its zone, its
/// records (as the planning reads them), then each planned write made.
pub open spec fn update_domain_events(zone: Seq<char>, listing: Seq<RecordFacts>, ipv4: Seq<char>, ipv6: Seq<char>) -> Seq<RunEventView> {
    seq![RunEventView::ZoneFound(zone), RunEventView::RecordsListed(listing)] + writes_done(
        plan_spec(listing, ipv4, ipv6).len(),
    )
}

/// The reports for the domains from the `k`-th on: domain `i` lies in zone
/// `zones[i]` and has the records `listings[i]`.
pub open spec fn update_events_from(zones: Seq<Seq<char>>, listings: Seq<Seq<RecordFacts>>, ipv4: Seq<char>, ipv6: Seq<char>, k: nat) -> Seq<RunEventView>
    decreases zones.len() - k,
{
    if k >= zones.len() {
        Seq::empty()
    } else {
        update_domain_events(zones[k as int], listings[k as int], ipv4, ipv6) + update_events_from(
            zones,
            listings,
            ipv4,
            ipv6,
            k + 1,
        )
    }
}

/// The write requests for the planned changes from the `j`-th on.
pub open spec fn write_steps(zone: Seq<char>, domain: Seq<char>, cs: Seq<ChangeView>, j: nat) -> Seq<RunStepView>
    decreases cs.len() - j,
{
    if j >= cs.len() {
        Seq::empty()
    } else {
        seq![write_for(zone, domain, cs[j as int])] + write_steps(
            zone,
            domain,
            cs,
            j + 1,
        )
    }
}

/// What a successful run asks for from the `k`-th domain on: for each
/// domain in turn its zone, its records and the planned writes, in order;
/// then success.
pub open spec fn update_steps_from(domains: Seq<Seq<char>>, zones: Seq<Seq<char>>, listings: Seq<Seq<RecordFacts>>, ipv4: Seq<char>, ipv6: Seq<char>, k: nat) -> Seq<RunStepView>
    decreases domains.len() - k,
{
    if k >= domains.len() {
        seq![RunStepView::Finished]
    } else {
        seq![
            RunStepView::LookupZone { domain: domains[k as int] },
            RunStepView::ListRecords { zone: zones[k as int], domain: domains[k as int] },
        ] + write_steps(
            zones[k as int],
            domains[k as int],
            plan_spec(listings[k as int], ipv4, ipv6),
            0,
        ) + update_steps_from(domains, zones, listings, ipv4, ipv6, k + 1)
    }
}

proof fn lemma_update_feed_concat(v: UpdateView, a: Seq<RunEventView>, b: Seq<RunEventView>)
    ensures
        update_feed(v, a + b) == (update_feed(update_feed(v, a).0, b).0, update_feed(v, a).1 + update_feed(update_feed(v, a).0, b).1),
        update_all_accepted(v, a) && update_all_accepted(update_feed(v, a).0, b) ==> update_all_accepted(v, a + b),
    decreases a.len(),
{
    if a.len() == 0 {
        assert(a + b =~= b);
        assert(update_feed(v, a).1 + update_feed(update_feed(v, a).0, b).1 =~= update_feed(v, b).1);
    } else {
        let w = run_next(v, a[0]).0;
        lemma_update_feed_concat(w, a.drop_first(), b);
        assert((a + b).drop_first() =~= a.drop_first() + b);
        assert((a + b)[0] == a[0]);
        let s = run_next(v, a[0]).1;
        assert(seq![s] + (update_feed(w, a.drop_first()).1 + update_feed(update_feed(w, a.drop_first()).0, b).1) =~= (seq![s]
            + update_feed(w, a.drop_first()).1) + update_feed(update_feed(w, a.drop_first()).0, b).1);
    }
}

/// The step that ends the work on a domain.
pub open spec fn update_exit_step(v: UpdateView) -> RunStepView {
    if v.domain + 1 < v.domains.len() {
        RunStepView::LookupZone { domain: v.domains[v.domain + 1 as int] }
    } else {
        RunStepView::Finished
    }
}

/// The state after the work on a domain: waiting for the next domain's
/// zone, or done.
pub open spec fn update_after_domain(u: UpdateView, v: UpdateView) -> bool {
    &&& u.ipv4 == v.ipv4
    &&& u.ipv6 == v.ipv6
    &&& u.domains == v.domains
    &&& if v.domain + 1 < v.domains.len() {
        &&& u.phase == RunPhase::AwaitZone
        &&& u.domain == v.domain + 1
        &&& u.next == 0
        &&& u.changes.len() == 0
    } else {
        u.phase == RunPhase::Done
    }
}

proof fn lemma_writes_done(v: UpdateView, j: nat)
    requires
        v.phase == RunPhase::AwaitWrite,
        v.next == j,
        j < v.changes.len(),
        v.domain < v.domains.len(),
    ensures
        ({
            let (u, ss) = update_feed(v, writes_done((v.changes.len() - j) as nat));
            &&& ss == write_steps(v.zone, v.domains[v.domain as int], v.changes, j + 1).push(
                update_exit_step(v),
            )
            &&& update_after_domain(u, v)
            &&& update_all_accepted(v, writes_done((v.changes.len() - j) as nat))
        }),
    decreases v.changes.len() - j,
{
    let n = v.changes.len();
    let evs = writes_done((n - j) as nat);
    assert(evs[0] == RunEventView::WriteDone);
    assert(evs.drop_first() =~= writes_done((n - j - 1) as nat));
    let (w, st) = run_next(v, RunEventView::WriteDone);
    let rest = evs.drop_first();
    assert(update_feed(v, evs) == (update_feed(w, rest).0, seq![st] + update_feed(w, rest).1));
    assert(run_in_range(v));
    let z = v.zone;
    let d = v.domains[v.domain as int];
    if j + 1 < n {
        assert(w == UpdateView { phase: RunPhase::AwaitWrite, next: j + 1, ..v });
        assert(st == write_for(z, d, v.changes[j + 1 as int]));
        lemma_writes_done(w, j + 1);
        assert((w.changes.len() - (j + 1)) as nat == (n - j - 1) as nat);
        assert(update_exit_step(w) == update_exit_step(v));
        assert(write_steps(z, d, v.changes, j + 1) == seq![st] + write_steps(z, d, v.changes, j + 2));
        assert(update_feed(v, evs).1 =~= write_steps(z, d, v.changes, j + 1).push(update_exit_step(v)));
        assert(update_after_domain(update_feed(v, evs).0, v));
        assert(update_all_accepted(w, rest));
        assert(run_accepts(v, evs[0]));
        assert(update_all_accepted(v, evs));
    } else {
        assert(rest =~= Seq::<RunEventView>::empty());
        assert(st == update_exit_step(v));
        assert(write_steps(z, d, v.changes, j + 1) =~= Seq::<RunStepView>::empty());
        assert(update_feed(v, evs).1 =~= seq![update_exit_step(v)]);
        assert(update_feed(w, rest).0 == w);
        assert(update_after_domain(w, v));
        assert(update_all_accepted(w, rest));
        assert(update_all_accepted(v, evs));
    }
}

proof fn lemma_update_domain(v: UpdateView, zone: Seq<char>, listing: Seq<RecordFacts>)
    requires
        v.phase == RunPhase::AwaitZone,
        v.domain < v.domains.len(),
        run_in_range(v),
    ensures
        ({
            let cs = plan_spec(listing, v.ipv4, v.ipv6);
            let d = v.domains[v.domain as int];
            let evs = update_domain_events(zone, listing, v.ipv4, v.ipv6);
            &&& update_feed(v, evs).1 == seq![RunStepView::ListRecords { zone: zone, domain: d }]
                + write_steps(zone, d, cs, 0) + seq![update_exit_step(v)]
            &&& update_after_domain(update_feed(v, evs).0, v)
            &&& update_all_accepted(v, evs)
        }),
{
    let cs = plan_spec(listing, v.ipv4, v.ipv6);
    let n = cs.len();
    let d = v.domains[v.domain as int];
    let a = seq![RunEventView::ZoneFound(zone), RunEventView::RecordsListed(listing)];
    let b = writes_done(n);
    let evs = update_domain_events(zone, listing, v.ipv4, v.ipv6);
    assert(evs == a + b);
    lemma_update_feed_concat(v, a, b);
    let (v1, s1) = run_next(v, a[0]);
    let (v2, s2) = run_next(v1, a[1]);
    assert(s1 == RunStepView::ListRecords { zone: zone, domain: d });
    assert(a.drop_first() =~= seq![RunEventView::RecordsListed(listing)]);
    assert(a.drop_first().drop_first() =~= Seq::<RunEventView>::empty());
    assert(update_feed(v1, a.drop_first()) == (update_feed(v2, a.drop_first().drop_first()).0, seq![s2] + update_feed(
        v2,
        a.drop_first().drop_first(),
    ).1));
    assert(update_feed(v, a) == (update_feed(v1, a.drop_first()).0, seq![s1] + update_feed(v1, a.drop_first()).1));
    assert(update_feed(v, a).0 == v2);
    assert(update_feed(v, a).1 =~= seq![s1, s2]);
    assert(run_in_range(v1));
    assert(update_all_accepted(v2, a.drop_first().drop_first()));
    assert(update_all_accepted(v1, a.drop_first()));
    assert(update_all_accepted(v, a));
    if n > 0 {
        assert(v2 == UpdateView { phase: RunPhase::AwaitWrite, zone: zone, changes: cs, next: 0, ..v });
        assert(s2 == write_for(zone, d, cs[0]));
        lemma_writes_done(v2, 0);
        assert(update_exit_step(v2) == update_exit_step(v));
        assert(write_steps(zone, d, cs, 0) == seq![s2] + write_steps(zone, d, cs, 1));
        assert(update_feed(v, evs).1 =~= seq![s1] + write_steps(zone, d, cs, 0) + seq![update_exit_step(v)]);
    } else {
        assert(b =~= Seq::<RunEventView>::empty());
        assert(s2 == update_exit_step(v));
        assert(update_after_domain(v2, v));
        assert(write_steps(zone, d, cs, 0) =~= Seq::<RunStepView>::empty());
        assert(update_feed(v, evs).1 =~= seq![s1] + write_steps(zone, d, cs, 0) + seq![update_exit_step(v)]);
    }
}

proof fn lemma_update_domains_from(v: UpdateView, zones: Seq<Seq<char>>, listings: Seq<Seq<RecordFacts>>)
    requires
        v.phase == RunPhase::AwaitZone,
        v.domain < v.domains.len(),
        run_in_range(v),
        zones.len() == v.domains.len(),
        listings.len() == v.domains.len(),
    ensures
        ({
            let evs = update_events_from(zones, listings, v.ipv4, v.ipv6, v.domain);
            &&& update_feed(v, evs).1 == update_steps_from(v.domains, zones, listings, v.ipv4, v.ipv6, v.domain).drop_first()
            &&& update_feed(v, evs).0.phase == RunPhase::Done
            &&& update_all_accepted(v, evs)
        }),
    decreases v.domains.len() - v.domain,
{
    let k = v.domain;
    let first = update_domain_events(zones[k as int], listings[k as int], v.ipv4, v.ipv6);
    let later = update_events_from(zones, listings, v.ipv4, v.ipv6, k + 1);
    assert(update_events_from(zones, listings, v.ipv4, v.ipv6, k) == first + later);
    lemma_update_feed_concat(v, first, later);
    lemma_update_domain(v, zones[k as int], listings[k as int]);
    let u = update_feed(v, first).0;
    let d = v.domains[k as int];
    let cs = plan_spec(listings[k as int], v.ipv4, v.ipv6);
    let head = seq![RunStepView::ListRecords { zone: zones[k as int], domain: d }] + write_steps(
        zones[k as int],
        d,
        cs,
        0,
    );
    let all = update_steps_from(v.domains, zones, listings, v.ipv4, v.ipv6, k);
    let next_steps = update_steps_from(v.domains, zones, listings, v.ipv4, v.ipv6, k + 1);
    assert(all == seq![RunStepView::LookupZone { domain: d }, RunStepView::ListRecords { zone: zones[k as int], domain: d }]
        + write_steps(zones[k as int], d, cs, 0) + next_steps);
    assert(all.drop_first() =~= head + next_steps);
    if k + 1 < v.domains.len() {
        assert(run_in_range(u));
        lemma_update_domains_from(u, zones, listings);
        assert(next_steps[0] == update_exit_step(v));
        assert(next_steps =~= seq![update_exit_step(v)] + next_steps.drop_first());
        assert(update_feed(v, first + later).1 =~= head + next_steps);
    } else {
        assert(later =~= Seq::<RunEventView>::empty());
        assert(next_steps == seq![RunStepView::Finished]);
        assert(update_feed(u, later) == (u, Seq::<RunStepView>::empty()));
        assert(update_feed(v, first + later).1 =~= head + next_steps);
    }
}

/// The state a run of `update` starts in.
pub open spec fn update_start(ipv4: Seq<char>, ipv6: Seq<char>, domains: Seq<Seq<char>>) -> UpdateView {
    UpdateView {
        phase: RunPhase::Begin,
        ipv4,
        ipv6,
        domains,
        domain: 0,
        zone: Seq::empty(),
        changes: Seq::empty(),
        next: 0,
    }
}

/// A run of `update` in which every request succeeds, where domain `i` lies
/// in zone `zones[i]` and has the records `listings[i]`, asks for exactly
/// this: for each domain in order, its zone, its records, and one write per
/// planned change (a PUT of each out-of-date A and AAAA record, then a POST
/// of a missing A and of a missing AAAA record), and nothing else; then it
/// succeeds. So the writes for domain `i` number
/// `plan_spec(listings[i], ipv4, ipv6).len()`. Every report comes when the
/// run waits for it.
pub proof fn law_successful_update_makes_planned_writes(
    ipv4: Seq<char>,
    ipv6: Seq<char>,
    domains: Seq<Seq<char>>,
    zones: Seq<Seq<char>>,
    listings: Seq<Seq<RecordFacts>>,
)
    requires
        ipv4.len() != 0 || ipv6.len() != 0,
        domains.len() != 0,
        zones.len() == domains.len(),
        listings.len() == domains.len(),
    ensures
        ({
            let v0 = update_start(ipv4, ipv6, domains);
            let evs = seq![RunEventView::Begin] + update_events_from(zones, listings, ipv4, ipv6, 0);
            &&& update_all_accepted(v0, evs)
            &&& update_feed(v0, evs).1 == update_steps_from(domains, zones, listings, ipv4, ipv6, 0)
            &&& update_feed(v0, evs).0.phase == RunPhase::Done
        }),
{
    let v0 = update_start(ipv4, ipv6, domains);
    let a = seq![RunEventView::Begin];
    let later = update_events_from(zones, listings, ipv4, ipv6, 0);
    lemma_update_feed_concat(v0, a, later);
    let (v1, s1) = run_next(v0, RunEventView::Begin);
    assert(a.drop_first() =~= Seq::<RunEventView>::empty());
    assert(a[0] == RunEventView::Begin);
    assert(update_feed(v1, a.drop_first()) == (v1, Seq::<RunStepView>::empty()));
    assert(seq![s1] + Seq::<RunStepView>::empty() =~= seq![s1]);
    assert(update_feed(v0, a) == (v1, seq![s1]));
    assert(run_in_range(v0));
    assert(update_all_accepted(v1, a.drop_first()));
    assert(update_all_accepted(v0, a));
    assert(s1 == RunStepView::LookupZone { domain: domains[0] });
    lemma_update_domains_from(v1, zones, listings);
    let all = update_steps_from(domains, zones, listings, ipv4, ipv6, 0);
    assert(all[0] == s1);
    assert(all =~= seq![s1] + all.drop_first());
    assert(update_feed(v0, a + later).1 =~= all);
}

} // verus!
