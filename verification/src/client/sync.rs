//! Bringing the A and AAAA records of the client's domains in line with its
//! addresses: which records change, and the order of the API calls.
use vstd::prelude::*;
use vstd::string::*;

use crate::client::cloudflare::{Record, RecordType};
use crate::dyndns::{ClientData, DataError};
use crate::text::views;

verus! {

/// What the planning of changes reads of a record: its type, content and
/// id.
pub struct RecordFacts {
    pub record_type: Seq<char>,
    pub content: Seq<char>,
    pub id: Seq<char>,
}

pub open spec fn facts_of(r: Record) -> RecordFacts {
    RecordFacts { record_type: r.record_type@, content: r.content@, id: r.id@ }
}

pub open spec fn facts_seq(rs: Seq<Record>) -> Seq<RecordFacts> {
    rs.map_values(|r: Record| facts_of(r))
}

/// The kind of record that a record's type names, when it is A or AAAA.
pub open spec fn kind_of(r: RecordFacts) -> Option<RecordType> {
    if r.record_type == "A"@ {
        Some(RecordType::A)
    } else if r.record_type == "AAAA"@ {
        Some(RecordType::AAAA)
    } else {
        None
    }
}

/// The address that records of a kind hold.
pub open spec fn address_for(t: RecordType, ipv4: Seq<char>, ipv6: Seq<char>) -> Seq<char> {
    match t {
        RecordType::A => ipv4,
        RecordType::AAAA => ipv6,
    }
}

/// A record is out of date when it is an A or AAAA record, the client has
/// an address of that kind, and the record holds another one.
pub open spec fn is_stale(r: RecordFacts, ipv4: Seq<char>, ipv6: Seq<char>) -> bool {
    match kind_of(r) {
        Some(t) => address_for(t, ipv4, ipv6).len() != 0 && r.content != address_for(t, ipv4, ipv6),
        None => false,
    }
}

/// Whether some record is of kind `t`.
pub open spec fn has_kind(records: Seq<RecordFacts>, t: RecordType) -> bool {
    exists|i: int| 0 <= i < records.len() && kind_of(#[trigger] records[i]) == Some(t)
}

/// One change to the records of a domain.
#[derive(Debug)]
pub enum RecordChange {
    /// Write the client's address into the existing record `record_id`.
    Update { record_id: String, record_type: RecordType },
    /// Create a record of the type with the client's address.
    Create { record_type: RecordType },
}

/// What a change stands for.
pub enum ChangeView {
    Update { record_id: Seq<char>, record_type: RecordType },
    Create { record_type: RecordType },
}

impl View for RecordChange {
    type V = ChangeView;

    open spec fn view(&self) -> ChangeView {
        match self {
            RecordChange::Update { record_id, record_type } => ChangeView::Update {
                record_id: record_id@,
                record_type: *record_type,
            },
            RecordChange::Create { record_type } => ChangeView::Create { record_type: *record_type },
        }
    }
}

pub open spec fn changes_view(changes: Seq<RecordChange>) -> Seq<ChangeView> {
    changes.map_values(|c: RecordChange| c@)
}

/// The updates of the out-of-date records, in the order of the records.
pub open spec fn stale_updates(records: Seq<RecordFacts>, ipv4: Seq<char>, ipv6: Seq<char>) -> Seq<
    ChangeView,
>
    decreases records.len(),
{
    if records.len() == 0 {
        Seq::empty()
    } else {
        let r = records.last();
        let before = stale_updates(records.drop_last(), ipv4, ipv6);
        if is_stale(r, ipv4, ipv6) {
            before.push(ChangeView::Update { record_id: r.id, record_type: kind_of(r)->0 })
        } else {
            before
        }
    }
}

/// The creation of a record of kind `t`, when the client has an address of
/// that kind and no record of the kind exists.
pub open spec fn missing_record(records: Seq<RecordFacts>, t: RecordType, ipv4: Seq<char>, ipv6: Seq<char>) -> Seq<ChangeView> {
    if address_for(t, ipv4, ipv6).len() != 0 && !has_kind(records, t) {
        seq![ChangeView::Create { record_type: t }]
    } else {
        Seq::empty()
    }
}

/// The changes that bring a domain's records in line with the addresses:
/// first the updates of the out-of-date records, in their order, then the
/// creation of a missing A record, then of a missing AAAA record.
pub open spec fn plan_spec(records: Seq<RecordFacts>, ipv4: Seq<char>, ipv6: Seq<char>) -> Seq<ChangeView> {
    stale_updates(records, ipv4, ipv6) + missing_record(records, RecordType::A, ipv4, ipv6)
        + missing_record(records, RecordType::AAAA, ipv4, ipv6)
}

fn kind_of_record(r: &Record) -> (k: Option<RecordType>)
    ensures
        k == kind_of(facts_of(*r)),
{
    let t = String::from_str(r.record_type.as_str());
    if t == String::from_str("A") {
        Some(RecordType::A)
    } else if t == String::from_str("AAAA") {
        Some(RecordType::AAAA)
    } else {
        None
    }
}

/// The changes to make to a domain's `records` so that they hold the
/// client's addresses.
pub fn plan_changes(records: &Vec<Record>, ipv4: &str, ipv6: &str) -> (changes: Vec<RecordChange>)
    ensures
        changes_view(changes@) == plan_spec(facts_seq(records@), ipv4@, ipv6@),
{
    let ghost fs = facts_seq(records@);
    let has4 = ipv4.unicode_len() != 0;
    let has6 = ipv6.unicode_len() != 0;
    let want4 = String::from_str(ipv4);
    let want6 = String::from_str(ipv6);
    let mut changes: Vec<RecordChange> = Vec::new();
    let mut seen_a = false;
    let mut seen_aaaa = false;
    let mut i: usize = 0;
    assert(fs.take(0) =~= Seq::<RecordFacts>::empty());
    while i < records.len()
        invariant
            i <= records.len(),
            has4 == (ipv4@.len() != 0),
            has6 == (ipv6@.len() != 0),
            want4@ == ipv4@,
            want6@ == ipv6@,
            fs == facts_seq(records@),
            changes_view(changes@) == stale_updates(fs.take(i as int), ipv4@, ipv6@),
            seen_a == has_kind(fs.take(i as int), RecordType::A),
            seen_aaaa == has_kind(fs.take(i as int), RecordType::AAAA),
        decreases records.len() - i,
    {
        let r = &records[i];
        let ghost pre = fs.take(i as int);
        let ghost cur = fs.take(i + 1);
        assert(cur.drop_last() =~= pre);
        assert(cur.last() == facts_of(*r));
        let k = kind_of_record(r);
        let ghost before = changes@;
        match k {
            Some(RecordType::A) => {
                if !has4 {
                } else if r.content == want4 {
                } else {
                    changes.push(RecordChange::Update { record_id: r.id.clone(), record_type: RecordType::A });
                    assert(changes_view(changes@) =~= changes_view(before).push(changes@.last()@));
                }
                seen_a = true;
                assert(kind_of(cur[i as int]) == Some(RecordType::A));
            },
            Some(RecordType::AAAA) => {
                if !has6 {
                } else if r.content == want6 {
                } else {
                    changes.push(RecordChange::Update { record_id: r.id.clone(), record_type: RecordType::AAAA });
                    assert(changes_view(changes@) =~= changes_view(before).push(changes@.last()@));
                }
                seen_aaaa = true;
                assert(kind_of(cur[i as int]) == Some(RecordType::AAAA));
            },
            None => {},
        }
        assert(seen_a == has_kind(cur, RecordType::A)) by {
            if has_kind(cur, RecordType::A) && !has_kind(pre, RecordType::A) {
                let j = choose|j: int| 0 <= j < cur.len() && kind_of(#[trigger] cur[j]) == Some(RecordType::A);
                assert(j == i);
            }
            if has_kind(pre, RecordType::A) {
                let j = choose|j: int| 0 <= j < pre.len() && kind_of(#[trigger] pre[j]) == Some(RecordType::A);
                assert(cur[j] == pre[j]);
            }
        }
        assert(seen_aaaa == has_kind(cur, RecordType::AAAA)) by {
            if has_kind(cur, RecordType::AAAA) && !has_kind(pre, RecordType::AAAA) {
                let j = choose|j: int| 0 <= j < cur.len() && kind_of(#[trigger] cur[j]) == Some(RecordType::AAAA);
                assert(j == i);
            }
            if has_kind(pre, RecordType::AAAA) {
                let j = choose|j: int| 0 <= j < pre.len() && kind_of(#[trigger] pre[j]) == Some(RecordType::AAAA);
                assert(cur[j] == pre[j]);
            }
        }
        i = i + 1;
    }
    assert(fs.take(records.len() as int) =~= fs);
    let ghost updates = changes@;
    if has4 && !seen_a {
        changes.push(RecordChange::Create { record_type: RecordType::A });
    }
    let ghost with_a = changes@;
    if has6 && !seen_aaaa {
        changes.push(RecordChange::Create { record_type: RecordType::AAAA });
    }
    assert(changes_view(changes@) =~= plan_spec(fs, ipv4@, ipv6@)) by {
        assert(changes_view(with_a) =~= stale_updates(fs, ipv4@, ipv6@) + missing_record(
            fs,
            RecordType::A,
            ipv4@,
            ipv6@,
        ));
    }
    changes
}

} // verus!

verus! {

/// Where a run of updates stands.
#[derive(PartialEq, Eq, Structural, Clone, Copy, Debug)]
pub enum SyncPhase {
    /// Nothing happened yet.
    Begin,
    /// Waiting for the zone of the current domain.
    AwaitZone,
    /// Waiting for the records of the current domain.
    AwaitRecords,
    /// Waiting for the outcome of the current change.
    AwaitChange,
    /// The run is over.
    Done,
}

/// The progress of one run that brings the records of all the client's
/// domains in line with its addresses. The caller performs the API calls
/// that the steps ask for and reports their outcome.
pub struct SyncState {
    phase: SyncPhase,
    ipv4: String,
    ipv6: String,
    domains: Vec<String>,
    domain: usize,
    zone_id: String,
    changes: Vec<RecordChange>,
    next: usize,
}

/// What a run's progress stands for.
pub struct SyncView {
    pub phase: SyncPhase,
    pub ipv4: Seq<char>,
    pub ipv6: Seq<char>,
    pub domains: Seq<Seq<char>>,
    /// Index of the domain being handled.
    pub domain: nat,
    /// Zone of the domain being handled.
    pub zone_id: Seq<char>,
    /// Changes planned for the domain being handled.
    pub changes: Seq<ChangeView>,
    /// Index of the next change to make.
    pub next: nat,
}

impl View for SyncState {
    type V = SyncView;

    closed spec fn view(&self) -> SyncView {
        SyncView {
            phase: self.phase,
            ipv4: self.ipv4@,
            ipv6: self.ipv6@,
            domains: views(self.domains@),
            domain: self.domain as nat,
            zone_id: self.zone_id@,
            changes: changes_view(self.changes@),
            next: self.next as nat,
        }
    }
}

/// What the caller reports back.
pub enum SyncEvent {
    /// Start the run.
    Begin,
    /// The zone of the current domain was found.
    ZoneFound(String),
    /// The records of the current domain were listed.
    RecordsListed(Vec<Record>),
    /// The current change was made.
    ChangeDone,
    /// The call asked for failed.
    CallFailed,
}

pub enum EventView {
    Begin,
    ZoneFound(Seq<char>),
    RecordsListed(Seq<Record>),
    ChangeDone,
    CallFailed,
}

impl View for SyncEvent {
    type V = EventView;

    open spec fn view(&self) -> EventView {
        match self {
            SyncEvent::Begin => EventView::Begin,
            SyncEvent::ZoneFound(z) => EventView::ZoneFound(z@),
            SyncEvent::RecordsListed(rs) => EventView::RecordsListed(rs@),
            SyncEvent::ChangeDone => EventView::ChangeDone,
            SyncEvent::CallFailed => EventView::CallFailed,
        }
    }
}

/// What the caller is asked to do next.
pub enum SyncStep {
    /// Find the zone that `domain` belongs to.
    LookupZone { domain: String },
    /// List the records of `domain` in the zone.
    ListRecords { zone_id: String, domain: String },
    /// Make `change` to the records of `domain` in the zone.
    Change { zone_id: String, domain: String, change: RecordChange },
    /// All records are in line: the run succeeded.
    Finished,
    /// The run failed: with `cause` when the client's data was refused,
    /// otherwise because of the failed call; `context` says what failed.
    Fail { cause: Option<DataError>, context: String },
}

pub enum StepView {
    LookupZone { domain: Seq<char> },
    ListRecords { zone_id: Seq<char>, domain: Seq<char> },
    Change { zone_id: Seq<char>, domain: Seq<char>, change: ChangeView },
    Finished,
    Fail { cause: Option<Seq<char>>, context: Seq<char> },
}

impl View for SyncStep {
    type V = StepView;

    open spec fn view(&self) -> StepView {
        match self {
            SyncStep::LookupZone { domain } => StepView::LookupZone { domain: domain@ },
            SyncStep::ListRecords { zone_id, domain } => StepView::ListRecords {
                zone_id: zone_id@,
                domain: domain@,
            },
            SyncStep::Change { zone_id, domain, change } => StepView::Change {
                zone_id: zone_id@,
                domain: domain@,
                change: change@,
            },
            SyncStep::Finished => StepView::Finished,
            SyncStep::Fail { cause, context } => StepView::Fail {
                cause: match cause {
                    Some(e) => Some(e.message_spec()),
                    None => None,
                },
                context: context@,
            },
        }
    }
}

pub open spec fn quoted(prefix: Seq<char>, domain: Seq<char>) -> Seq<char> {
    prefix + domain + "'"@
}

/// What a failed call is reported as, by the phase it failed in.
pub open spec fn failure_context(v: SyncView) -> Seq<char> {
    let d = v.domains[v.domain as int];
    match v.phase {
        SyncPhase::AwaitZone => quoted("Failed to get zone for '"@, d),
        SyncPhase::AwaitRecords => quoted("Failed to list dns records for '"@, d),
        SyncPhase::AwaitChange => match v.changes[v.next as int] {
            ChangeView::Update { record_type: RecordType::A, .. } => quoted(
                "Failed to update A record for '"@,
                d,
            ),
            ChangeView::Update { record_type: RecordType::AAAA, .. } => quoted(
                "Failed to update AAAA record for '"@,
                d,
            ),
            ChangeView::Create { record_type: RecordType::A } => quoted(
                "Failed to create A record for '"@,
                d,
            ),
            ChangeView::Create { record_type: RecordType::AAAA } => quoted(
                "Failed to create AAAA record for '"@,
                d,
            ),
        },
        _ => Seq::empty(),
    }
}

/// Which events a phase waits for.
pub open spec fn accepts(v: SyncView, e: EventView) -> bool {
    match v.phase {
        SyncPhase::Begin => e is Begin,
        SyncPhase::AwaitZone => e is ZoneFound || e is CallFailed,
        SyncPhase::AwaitRecords => e is RecordsListed || e is CallFailed,
        SyncPhase::AwaitChange => e is ChangeDone || e is CallFailed,
        SyncPhase::Done => false,
    }
}

/// The indices a phase relies on are in range.
pub open spec fn in_range(v: SyncView) -> bool {
    &&& v.next <= v.changes.len()
    &&& (v.phase == SyncPhase::AwaitZone || v.phase == SyncPhase::AwaitRecords || v.phase
        == SyncPhase::AwaitChange) ==> v.domain < v.domains.len()
    &&& v.phase == SyncPhase::AwaitChange ==> v.next < v.changes.len()
}

/// Move on after a change of the current domain: make the next change, or
/// go to the next domain, or finish after the last one.
pub open spec fn settle(v: SyncView) -> (SyncView, StepView) {
    if v.next < v.changes.len() {
        (
            SyncView { phase: SyncPhase::AwaitChange, ..v },
            StepView::Change {
                zone_id: v.zone_id,
                domain: v.domains[v.domain as int],
                change: v.changes[v.next as int],
            },
        )
    } else if v.domain + 1 < v.domains.len() {
        (
            SyncView {
                phase: SyncPhase::AwaitZone,
                domain: v.domain + 1,
                zone_id: Seq::empty(),
                changes: Seq::empty(),
                next: 0,
                ..v
            },
            StepView::LookupZone { domain: v.domains[v.domain + 1 as int] },
        )
    } else {
        (SyncView { phase: SyncPhase::Done, ..v }, StepView::Finished)
    }
}

/// One step of a run.
pub open spec fn sync_next(v: SyncView, e: EventView) -> (SyncView, StepView) {
    match e {
        EventView::Begin => if v.ipv4.len() == 0 && v.ipv6.len() == 0 {
            (
                SyncView { phase: SyncPhase::Done, ..v },
                StepView::Fail {
                    cause: Some(crate::dyndns::no_address_message()),
                    context: "Invalid client data"@,
                },
            )
        } else if v.domains.len() == 0 {
            (
                SyncView { phase: SyncPhase::Done, ..v },
                StepView::Fail {
                    cause: Some(crate::dyndns::no_domain_message()),
                    context: "Invalid client data"@,
                },
            )
        } else {
            (
                SyncView { phase: SyncPhase::AwaitZone, domain: 0, ..v },
                StepView::LookupZone { domain: v.domains[0] },
            )
        },
        EventView::ZoneFound(z) => (
            SyncView { phase: SyncPhase::AwaitRecords, zone_id: z, ..v },
            StepView::ListRecords { zone_id: z, domain: v.domains[v.domain as int] },
        ),
        EventView::RecordsListed(rs) => settle(
            SyncView { changes: plan_spec(facts_seq(rs), v.ipv4, v.ipv6), next: 0, ..v },
        ),
        EventView::ChangeDone => settle(SyncView { next: v.next + 1, ..v }),
        EventView::CallFailed => (
            SyncView { phase: SyncPhase::Done, ..v },
            StepView::Fail { cause: None, context: failure_context(v) },
        ),
    }
}

fn quote(prefix: &str, domain: &str) -> (m: String)
    ensures
        m@ == quoted(prefix@, domain@),
{
    let mut m = String::from_str(prefix);
    m.append(domain);
    m.append("'");
    m
}

impl SyncState {
    /// A run for the client's current data.
    pub fn new(data: &ClientData) -> (s: Self)
        ensures
            s@ == run_start(data.ipv4_view(), data.ipv6_view(), data.domains_view()),
    {
        let s = SyncState {
            phase: SyncPhase::Begin,
            ipv4: String::from_str(data.ipv4()),
            ipv6: String::from_str(data.ipv6()),
            domains: crate::text::copy_texts(data.domain_list()),
            domain: 0,
            zone_id: String::new(),
            changes: Vec::new(),
            next: 0,
        };
        assert(changes_view(s.changes@) =~= Seq::<ChangeView>::empty());
        s
    }

    /// The phase the run is in.
    pub fn phase(&self) -> (p: SyncPhase)
        ensures
            p == self@.phase,
    {
        self.phase
    }

    /// Whether the run waits for `e` now.
    pub fn accepts(&self, e: &SyncEvent) -> (b: bool)
        ensures
            b == accepts(self@, e@),
    {
        match (self.phase, e) {
            (SyncPhase::Begin, SyncEvent::Begin) => true,
            (SyncPhase::AwaitZone, SyncEvent::ZoneFound(_)) => true,
            (SyncPhase::AwaitRecords, SyncEvent::RecordsListed(_)) => true,
            (SyncPhase::AwaitChange, SyncEvent::ChangeDone) => true,
            (SyncPhase::Begin, SyncEvent::CallFailed) => false,
            (SyncPhase::Done, _) => false,
            (_, SyncEvent::CallFailed) => true,
            _ => false,
        }
    }

    fn step_after_change(&mut self) -> (a: SyncStep)
        requires
            old(self)@.next <= old(self)@.changes.len(),
            old(self)@.domain < old(self)@.domains.len(),
        ensures
            (final(self)@, a@) == settle(old(self)@),
    {
        assert(self.domain < self.domains@.len());
        assert(self.next <= self.changes@.len());
        if self.next < self.changes.len() {
            self.phase = SyncPhase::AwaitChange;
            let change = match &self.changes[self.next] {
                RecordChange::Update { record_id, record_type } => RecordChange::Update {
                    record_id: String::from_str(record_id.as_str()),
                    record_type: *record_type,
                },
                RecordChange::Create { record_type } => RecordChange::Create {
                    record_type: *record_type,
                },
            };
            SyncStep::Change {
                zone_id: String::from_str(self.zone_id.as_str()),
                domain: String::from_str(self.domains[self.domain].as_str()),
                change,
            }
        } else if self.domain < self.domains.len() - 1 {
            self.phase = SyncPhase::AwaitZone;
            self.domain = self.domain + 1;
            self.zone_id = String::new();
            self.changes = Vec::new();
            self.next = 0;
            proof {
                assert(changes_view(self.changes@) =~= Seq::<ChangeView>::empty());
            }
            SyncStep::LookupZone { domain: String::from_str(self.domains[self.domain].as_str()) }
        } else {
            self.phase = SyncPhase::Done;
            SyncStep::Finished
        }
    }

    /// Take the outcome `e` of the last step and say what to do next.
    pub fn step(&mut self, e: SyncEvent) -> (a: SyncStep)
        requires
            in_range(old(self)@),
            accepts(old(self)@, e@),
        ensures
            (final(self)@, a@) == sync_next(old(self)@, e@),
            in_range(final(self)@),
    {
        match e {
            SyncEvent::Begin => {
                if self.ipv4.as_str().unicode_len() == 0 && self.ipv6.as_str().unicode_len() == 0 {
                    self.phase = SyncPhase::Done;
                    SyncStep::Fail {
                        cause: Some(DataError::NoAddress),
                        context: String::from_str("Invalid client data"),
                    }
                } else if self.domains.len() == 0 {
                    self.phase = SyncPhase::Done;
                    SyncStep::Fail {
                        cause: Some(DataError::NoDomain),
                        context: String::from_str("Invalid client data"),
                    }
                } else {
                    self.phase = SyncPhase::AwaitZone;
                    self.domain = 0;
                    SyncStep::LookupZone { domain: String::from_str(self.domains[0].as_str()) }
                }
            },
            SyncEvent::ZoneFound(z) => {
                self.phase = SyncPhase::AwaitRecords;
                let zone = String::from_str(z.as_str());
                self.zone_id = z;
                SyncStep::ListRecords {
                    zone_id: zone,
                    domain: String::from_str(self.domains[self.domain].as_str()),
                }
            },
            SyncEvent::RecordsListed(rs) => {
                self.changes = plan_changes(&rs, self.ipv4.as_str(), self.ipv6.as_str());
                self.next = 0;
                self.step_after_change()
            },
            SyncEvent::ChangeDone => {
                assert(self.next < self.changes@.len());
                let total = self.changes.len();
                assert(self.next < total);
                self.next = self.next + 1;
                self.step_after_change()
            },
            SyncEvent::CallFailed => {
                let d = self.domains[self.domain].as_str();
                let context = match self.phase {
                    SyncPhase::AwaitZone => quote("Failed to get zone for '", d),
                    SyncPhase::AwaitRecords => quote("Failed to list dns records for '", d),
                    _ => match &self.changes[self.next] {
                        RecordChange::Update { record_type: RecordType::A, .. } => quote(
                            "Failed to update A record for '",
                            d,
                        ),
                        RecordChange::Update { record_type: RecordType::AAAA, .. } => quote(
                            "Failed to update AAAA record for '",
                            d,
                        ),
                        RecordChange::Create { record_type: RecordType::A } => quote(
                            "Failed to create A record for '",
                            d,
                        ),
                        RecordChange::Create { record_type: RecordType::AAAA } => quote(
                            "Failed to create AAAA record for '",
                            d,
                        ),
                    },
                };
                self.phase = SyncPhase::Done;
                SyncStep::Fail { cause: None, context }
            },
        }
    }
}

} // verus!

verus! {

/// The records of a domain are in line with the addresses: none is out of
/// date, and there is a record of each kind for which the client has an
/// address.
pub open spec fn in_sync(records: Seq<RecordFacts>, ipv4: Seq<char>, ipv6: Seq<char>) -> bool {
    &&& forall|i: int| 0 <= i < records.len() ==> !is_stale(#[trigger] records[i], ipv4, ipv6)
    &&& ipv4.len() != 0 ==> has_kind(records, RecordType::A)
    &&& ipv6.len() != 0 ==> has_kind(records, RecordType::AAAA)
}

proof fn lemma_no_stale_updates(records: Seq<RecordFacts>, ipv4: Seq<char>, ipv6: Seq<char>)
    ensures
        stale_updates(records, ipv4, ipv6).len() == 0 <==> forall|i: int|
            0 <= i < records.len() ==> !is_stale(#[trigger] records[i], ipv4, ipv6),
    decreases records.len(),
{
    if records.len() > 0 {
        let init = records.drop_last();
        lemma_no_stale_updates(init, ipv4, ipv6);
        if forall|i: int| 0 <= i < records.len() ==> !is_stale(#[trigger] records[i], ipv4, ipv6) {
            assert forall|i: int| 0 <= i < init.len() implies !is_stale(#[trigger] init[i], ipv4, ipv6) by {
                assert(init[i] == records[i]);
            }
            assert(!is_stale(records[records.len() - 1], ipv4, ipv6));
        }
        if stale_updates(records, ipv4, ipv6).len() == 0 {
            assert forall|i: int| 0 <= i < records.len() implies !is_stale(#[trigger] records[i], ipv4, ipv6) by {
                if i < records.len() - 1 {
                    assert(init[i] == records[i]);
                }
            }
        }
    }
}

/// The plan for a domain is empty exactly when its records are already in
/// line with the addresses: the client makes no call for a domain that is
/// up to date, and leaves none behind that is not.
pub proof fn law_plan_empty_iff_in_sync(records: Seq<RecordFacts>, ipv4: Seq<char>, ipv6: Seq<char>)
    ensures
        plan_spec(records, ipv4, ipv6).len() == 0 <==> in_sync(records, ipv4, ipv6),
{
    lemma_no_stale_updates(records, ipv4, ipv6);
}

/// Every planned change concerns a kind of record for which the client has
/// an address: with only an IPv4 address, AAAA records are never touched,
/// and the other way round.
pub proof fn law_plan_only_touches_known_addresses(
    records: Seq<RecordFacts>,
    ipv4: Seq<char>,
    ipv6: Seq<char>,
    i: int,
)
    requires
        0 <= i < plan_spec(records, ipv4, ipv6).len(),
    ensures
        match plan_spec(records, ipv4, ipv6)[i] {
            ChangeView::Update { record_type, .. } => address_for(record_type, ipv4, ipv6).len() != 0,
            ChangeView::Create { record_type } => address_for(record_type, ipv4, ipv6).len() != 0,
        },
{
    lemma_updates_have_addresses(records, ipv4, ipv6);
    let u = stale_updates(records, ipv4, ipv6);
    if i < u.len() {
        assert(plan_spec(records, ipv4, ipv6)[i] == u[i]);
    }
}

proof fn lemma_updates_have_addresses(records: Seq<RecordFacts>, ipv4: Seq<char>, ipv6: Seq<char>)
    ensures
        forall|i: int|
            0 <= i < stale_updates(records, ipv4, ipv6).len() ==> (#[trigger] stale_updates(
                records,
                ipv4,
                ipv6,
            )[i] matches ChangeView::Update { record_type, .. } && address_for(record_type, ipv4, ipv6).len() != 0),
    decreases records.len(),
{
    if records.len() > 0 {
        lemma_updates_have_addresses(records.drop_last(), ipv4, ipv6);
    }
}

/// A record of a kind is created exactly when the client has an address of
/// that kind and the domain has no record of it.
pub proof fn law_plan_creates_missing_records(records: Seq<RecordFacts>, ipv4: Seq<char>, ipv6: Seq<char>, t: RecordType)
    ensures
        plan_spec(records, ipv4, ipv6).contains(ChangeView::Create { record_type: t }) <==> (
        address_for(t, ipv4, ipv6).len() != 0 && !has_kind(records, t)),
{
    lemma_updates_have_addresses(records, ipv4, ipv6);
    let u = stale_updates(records, ipv4, ipv6);
    let p = plan_spec(records, ipv4, ipv6);
    let c = ChangeView::Create { record_type: t };
    if p.contains(c) {
        let j = choose|j: int| 0 <= j < p.len() && p[j] == c;
        if j < u.len() {
            assert(p[j] == u[j]);
            assert(false);
        }
    }
    if address_for(t, ipv4, ipv6).len() != 0 && !has_kind(records, t) {
        match t {
            RecordType::A => {
                assert(p[u.len() as int] == c);
            },
            RecordType::AAAA => {
                let a = missing_record(records, RecordType::A, ipv4, ipv6);
                assert(p[(u.len() + a.len()) as int] == c);
            },
        }
    }
}

} // verus!

verus! {

/// A record holding the client's address of its kind.
pub open spec fn set_address(r: RecordFacts, ipv4: Seq<char>, ipv6: Seq<char>) -> RecordFacts {
    RecordFacts { content: address_for(kind_of(r)->0, ipv4, ipv6), ..r }
}

/// An update is aimed at the records with its id and kind.
pub open spec fn targets(c: ChangeView, r: RecordFacts) -> bool {
    c matches ChangeView::Update { record_id, record_type } && r.id == record_id && kind_of(r) == Some(
        record_type,
    )
}

pub open spec fn type_text(t: RecordType) -> Seq<char> {
    match t {
        RecordType::A => "A"@,
        RecordType::AAAA => "AAAA"@,
    }
}

/// The record a creation adds (its id is the API's to choose).
pub open spec fn created_record(t: RecordType, ipv4: Seq<char>, ipv6: Seq<char>) -> RecordFacts {
    RecordFacts { record_type: type_text(t), content: address_for(t, ipv4, ipv6), id: Seq::empty() }
}

proof fn lemma_created_kind(t: RecordType, ipv4: Seq<char>, ipv6: Seq<char>)
    ensures
        kind_of(created_record(t, ipv4, ipv6)) == Some(t),
        !is_stale(created_record(t, ipv4, ipv6), ipv4, ipv6),
{
    reveal_strlit("A");
    reveal_strlit("AAAA");
    assert("A"@.len() != "AAAA"@.len());
}

/// The records of a domain after the API made a change.
pub open spec fn apply_change(records: Seq<RecordFacts>, c: ChangeView, ipv4: Seq<char>, ipv6: Seq<char>) -> Seq<RecordFacts> {
    match c {
        ChangeView::Update { .. } => records.map_values(
            |r: RecordFacts| if targets(c, r) { set_address(r, ipv4, ipv6) } else { r },
        ),
        ChangeView::Create { record_type } => records.push(created_record(record_type, ipv4, ipv6)),
    }
}

/// The records of a domain after the API made the changes, in order.
pub open spec fn apply_changes(records: Seq<RecordFacts>, cs: Seq<ChangeView>, ipv4: Seq<char>, ipv6: Seq<char>) -> Seq<RecordFacts>
    decreases cs.len(),
{
    if cs.len() == 0 {
        records
    } else {
        apply_change(apply_changes(records, cs.drop_last(), ipv4, ipv6), cs.last(), ipv4, ipv6)
    }
}

proof fn lemma_apply_updates(records: Seq<RecordFacts>, us: Seq<ChangeView>, ipv4: Seq<char>, ipv6: Seq<char>)
    requires
        forall|j: int| 0 <= j < us.len() ==> (#[trigger] us[j]) is Update,
    ensures
        apply_changes(records, us, ipv4, ipv6).len() == records.len(),
        forall|i: int|
            0 <= i < records.len() ==> #[trigger] apply_changes(records, us, ipv4, ipv6)[i] == (if exists|j: int|
                0 <= j < us.len() && targets(#[trigger] us[j], records[i]) {
                set_address(records[i], ipv4, ipv6)
            } else {
                records[i]
            }),
    decreases us.len(),
{
    if us.len() > 0 {
        let init = us.drop_last();
        let u = us.last();
        assert forall|j: int| 0 <= j < init.len() implies (#[trigger] init[j]) is Update by {
            assert(init[j] == us[j]);
        }
        lemma_apply_updates(records, init, ipv4, ipv6);
        assert(us[us.len() - 1] is Update);
        let p = apply_changes(records, init, ipv4, ipv6);
        assert forall|i: int| 0 <= i < records.len() implies #[trigger] apply_changes(records, us, ipv4, ipv6)[i]
            == (if exists|j: int| 0 <= j < us.len() && targets(#[trigger] us[j], records[i]) {
            set_address(records[i], ipv4, ipv6)
        } else {
            records[i]
        }) by {
            let r = records[i];
            assert(targets(u, p[i]) == targets(u, r));
            if exists|j: int| 0 <= j < init.len() && targets(#[trigger] init[j], r) {
                let j = choose|j: int| 0 <= j < init.len() && targets(#[trigger] init[j], r);
                assert(us[j] == init[j]);
            }
            if exists|j: int| 0 <= j < us.len() && targets(#[trigger] us[j], r) {
                let j = choose|j: int| 0 <= j < us.len() && targets(#[trigger] us[j], r);
                if j < init.len() {
                    assert(init[j] == us[j]);
                } else {
                    assert(us[j] == u);
                }
            }
            if targets(u, r) {
                assert(us[us.len() - 1] == u);
            }
        }
    }
}

proof fn lemma_stale_has_update(records: Seq<RecordFacts>, ipv4: Seq<char>, ipv6: Seq<char>, i: int)
    requires
        0 <= i < records.len(),
        is_stale(records[i], ipv4, ipv6),
    ensures
        exists|j: int|
            0 <= j < stale_updates(records, ipv4, ipv6).len() && targets(
                #[trigger] stale_updates(records, ipv4, ipv6)[j],
                records[i],
            ),
    decreases records.len(),
{
    let init = records.drop_last();
    let u = stale_updates(records, ipv4, ipv6);
    if i == records.len() - 1 {
        assert(targets(u[u.len() - 1], records[i]));
    } else {
        assert(init[i] == records[i]);
        lemma_stale_has_update(init, ipv4, ipv6, i);
        let v = stale_updates(init, ipv4, ipv6);
        let j = choose|j: int| 0 <= j < v.len() && targets(#[trigger] v[j], init[i]);
        assert(u[j] == v[j]);
    }
}

proof fn lemma_apply_concat(records: Seq<RecordFacts>, xs: Seq<ChangeView>, ys: Seq<ChangeView>, ipv4: Seq<char>, ipv6: Seq<char>)
    ensures
        apply_changes(records, xs + ys, ipv4, ipv6) == apply_changes(
            apply_changes(records, xs, ipv4, ipv6),
            ys,
            ipv4,
            ipv6,
        ),
    decreases ys.len(),
{
    if ys.len() == 0 {
        assert(xs + ys =~= xs);
    } else {
        lemma_apply_concat(records, xs, ys.drop_last(), ipv4, ipv6);
        assert((xs + ys).drop_last() =~= xs + ys.drop_last());
        assert((xs + ys).last() == ys.last());
    }
}

/// Making the planned changes brings the records in line: afterwards none
/// is out of date and each kind for which the client has an address has a
/// record. This is what `send_update` achieves for each domain when every
/// call succeeds.
pub proof fn law_plan_brings_records_in_sync(records: Seq<RecordFacts>, ipv4: Seq<char>, ipv6: Seq<char>)
    ensures
        in_sync(apply_changes(records, plan_spec(records, ipv4, ipv6), ipv4, ipv6), ipv4, ipv6),
{
    let us = stale_updates(records, ipv4, ipv6);
    let ma = missing_record(records, RecordType::A, ipv4, ipv6);
    let m6 = missing_record(records, RecordType::AAAA, ipv4, ipv6);
    lemma_updates_have_addresses(records, ipv4, ipv6);
    assert forall|j: int| 0 <= j < us.len() implies (#[trigger] us[j]) is Update by {}
    lemma_apply_updates(records, us, ipv4, ipv6);
    let r1 = apply_changes(records, us, ipv4, ipv6);
    lemma_apply_concat(records, us + ma, m6, ipv4, ipv6);
    lemma_apply_concat(records, us, ma, ipv4, ipv6);
    let r2 = apply_changes(r1, ma, ipv4, ipv6);
    let r3 = apply_changes(r2, m6, ipv4, ipv6);
    assert(plan_spec(records, ipv4, ipv6) == us + ma + m6);
    // r2 and r3 extend r1
    assert(ma.len() == 0 ==> r2 == r1);
    assert(ma.len() == 1 ==> r2 == r1.push(created_record(RecordType::A, ipv4, ipv6))) by {
        if ma.len() == 1 {
            assert(ma.drop_last() =~= Seq::<ChangeView>::empty());
            assert(apply_changes(r1, ma.drop_last(), ipv4, ipv6) == r1);
            assert(ma.last() == ChangeView::Create { record_type: RecordType::A });
            assert(r2 == apply_change(r1, ma.last(), ipv4, ipv6));
        }
    }
    assert(m6.len() == 0 ==> r3 == r2);
    assert(m6.len() == 1 ==> r3 == r2.push(created_record(RecordType::AAAA, ipv4, ipv6))) by {
        if m6.len() == 1 {
            assert(m6.drop_last() =~= Seq::<ChangeView>::empty());
            assert(apply_changes(r2, m6.drop_last(), ipv4, ipv6) == r2);
            assert(m6.last() == ChangeView::Create { record_type: RecordType::AAAA });
            assert(r3 == apply_change(r2, m6.last(), ipv4, ipv6));
        }
    }
    assert forall|i: int| 0 <= i < r3.len() implies !is_stale(#[trigger] r3[i], ipv4, ipv6) by {
        if i < records.len() {
            assert(r3[i] == r1[i]);
            if exists|j: int| 0 <= j < us.len() && targets(#[trigger] us[j], records[i]) {
                let j = choose|j: int| 0 <= j < us.len() && targets(#[trigger] us[j], records[i]);
                assert(kind_of(records[i]) is Some);
            } else {
                if is_stale(records[i], ipv4, ipv6) {
                    lemma_stale_has_update(records, ipv4, ipv6, i);
                }
            }
        } else if i < r2.len() {
            assert(r3[i] == r2[i]);
            assert(r2[i] == created_record(RecordType::A, ipv4, ipv6));
            lemma_created_kind(RecordType::A, ipv4, ipv6);
        } else {
            assert(r3[i] == created_record(RecordType::AAAA, ipv4, ipv6));
            lemma_created_kind(RecordType::AAAA, ipv4, ipv6);
        }
    }
    if ipv4.len() != 0 {
        if has_kind(records, RecordType::A) {
            let i = choose|i: int| 0 <= i < records.len() && kind_of(#[trigger] records[i]) == Some(RecordType::A);
            assert(r3[i] == r1[i]);
            assert(kind_of(r3[i]) == Some(RecordType::A));
        } else {
            let i = records.len() as int;
            assert(r3[i] == r2[i]);
            lemma_created_kind(RecordType::A, ipv4, ipv6);
            assert(kind_of(r3[i]) == Some(RecordType::A));
        }
    }
    if ipv6.len() != 0 {
        if has_kind(records, RecordType::AAAA) {
            let i = choose|i: int| 0 <= i < records.len() && kind_of(#[trigger] records[i]) == Some(RecordType::AAAA);
            assert(r3[i] == r1[i]);
            assert(kind_of(r3[i]) == Some(RecordType::AAAA));
        } else {
            let i = r2.len() as int;
            lemma_created_kind(RecordType::AAAA, ipv4, ipv6);
            assert(kind_of(r3[i]) == Some(RecordType::AAAA));
        }
    }
}


/// A failed call ends the run, and the run reports the failure.
pub proof fn law_failed_call_ends_run(v: SyncView)
    requires
        in_range(v),
        accepts(v, EventView::CallFailed),
    ensures
        sync_next(v, EventView::CallFailed).0.phase == SyncPhase::Done,
        sync_next(v, EventView::CallFailed).1 is Fail,
{
}

/// The run handles the domains one after the other: after the start, a
/// step either stays with the current domain or moves to the next one, and
/// it moves on only once no planned change of the current domain is left.
pub proof fn law_domains_in_order(v: SyncView, e: EventView)
    requires
        in_range(v),
        accepts(v, e),
        !(e is Begin),
    ensures
        ({
            let w = sync_next(v, e).0;
            ||| w.domain == v.domain
            ||| (w.domain == v.domain + 1 && w.phase == SyncPhase::AwaitZone && match e {
                EventView::ChangeDone => v.next + 1 == v.changes.len(),
                EventView::RecordsListed(rs) => plan_spec(facts_seq(rs), v.ipv4, v.ipv6).len() == 0,
                _ => false,
            })
        }),
{
}

/// The run reports success only at the last domain, once all its planned
/// changes are made.
pub proof fn law_finished_only_after_last_domain(v: SyncView, e: EventView)
    requires
        in_range(v),
        accepts(v, e),
        sync_next(v, e).1 is Finished,
    ensures
        v.domain + 1 >= v.domains.len(),
        sync_next(v, e).0.next == sync_next(v, e).0.changes.len(),
        sync_next(v, e).0.phase == SyncPhase::Done,
{
}

/// The steps a run gives for the events, one step per event, and the
/// state it ends in.
pub open spec fn feed(v: SyncView, events: Seq<EventView>) -> (SyncView, Seq<StepView>)
    decreases events.len(),
{
    if events.len() == 0 {
        (v, Seq::empty())
    } else {
        let (w, s) = sync_next(v, events[0]);
        let (u, ss) = feed(w, events.drop_first());
        (u, seq![s] + ss)
    }
}

/// Each event comes when the run waits for it (and its indices are in
/// range).
pub open spec fn all_accepted(v: SyncView, events: Seq<EventView>) -> bool
    decreases events.len(),
{
    events.len() == 0 || (in_range(v) && accepts(v, events[0]) && all_accepted(
        sync_next(v, events[0]).0,
        events.drop_first(),
    ))
}

/// `m` reports of a change made.
pub open spec fn changes_done(m: nat) -> Seq<EventView>
    decreases m,
{
    if m == 0 {
        Seq::empty()
    } else {
        seq![EventView::ChangeDone] + changes_done((m - 1) as nat)
    }
}

/// What an API that always succeeds reports for one domain: its zone, its
/// records, then each planned change made.
pub open spec fn domain_events(zone: Seq<char>, listing: Seq<Record>, ipv4: Seq<char>, ipv6: Seq<char>) -> Seq<EventView> {
    seq![EventView::ZoneFound(zone), EventView::RecordsListed(listing)] + changes_done(
        plan_spec(facts_seq(listing), ipv4, ipv6).len(),
    )
}

/// The reports for the domains from the `k`-th on: domain `i` lies in zone
/// `zones[i]` and has the records `listings[i]`.
pub open spec fn events_from(zones: Seq<Seq<char>>, listings: Seq<Seq<Record>>, ipv4: Seq<char>, ipv6: Seq<char>, k: nat) -> Seq<EventView>
    decreases zones.len() - k,
{
    if k >= zones.len() {
        Seq::empty()
    } else {
        domain_events(zones[k as int], listings[k as int], ipv4, ipv6) + events_from(
            zones,
            listings,
            ipv4,
            ipv6,
            k + 1,
        )
    }
}

/// The change steps for the planned changes from the `j`-th on.
pub open spec fn change_steps(zone: Seq<char>, domain: Seq<char>, cs: Seq<ChangeView>, j: nat) -> Seq<StepView>
    decreases cs.len() - j,
{
    if j >= cs.len() {
        Seq::empty()
    } else {
        seq![StepView::Change { zone_id: zone, domain, change: cs[j as int] }] + change_steps(
            zone,
            domain,
            cs,
            j + 1,
        )
    }
}

/// What a successful run asks for from the `k`-th domain on: for each
/// domain in turn its zone, its records and the planned changes, in order;
/// then success.
pub open spec fn steps_from(domains: Seq<Seq<char>>, zones: Seq<Seq<char>>, listings: Seq<Seq<Record>>, ipv4: Seq<char>, ipv6: Seq<char>, k: nat) -> Seq<StepView>
    decreases domains.len() - k,
{
    if k >= domains.len() {
        seq![StepView::Finished]
    } else {
        seq![
            StepView::LookupZone { domain: domains[k as int] },
            StepView::ListRecords { zone_id: zones[k as int], domain: domains[k as int] },
        ] + change_steps(
            zones[k as int],
            domains[k as int],
            plan_spec(facts_seq(listings[k as int]), ipv4, ipv6),
            0,
        ) + steps_from(domains, zones, listings, ipv4, ipv6, k + 1)
    }
}

proof fn lemma_feed_concat(v: SyncView, a: Seq<EventView>, b: Seq<EventView>)
    ensures
        feed(v, a + b) == (feed(feed(v, a).0, b).0, feed(v, a).1 + feed(feed(v, a).0, b).1),
        all_accepted(v, a) && all_accepted(feed(v, a).0, b) ==> all_accepted(v, a + b),
    decreases a.len(),
{
    if a.len() == 0 {
        assert(a + b =~= b);
        assert(feed(v, a).1 + feed(feed(v, a).0, b).1 =~= feed(v, b).1);
    } else {
        let w = sync_next(v, a[0]).0;
        lemma_feed_concat(w, a.drop_first(), b);
        assert((a + b).drop_first() =~= a.drop_first() + b);
        assert((a + b)[0] == a[0]);
        let s = sync_next(v, a[0]).1;
        assert(seq![s] + (feed(w, a.drop_first()).1 + feed(feed(w, a.drop_first()).0, b).1) =~= (seq![s]
            + feed(w, a.drop_first()).1) + feed(feed(w, a.drop_first()).0, b).1);
    }
}

/// The step that ends the work on a domain.
pub open spec fn exit_step(v: SyncView) -> StepView {
    if v.domain + 1 < v.domains.len() {
        StepView::LookupZone { domain: v.domains[v.domain + 1 as int] }
    } else {
        StepView::Finished
    }
}

/// The state after the work on a domain: waiting for the next domain's
/// zone, or done.
pub open spec fn after_domain(u: SyncView, v: SyncView) -> bool {
    &&& u.ipv4 == v.ipv4
    &&& u.ipv6 == v.ipv6
    &&& u.domains == v.domains
    &&& if v.domain + 1 < v.domains.len() {
        &&& u.phase == SyncPhase::AwaitZone
        &&& u.domain == v.domain + 1
        &&& u.next == 0
        &&& u.changes.len() == 0
    } else {
        u.phase == SyncPhase::Done
    }
}

proof fn lemma_changes_done(v: SyncView, j: nat)
    requires
        v.phase == SyncPhase::AwaitChange,
        v.next == j,
        j < v.changes.len(),
        v.domain < v.domains.len(),
    ensures
        ({
            let (u, ss) = feed(v, changes_done((v.changes.len() - j) as nat));
            &&& ss == change_steps(v.zone_id, v.domains[v.domain as int], v.changes, j + 1).push(
                exit_step(v),
            )
            &&& after_domain(u, v)
            &&& all_accepted(v, changes_done((v.changes.len() - j) as nat))
        }),
    decreases v.changes.len() - j,
{
    let n = v.changes.len();
    let evs = changes_done((n - j) as nat);
    assert(evs[0] == EventView::ChangeDone);
    assert(evs.drop_first() =~= changes_done((n - j - 1) as nat));
    let (w, st) = sync_next(v, EventView::ChangeDone);
    let rest = evs.drop_first();
    assert(feed(v, evs) == (feed(w, rest).0, seq![st] + feed(w, rest).1));
    assert(in_range(v));
    let z = v.zone_id;
    let d = v.domains[v.domain as int];
    if j + 1 < n {
        assert(w == SyncView { phase: SyncPhase::AwaitChange, next: j + 1, ..v });
        assert(st == StepView::Change { zone_id: z, domain: d, change: v.changes[j + 1 as int] });
        lemma_changes_done(w, j + 1);
        assert((w.changes.len() - (j + 1)) as nat == (n - j - 1) as nat);
        assert(exit_step(w) == exit_step(v));
        assert(change_steps(z, d, v.changes, j + 1) == seq![st] + change_steps(z, d, v.changes, j + 2));
        assert(feed(v, evs).1 =~= change_steps(z, d, v.changes, j + 1).push(exit_step(v)));
        assert(after_domain(feed(v, evs).0, v));
        assert(all_accepted(w, rest));
        assert(accepts(v, evs[0]));
        assert(all_accepted(v, evs));
    } else {
        assert(rest =~= Seq::<EventView>::empty());
        assert(st == exit_step(v));
        assert(change_steps(z, d, v.changes, j + 1) =~= Seq::<StepView>::empty());
        assert(feed(v, evs).1 =~= seq![exit_step(v)]);
        assert(feed(w, rest).0 == w);
        assert(after_domain(w, v));
        assert(all_accepted(w, rest));
        assert(all_accepted(v, evs));
    }
}

proof fn lemma_domain(v: SyncView, zone: Seq<char>, listing: Seq<Record>)
    requires
        v.phase == SyncPhase::AwaitZone,
        v.domain < v.domains.len(),
        in_range(v),
    ensures
        ({
            let cs = plan_spec(facts_seq(listing), v.ipv4, v.ipv6);
            let d = v.domains[v.domain as int];
            let evs = domain_events(zone, listing, v.ipv4, v.ipv6);
            &&& feed(v, evs).1 == seq![StepView::ListRecords { zone_id: zone, domain: d }]
                + change_steps(zone, d, cs, 0) + seq![exit_step(v)]
            &&& after_domain(feed(v, evs).0, v)
            &&& all_accepted(v, evs)
        }),
{
    let cs = plan_spec(facts_seq(listing), v.ipv4, v.ipv6);
    let n = cs.len();
    let d = v.domains[v.domain as int];
    let a = seq![EventView::ZoneFound(zone), EventView::RecordsListed(listing)];
    let b = changes_done(n);
    let evs = domain_events(zone, listing, v.ipv4, v.ipv6);
    assert(evs == a + b);
    lemma_feed_concat(v, a, b);
    let (v1, s1) = sync_next(v, a[0]);
    let (v2, s2) = sync_next(v1, a[1]);
    assert(s1 == StepView::ListRecords { zone_id: zone, domain: d });
    assert(a.drop_first() =~= seq![EventView::RecordsListed(listing)]);
    assert(a.drop_first().drop_first() =~= Seq::<EventView>::empty());
    assert(feed(v1, a.drop_first()) == (feed(v2, a.drop_first().drop_first()).0, seq![s2] + feed(
        v2,
        a.drop_first().drop_first(),
    ).1));
    assert(feed(v, a) == (feed(v1, a.drop_first()).0, seq![s1] + feed(v1, a.drop_first()).1));
    assert(feed(v, a).0 == v2);
    assert(feed(v, a).1 =~= seq![s1, s2]);
    assert(in_range(v1));
    assert(all_accepted(v2, a.drop_first().drop_first()));
    assert(all_accepted(v1, a.drop_first()));
    assert(all_accepted(v, a));
    if n > 0 {
        assert(v2 == SyncView { phase: SyncPhase::AwaitChange, zone_id: zone, changes: cs, next: 0, ..v });
        assert(s2 == StepView::Change { zone_id: zone, domain: d, change: cs[0] });
        lemma_changes_done(v2, 0);
        assert(exit_step(v2) == exit_step(v));
        assert(change_steps(zone, d, cs, 0) == seq![s2] + change_steps(zone, d, cs, 1));
        assert(feed(v, evs).1 =~= seq![s1] + change_steps(zone, d, cs, 0) + seq![exit_step(v)]);
    } else {
        assert(b =~= Seq::<EventView>::empty());
        assert(s2 == exit_step(v));
        assert(after_domain(v2, v));
        assert(change_steps(zone, d, cs, 0) =~= Seq::<StepView>::empty());
        assert(feed(v, evs).1 =~= seq![s1] + change_steps(zone, d, cs, 0) + seq![exit_step(v)]);
    }
}

proof fn lemma_domains_from(v: SyncView, zones: Seq<Seq<char>>, listings: Seq<Seq<Record>>)
    requires
        v.phase == SyncPhase::AwaitZone,
        v.domain < v.domains.len(),
        in_range(v),
        zones.len() == v.domains.len(),
        listings.len() == v.domains.len(),
    ensures
        ({
            let evs = events_from(zones, listings, v.ipv4, v.ipv6, v.domain);
            &&& feed(v, evs).1 == steps_from(v.domains, zones, listings, v.ipv4, v.ipv6, v.domain).drop_first()
            &&& feed(v, evs).0.phase == SyncPhase::Done
            &&& all_accepted(v, evs)
        }),
    decreases v.domains.len() - v.domain,
{
    let k = v.domain;
    let first = domain_events(zones[k as int], listings[k as int], v.ipv4, v.ipv6);
    let later = events_from(zones, listings, v.ipv4, v.ipv6, k + 1);
    assert(events_from(zones, listings, v.ipv4, v.ipv6, k) == first + later);
    lemma_feed_concat(v, first, later);
    lemma_domain(v, zones[k as int], listings[k as int]);
    let u = feed(v, first).0;
    let d = v.domains[k as int];
    let cs = plan_spec(facts_seq(listings[k as int]), v.ipv4, v.ipv6);
    let head = seq![StepView::ListRecords { zone_id: zones[k as int], domain: d }] + change_steps(
        zones[k as int],
        d,
        cs,
        0,
    );
    let all = steps_from(v.domains, zones, listings, v.ipv4, v.ipv6, k);
    let next_steps = steps_from(v.domains, zones, listings, v.ipv4, v.ipv6, k + 1);
    assert(all == seq![StepView::LookupZone { domain: d }, StepView::ListRecords { zone_id: zones[k as int], domain: d }]
        + change_steps(zones[k as int], d, cs, 0) + next_steps);
    assert(all.drop_first() =~= head + next_steps);
    if k + 1 < v.domains.len() {
        assert(in_range(u));
        lemma_domains_from(u, zones, listings);
        assert(next_steps[0] == exit_step(v));
        assert(next_steps =~= seq![exit_step(v)] + next_steps.drop_first());
        assert(feed(v, first + later).1 =~= head + next_steps);
    } else {
        assert(later =~= Seq::<EventView>::empty());
        assert(next_steps == seq![StepView::Finished]);
        assert(feed(u, later) == (u, Seq::<StepView>::empty()));
        assert(feed(v, first + later).1 =~= head + next_steps);
    }
}

/// The state a run starts in.
pub open spec fn run_start(ipv4: Seq<char>, ipv6: Seq<char>, domains: Seq<Seq<char>>) -> SyncView {
    SyncView {
        phase: SyncPhase::Begin,
        ipv4,
        ipv6,
        domains,
        domain: 0,
        zone_id: Seq::empty(),
        changes: Seq::empty(),
        next: 0,
    }
}

/// A run in which every call succeeds, where domain `i` lies in zone
/// `zones[i]` and has the records `listings[i]`, asks for exactly this:
/// for each domain in order, its zone, its records, and the planned changes
/// (the updates of its out-of-date A and AAAA records, then the creation of
/// a missing A and of a missing AAAA record), and nothing else; then it
/// succeeds. Every report comes when the run waits for it.
pub proof fn law_successful_run_makes_planned_changes(
    ipv4: Seq<char>,
    ipv6: Seq<char>,
    domains: Seq<Seq<char>>,
    zones: Seq<Seq<char>>,
    listings: Seq<Seq<Record>>,
)
    requires
        ipv4.len() != 0 || ipv6.len() != 0,
        domains.len() != 0,
        zones.len() == domains.len(),
        listings.len() == domains.len(),
    ensures
        ({
            let v0 = run_start(ipv4, ipv6, domains);
            let evs = seq![EventView::Begin] + events_from(zones, listings, ipv4, ipv6, 0);
            &&& all_accepted(v0, evs)
            &&& feed(v0, evs).1 == steps_from(domains, zones, listings, ipv4, ipv6, 0)
            &&& feed(v0, evs).0.phase == SyncPhase::Done
        }),
{
    let v0 = run_start(ipv4, ipv6, domains);
    let a = seq![EventView::Begin];
    let later = events_from(zones, listings, ipv4, ipv6, 0);
    lemma_feed_concat(v0, a, later);
    let (v1, s1) = sync_next(v0, EventView::Begin);
    assert(a.drop_first() =~= Seq::<EventView>::empty());
    assert(a[0] == EventView::Begin);
    assert(feed(v1, a.drop_first()) == (v1, Seq::<StepView>::empty()));
    assert(seq![s1] + Seq::<StepView>::empty() =~= seq![s1]);
    assert(feed(v0, a) == (v1, seq![s1]));
    assert(in_range(v0));
    assert(all_accepted(v1, a.drop_first()));
    assert(all_accepted(v0, a));
    assert(s1 == StepView::LookupZone { domain: domains[0] });
    lemma_domains_from(v1, zones, listings);
    let all = steps_from(domains, zones, listings, ipv4, ipv6, 0);
    assert(all[0] == s1);
    assert(all =~= seq![s1] + all.drop_first());
    assert(feed(v0, a + later).1 =~= all);
}

/// How many creations of a record of kind `t` the changes hold.
pub open spec fn creations(cs: Seq<ChangeView>, t: RecordType) -> nat
    decreases cs.len(),
{
    if cs.len() == 0 {
        0
    } else {
        creations(cs.drop_last(), t) + if cs.last() == (ChangeView::Create { record_type: t }) {
            1nat
        } else {
            0nat
        }
    }
}

proof fn lemma_creations_concat(a: Seq<ChangeView>, b: Seq<ChangeView>, t: RecordType)
    ensures
        creations(a + b, t) == creations(a, t) + creations(b, t),
    decreases b.len(),
{
    if b.len() == 0 {
        assert(a + b =~= a);
    } else {
        lemma_creations_concat(a, b.drop_last(), t);
        assert((a + b).drop_last() =~= a + b.drop_last());
    }
}

proof fn lemma_no_creations(cs: Seq<ChangeView>, t: RecordType)
    requires
        forall|i: int| 0 <= i < cs.len() ==> (#[trigger] cs[i]) is Update,
    ensures
        creations(cs, t) == 0,
    decreases cs.len(),
{
    if cs.len() > 0 {
        assert(cs.last() is Update);
        lemma_no_creations(cs.drop_last(), t);
    }
}

/// Whether the records hold one whose type is `text`.
pub open spec fn has_type_text(records: Seq<RecordFacts>, text: Seq<char>) -> bool {
    exists|i: int| 0 <= i < records.len() && (#[trigger] records[i]).record_type == text
}

/// A domain gets at most one new record of each kind: the plan creates a
/// record of kind `t` exactly once when the client has an address of that
/// kind and the domain has no record of that type, and never otherwise.
pub proof fn law_plan_creates_each_kind_at_most_once(records: Seq<RecordFacts>, ipv4: Seq<char>, ipv6: Seq<char>, t: RecordType)
    ensures
        creations(plan_spec(records, ipv4, ipv6), t) == if (match t {
            RecordType::A => ipv4,
            RecordType::AAAA => ipv6,
        }).len() != 0 && !has_type_text(
            records,
            match t {
                RecordType::A => seq!['A'],
                RecordType::AAAA => seq!['A', 'A', 'A', 'A'],
            },
        ) {
            1nat
        } else {
            0nat
        },
{
    reveal_strlit("A");
    reveal_strlit("AAAA");
    assert("A"@ =~= seq!['A']);
    assert("AAAA"@ =~= seq!['A', 'A', 'A', 'A']);
    let u = stale_updates(records, ipv4, ipv6);
    let ma = missing_record(records, RecordType::A, ipv4, ipv6);
    let m6 = missing_record(records, RecordType::AAAA, ipv4, ipv6);
    lemma_updates_have_addresses(records, ipv4, ipv6);
    assert forall|i: int| 0 <= i < u.len() implies (#[trigger] u[i]) is Update by {}
    lemma_no_creations(u, t);
    lemma_creations_concat(u, ma, t);
    lemma_creations_concat(u + ma, m6, t);
    assert(creations(Seq::<ChangeView>::empty(), t) == 0);
    if ma.len() == 1 {
        assert(ma.drop_last() =~= Seq::<ChangeView>::empty());
    }
    if m6.len() == 1 {
        assert(m6.drop_last() =~= Seq::<ChangeView>::empty());
    }
    assert(has_kind(records, t) <==> has_type_text(records, match t {
        RecordType::A => seq!['A'],
        RecordType::AAAA => seq!['A', 'A', 'A', 'A'],
    })) by {
        if has_kind(records, t) {
            let i = choose|i: int| 0 <= i < records.len() && kind_of(#[trigger] records[i]) == Some(t);
            assert(records[i].record_type == match t {
                RecordType::A => seq!['A'],
                RecordType::AAAA => seq!['A', 'A', 'A', 'A'],
            });
        }
        if has_type_text(records, match t {
            RecordType::A => seq!['A'],
            RecordType::AAAA => seq!['A', 'A', 'A', 'A'],
        }) {
            let i = choose|i: int| 0 <= i < records.len() && (#[trigger] records[i]).record_type == match t {
                RecordType::A => seq!['A'],
                RecordType::AAAA => seq!['A', 'A', 'A', 'A'],
            };
            assert(seq!['A'] != seq!['A', 'A', 'A', 'A']) by {
                assert(seq!['A'].len() != seq!['A', 'A', 'A', 'A'].len());
            }
            assert(kind_of(records[i]) == Some(t));
        }
    }
}

/// How many updates the changes hold.
pub open spec fn update_count(cs: Seq<ChangeView>) -> nat
    decreases cs.len(),
{
    if cs.len() == 0 {
        0
    } else {
        update_count(cs.drop_last()) + if cs.last() is Update {
            1nat
        } else {
            0nat
        }
    }
}

/// An A record that does not hold the client's IPv4 address, or an AAAA
/// record that does not hold its IPv6 address, when the client has one.
pub open spec fn outdated(r: RecordFacts, ipv4: Seq<char>, ipv6: Seq<char>) -> bool {
    ||| (r.record_type == seq!['A'] && ipv4.len() != 0 && r.content != ipv4)
    ||| (r.record_type == seq!['A', 'A', 'A', 'A'] && ipv6.len() != 0 && r.content != ipv6)
}

/// How many of the records are outdated.
pub open spec fn outdated_count(records: Seq<RecordFacts>, ipv4: Seq<char>, ipv6: Seq<char>) -> nat
    decreases records.len(),
{
    if records.len() == 0 {
        0
    } else {
        outdated_count(records.drop_last(), ipv4, ipv6) + if outdated(records.last(), ipv4, ipv6) {
            1nat
        } else {
            0nat
        }
    }
}

proof fn lemma_update_count_concat(a: Seq<ChangeView>, b: Seq<ChangeView>)
    ensures
        update_count(a + b) == update_count(a) + update_count(b),
    decreases b.len(),
{
    if b.len() == 0 {
        assert(a + b =~= a);
    } else {
        lemma_update_count_concat(a, b.drop_last());
        assert((a + b).drop_last() =~= a + b.drop_last());
    }
}

proof fn lemma_stale_updates_count(records: Seq<RecordFacts>, ipv4: Seq<char>, ipv6: Seq<char>)
    ensures
        update_count(stale_updates(records, ipv4, ipv6)) == outdated_count(records, ipv4, ipv6),
    decreases records.len(),
{
    reveal_strlit("A");
    reveal_strlit("AAAA");
    assert("A"@ =~= seq!['A']);
    assert("AAAA"@ =~= seq!['A', 'A', 'A', 'A']);
    assert(seq!['A'] != seq!['A', 'A', 'A', 'A']) by {
        assert(seq!['A'].len() != seq!['A', 'A', 'A', 'A'].len());
    }
    if records.len() > 0 {
        lemma_stale_updates_count(records.drop_last(), ipv4, ipv6);
        let r = records.last();
        assert(is_stale(r, ipv4, ipv6) == outdated(r, ipv4, ipv6));
        let before = stale_updates(records.drop_last(), ipv4, ipv6);
        if is_stale(r, ipv4, ipv6) {
            let c = ChangeView::Update { record_id: r.id, record_type: kind_of(r)->0 };
            assert(before.push(c).drop_last() =~= before);
        }
    }
}

/// Every outdated record is updated once and nothing else is: the plan
/// holds as many updates as the domain has outdated records.
pub proof fn law_plan_updates_each_outdated_record(records: Seq<RecordFacts>, ipv4: Seq<char>, ipv6: Seq<char>)
    ensures
        update_count(plan_spec(records, ipv4, ipv6)) == outdated_count(records, ipv4, ipv6),
{
    let u = stale_updates(records, ipv4, ipv6);
    let ma = missing_record(records, RecordType::A, ipv4, ipv6);
    let m6 = missing_record(records, RecordType::AAAA, ipv4, ipv6);
    lemma_stale_updates_count(records, ipv4, ipv6);
    lemma_update_count_concat(u, ma);
    lemma_update_count_concat(u + ma, m6);
    assert(update_count(Seq::<ChangeView>::empty()) == 0);
    if ma.len() == 1 {
        assert(ma.drop_last() =~= Seq::<ChangeView>::empty());
        assert(ma.last() is Create);
    }
    assert(update_count(ma) == 0);
    if m6.len() == 1 {
        assert(m6.drop_last() =~= Seq::<ChangeView>::empty());
        assert(m6.last() is Create);
    }
    assert(update_count(m6) == 0);
    assert(plan_spec(records, ipv4, ipv6) == u + ma + m6);
}

} // verus!
