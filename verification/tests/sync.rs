use cloudflare_dyndns::client::cloudflare::{Record, RecordType, DEFAULT_API_URL};
use cloudflare_dyndns::client::sync::{plan_changes, RecordChange, SyncEvent, SyncPhase, SyncStep};
use cloudflare_dyndns::client::Client;
use cloudflare_dyndns::dyndns::ClientData;

fn record(id: &str, rtype: &str, content: &str) -> Record {
    Record {
        name: "example.com".to_string(),
        ttl: 1,
        record_type: rtype.to_string(),
        content: content.to_string(),
        proxied: true,
        id: id.to_string(),
    }
}

fn client(ipv4: &str, ipv6: &str, domains: Vec<&str>) -> Client {
    let mut data = ClientData::new(true, domains.into_iter().map(|d| d.to_string()).collect());
    data.set_ipv4(ipv4).expect("Should set ipv4");
    data.set_ipv6(ipv6).expect("Should set ipv6");
    Client::from_data("testtoken".to_string(), data)
}

fn path(url: String) -> String {
    url.strip_prefix(DEFAULT_API_URL).expect("Should call the API").to_string()
}

/// The requests a run makes against a fake API that has the zone
/// `zone-id-123` and the given records for every domain; `fail_at` makes the
/// request with that number fail. The last line is `done` or the failure.
fn trace(c: &Client, records: Vec<Record>, fail_at: Option<usize>) -> Vec<String> {
    let mut run = c.start_update();
    let mut event = SyncEvent::Begin;
    let mut out = Vec::new();
    let mut calls = 0;
    loop {
        assert!(run.accepts(&event));
        let step = run.step(event);
        calls += 1;
        let failing = fail_at == Some(calls);
        event = match step {
            SyncStep::LookupZone { domain } => match c.zone_lookup_url(&domain) {
                Err(e) => {
                    out.push(format!("refused: {}", e.message()));
                    SyncEvent::CallFailed
                }
                Ok(url) => {
                    out.push(format!("GET {}", path(url)));
                    if failing {
                        SyncEvent::CallFailed
                    } else {
                        SyncEvent::ZoneFound("zone-id-123".to_string())
                    }
                }
            },
            SyncStep::ListRecords { zone_id, domain } => {
                out.push(format!("GET {}", path(c.records_url(&zone_id, &domain))));
                if failing {
                    SyncEvent::CallFailed
                } else {
                    SyncEvent::RecordsListed(records.clone())
                }
            }
            SyncStep::Change { zone_id, domain, change } => {
                match change {
                    RecordChange::Update { record_id, record_type } => {
                        let (url, body) =
                            c.update_record_request(&zone_id, &domain, &record_id, record_type);
                        out.push(format!("PATCH {} {}", path(url), body.content));
                    }
                    RecordChange::Create { record_type } => {
                        let (url, body) = c.create_record_request(&zone_id, &domain, record_type);
                        out.push(format!("POST {} {} {}", path(url), body.record_type, body.content));
                    }
                }
                if failing {
                    SyncEvent::CallFailed
                } else {
                    SyncEvent::ChangeDone
                }
            }
            SyncStep::Finished => {
                out.push("done".to_string());
                assert_eq!(run.phase(), SyncPhase::Done);
                return out;
            }
            SyncStep::Fail { cause, context } => {
                let cause = cause.map(|e| e.message()).unwrap_or_default();
                out.push(format!("fail {context}: {cause}"));
                assert_eq!(run.phase(), SyncPhase::Done);
                return out;
            }
        }
    }
}

fn default_client() -> Client {
    client("100.100.100.100", "fd00::dead", vec!["example.com"])
}

#[test]
fn test_send_update_invalid_client_data() {
    let c = client("", "", vec!["foo.example.com"]);
    let t = trace(&c, vec![], None);
    assert_eq!(t, vec!["fail Invalid client data: At least one IP address must be provided"]);
    let c = client("100.100.100.100", "", vec![]);
    assert_eq!(
        trace(&c, vec![], None),
        vec!["fail Invalid client data: At least one domain must be provided"]
    );
}

#[test]
fn test_send_update_invalid_domain() {
    let c = client("100.100.100.100", "", vec!["com"]);
    assert_eq!(
        trace(&c, vec![], None),
        vec!["refused: Invalid domain", "fail Failed to get zone for 'com': "]
    );
}

#[test]
fn test_send_update_get_records_error() {
    assert_eq!(
        trace(&default_client(), vec![], Some(2)),
        vec![
            "GET /zones?name=example.com&status=active",
            "GET /zones/zone-id-123/dns_records?name=example.com",
            "fail Failed to list dns records for 'example.com': ",
        ]
    );
}

#[test]
fn test_send_update_updates_existing_a_and_aaaa_records() {
    let records = vec![
        record("record-a", "A", "1.1.1.1"),
        record("record-aaaa", "AAAA", "fd00::beef"),
        record("record-cname", "CNAME", "target.example.net"),
    ];
    assert_eq!(
        trace(&default_client(), records, None),
        vec![
            "GET /zones?name=example.com&status=active",
            "GET /zones/zone-id-123/dns_records?name=example.com",
            "PATCH /zones/zone-id-123/dns_records/record-a 100.100.100.100",
            "PATCH /zones/zone-id-123/dns_records/record-aaaa fd00::dead",
            "done",
        ]
    );
}

#[test]
fn test_send_update_creates_missing_a_and_aaaa_records() {
    assert_eq!(
        trace(&default_client(), vec![], None),
        vec![
            "GET /zones?name=example.com&status=active",
            "GET /zones/zone-id-123/dns_records?name=example.com",
            "POST /zones/zone-id-123/dns_records A 100.100.100.100",
            "POST /zones/zone-id-123/dns_records AAAA fd00::dead",
            "done",
        ]
    );
}

#[test]
fn test_send_update_up_to_date_records_no_changes() {
    let records =
        vec![record("record-a", "A", "100.100.100.100"), record("record-aaaa", "AAAA", "fd00::dead")];
    assert_eq!(
        trace(&default_client(), records, None),
        vec![
            "GET /zones?name=example.com&status=active",
            "GET /zones/zone-id-123/dns_records?name=example.com",
            "done",
        ]
    );
}

#[test]
fn test_send_update_creates_only_a_when_ipv6_missing() {
    let c = client("100.100.100.100", "", vec!["example.com"]);
    assert_eq!(
        trace(&c, vec![], None),
        vec![
            "GET /zones?name=example.com&status=active",
            "GET /zones/zone-id-123/dns_records?name=example.com",
            "POST /zones/zone-id-123/dns_records A 100.100.100.100",
            "done",
        ]
    );
}

#[test]
fn test_send_update_creates_only_aaaa_when_ipv4_missing() {
    let c = client("", "fd00::dead", vec!["example.com"]);
    assert_eq!(
        trace(&c, vec![], None),
        vec![
            "GET /zones?name=example.com&status=active",
            "GET /zones/zone-id-123/dns_records?name=example.com",
            "POST /zones/zone-id-123/dns_records AAAA fd00::dead",
            "done",
        ]
    );
}

#[test]
fn test_send_update_update_record_fails() {
    let records = vec![record("record-a", "A", "1.1.1.1")];
    assert_eq!(
        trace(&default_client(), records, Some(3)).last().unwrap(),
        "fail Failed to update A record for 'example.com': "
    );
}

#[test]
fn test_send_update_create_record_fails() {
    assert_eq!(
        trace(&default_client(), vec![], Some(3)).last().unwrap(),
        "fail Failed to create A record for 'example.com': "
    );
}

#[test]
fn sync_handles_each_domain_in_turn() {
    let c = client("100.100.100.100", "fd00::dead", vec!["example.com", "foo.example.org"]);
    let records =
        vec![record("record-a", "A", "100.100.100.100"), record("record-aaaa", "AAAA", "fd00::dead")];
    assert_eq!(
        trace(&c, records, None),
        vec![
            "GET /zones?name=example.com&status=active",
            "GET /zones/zone-id-123/dns_records?name=example.com",
            "GET /zones?name=example.org&status=active",
            "GET /zones/zone-id-123/dns_records?name=foo.example.org",
            "done",
        ]
    );
}

#[test]
fn sync_failed_call_ends_the_run() {
    let c = client("100.100.100.100", "fd00::dead", vec!["example.com", "example.org"]);
    let t = trace(&c, vec![], Some(1));
    assert_eq!(
        t,
        vec![
            "GET /zones?name=example.com&status=active",
            "fail Failed to get zone for 'example.com': ",
        ]
    );
}

#[test]
fn plan_is_empty_for_records_in_line() {
    let records =
        vec![record("record-a", "A", "100.100.100.100"), record("record-aaaa", "AAAA", "fd00::dead")];
    assert!(plan_changes(&records, "100.100.100.100", "fd00::dead").is_empty());
    let plan = plan_changes(&records, "100.100.100.101", "");
    assert_eq!(plan.len(), 1);
    assert!(matches!(
        &plan[0],
        RecordChange::Update { record_id, record_type: RecordType::A } if record_id == "record-a"
    ));
}
