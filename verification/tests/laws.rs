use cloudflare_dyndns::client::base_domain;
use cloudflare_dyndns::client::cloudflare::{Record, RecordType};
use cloudflare_dyndns::client::sync::{plan_changes, RecordChange};
use cloudflare_dyndns::dyndns::ClientData;
use cloudflare_dyndns::relay::Relay;
use cloudflare_dyndns::server::{admit_request, SharedState};
use cloudflare_dyndns::standalone::config::{env_template, TemplatePart};

fn record(id: &str, rtype: &str, content: &str) -> Record {
    Record {
        name: "example.com".to_string(),
        ttl: 1,
        record_type: rtype.to_string(),
        content: content.to_string(),
        proxied: false,
        id: id.to_string(),
    }
}

#[test]
fn plan_never_touches_kinds_without_address() {
    let records = vec![record("a", "A", "1.1.1.1"), record("b", "AAAA", "fd00::1")];
    let plan = plan_changes(&records, "2.2.2.2", "");
    assert_eq!(plan.len(), 1);
}

#[test]
fn subdomains_of_whitelisted_roots_are_allowed() {
    let s = SharedState { domains: vec!["example.org".to_string()] };
    for d in ["example.org", "a.example.org", "b.a.example.org"] {
        assert!(s.verify_domains(&vec![d.to_string()]), "{d}");
    }
}

#[test]
fn base_domain_is_idempotent() {
    for d in ["a.b.example.org", "example.org", "org", ""] {
        let b = base_domain(d);
        assert_eq!(base_domain(&b), b, "{d}");
    }
}

/// The records after the API made the planned changes.
fn apply_plan(records: &[Record], plan: &[RecordChange], ipv4: &str, ipv6: &str) -> Vec<Record> {
    let mut out = records.to_vec();
    for change in plan {
        match change {
            RecordChange::Update { record_id, record_type } => {
                let (kind, ip) = match record_type {
                    RecordType::A => ("A", ipv4),
                    RecordType::AAAA => ("AAAA", ipv6),
                };
                for r in out.iter_mut() {
                    if &r.id == record_id && r.record_type == kind {
                        r.content = ip.to_string();
                    }
                }
            }
            RecordChange::Create { record_type } => {
                let (kind, ip) = match record_type {
                    RecordType::A => ("A", ipv4),
                    RecordType::AAAA => ("AAAA", ipv6),
                };
                out.push(record("", kind, ip));
            }
        }
    }
    out
}

#[test]
fn planned_changes_bring_records_in_sync() {
    let samples: Vec<(Vec<Record>, &str, &str)> = vec![
        (vec![], "1.1.1.1", "fd00::1"),
        (vec![record("a", "A", "2.2.2.2"), record("c", "CNAME", "x.example.net")], "1.1.1.1", ""),
        (vec![record("a", "A", "2.2.2.2"), record("b", "A", "3.3.3.3")], "1.1.1.1", "fd00::1"),
        (vec![record("b", "AAAA", "fd00::2")], "", "fd00::1"),
        (vec![record("a", "A", "1.1.1.1"), record("b", "AAAA", "fd00::1")], "1.1.1.1", "fd00::1"),
    ];
    for (records, ipv4, ipv6) in samples {
        let plan = plan_changes(&records, ipv4, ipv6);
        let after = apply_plan(&records, &plan, ipv4, ipv6);
        assert!(plan_changes(&after, ipv4, ipv6).is_empty(), "{ipv4} {ipv6}");
    }
}

#[test]
fn relayed_request_refused_only_by_whitelist() {
    let mut relay = Relay::new(
        "http://example.com/".to_string(),
        "testtoken".to_string(),
        ClientData::new(true, vec!["foo.example.org".to_string()]),
    );
    relay.data_mut().set_ipv6("fd00::dead").unwrap();
    let open = SharedState { domains: vec![] };
    assert!(admit_request(&open, relay.update_payload().unwrap()).is_ok());
    let other = SharedState { domains: vec!["example.net".to_string()] };
    let (status, _) = admit_request(&other, relay.update_payload().unwrap()).err().unwrap();
    assert_eq!(status, 403);
}

#[test]
fn text_without_references_stays_as_it_is() {
    let parts = env_template("plain: text {with} braces");
    let back: String = parts
        .iter()
        .map(|p| match p {
            TemplatePart::Literal(t) => t.clone(),
            TemplatePart::Variable(_) => panic!("no variable expected"),
        })
        .collect();
    assert_eq!(back, "plain: text {with} braces");
}
