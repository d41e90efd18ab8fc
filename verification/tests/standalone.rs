use cloudflare_dyndns::standalone::cf_types::{
    is_false, is_zero, CloudflareMessage, CloudflareRecord, CloudflareResponse, CloudflareZone,
};
use cloudflare_dyndns::standalone::client::{
    absorb_addresses, check_status, check_success, errors_text, get_base_domain, pick_zone,
    records_path, updated_after, zone_path, ClientData, CloudflareClient, Method, RunEvent,
    RunStep,
};
use cloudflare_dyndns::standalone::config::{
    env_template, expand_template, set_log_level, Config, Interval, TemplatePart,
};
use cloudflare_dyndns::standalone::errors::DynDnsError;
use cloudflare_dyndns::standalone::metrics::domains_to_string;
use cloudflare_dyndns::standalone::utils::{public_ip_from_reply, valid_ipv4, valid_ipv6};

#[test]
fn test_get_base_domain() {
    let cases = vec![
        ("", ""),
        ("not a domain", ""),
        ("foo.example.org", "example.org"),
        ("bar.example.org", "example.org"),
        ("example.net", "example.net"),
    ];
    for (input, expected) in cases {
        assert_eq!(get_base_domain(input), expected, "input: {input:?}");
    }
}

#[test]
fn test_valid_ipv4() {
    let cases = vec![
        ("", false),
        ("not an ip", false),
        ("100.100.100.100", true),
        ("172.198.10.100", true),
        ("fd00::dead", false),
    ];
    for (ip, ok) in cases {
        assert_eq!(valid_ipv4(ip), ok, "ip: {ip:?}");
    }
}

#[test]
fn test_valid_ipv6() {
    let cases = vec![
        ("", false),
        ("not an ip", false),
        ("100.100.100.100", false),
        ("fd69::dead", true),
        ("fd00::dead", true),
    ];
    for (ip, ok) in cases {
        assert_eq!(valid_ipv6(ip), ok, "ip: {ip:?}");
    }
}

#[test]
fn test_validate_client_missing_token() {
    let mut cfg = Config::default();
    cfg.client.domains = vec!["foo.example.org".to_string()];
    let err = cfg.validate_client().unwrap_err();
    assert!(matches!(err, DynDnsError::MissingToken));
}

#[test]
fn test_validate_client_no_domain() {
    let mut cfg = Config::default();
    cfg.client.token = "some-token".to_string();
    let err = cfg.validate_client().unwrap_err();
    assert!(matches!(err, DynDnsError::NoDomain));
}

#[test]
fn test_validate_client_invalid_interval() {
    let mut cfg = Config::default();
    cfg.client.token = "some-token".to_string();
    cfg.client.domains = vec!["foo.example.org".to_string()];
    cfg.client.interval = Interval { secs: 10, nanos: 0 }; // less than 30s
    let err = cfg.validate_client().unwrap_err();
    assert!(matches!(err, DynDnsError::InvalidInterval(_)));
    assert_eq!(err, DynDnsError::InvalidInterval("10s".to_string()));
}

#[test]
fn test_new_client_missing_token() {
    let err = CloudflareClient::new("", true).err().unwrap();
    assert!(matches!(err, DynDnsError::MissingToken));
}

#[test]
fn standalone_log_levels() {
    assert!(set_log_level("Debug").is_ok());
    assert!(set_log_level("error").is_ok());
    assert_eq!(set_log_level("verbose"), Err(DynDnsError::UnknownLogLevel("verbose".to_string())));
}

#[test]
fn test_cloudflare_authentication() {
    let c = CloudflareClient::new_test("http://127.0.0.1:1/", "testtoken", false);
    assert_eq!(c.request_url("zones"), "http://127.0.0.1:1/zones");
    assert_eq!(c.authorization(), "Bearer testtoken");
}

#[test]
fn client_test_get_zone_id() {
    assert_eq!(zone_path("foo.example.org"), "zones?name=example.org&status=active");
    let zones = Some(vec![CloudflareZone { id: "test-zone-id".to_string() }]);
    assert_eq!(pick_zone(zones), Ok("test-zone-id".to_string()));
    assert_eq!(pick_zone(Some(vec![])), Err(DynDnsError::NoDomain));
    assert_eq!(pick_zone(None), Err(DynDnsError::NoDomain));
}

#[test]
fn client_test_get_records() {
    assert_eq!(
        records_path("test-zone-id", "foo.example.org"),
        "zones/test-zone-id/dns_records?name=foo.example.org"
    );
    let records = vec![
        CloudflareRecord {
            content: "100.100.100.100".into(),
            id: "21d167bb587e1d3e".into(),
            record_type: "A".into(),
            name: "foo.example.org".into(),
            ..Default::default()
        },
        CloudflareRecord {
            content: "fd00::dead".into(),
            id: "ff0012854eddab59".into(),
            record_type: "AAAA".into(),
            name: "foo.example.org".into(),
            ..Default::default()
        },
    ];
    assert_eq!(run_against(records.clone(), "100.100.100.100", "fd00::dead"), Ok(0));
    assert_eq!(run_against(records, "100.100.100.101", "fd00::dead"), Ok(1));
}

#[test]
fn write_requests_choose_method_by_id() {
    let mut c = CloudflareClient::new_test("http://127.0.0.1:1/", "testtoken", false);
    c.data_mut().ipv4 = "100.100.100.100".to_string();
    c.data_mut().ipv6 = "fd69::dead".to_string();
    let (m, path, body) = c.write_request("z1", "foo.example.org", "A", "1234");
    assert_eq!(m, Method::Put);
    assert_eq!(path, "zones/z1/dns_records/1234");
    assert_eq!(body.content, "100.100.100.100");
    assert_eq!(body.ttl, 1);
    assert_eq!(body.id, "");
    let (m, path, body) = c.write_request("z1", "foo.example.org", "AAAA", "");
    assert_eq!(m, Method::Post);
    assert_eq!(path, "zones/z1/dns_records");
    assert_eq!(body.content, "fd69::dead");
    let (_, _, body) = c.write_request("z1", "foo.example.org", "CNAME", "");
    assert_eq!(body.content, "");
}

#[test]
fn responses_are_judged() {
    assert!(check_status(200, String::new()).is_ok());
    assert_eq!(
        check_status(404, "nope".to_string()),
        Err(DynDnsError::HttpRequestFailed { status: 404, body: "nope".to_string() })
    );
    let failed: CloudflareResponse<Vec<CloudflareZone>> = CloudflareResponse {
        errors: vec![
            CloudflareMessage { code: 9109, message: "Invalid access token".to_string() },
            CloudflareMessage { code: -1, message: "other".to_string() },
        ],
        messages: vec![],
        success: false,
        result: None,
    };
    assert_eq!(
        check_success(failed).err(),
        Some(DynDnsError::OperationFailed("[9109] Invalid access token; [-1] other".to_string()))
    );
    assert_eq!(errors_text(&vec![]), "");
    assert_eq!(pick_zone(None), Err(DynDnsError::NoDomain));
    assert_eq!(pick_zone(Some(vec![])), Err(DynDnsError::NoDomain));
    assert_eq!(
        pick_zone(Some(vec![CloudflareZone { id: "test-zone-id".to_string() }])),
        Ok("test-zone-id".to_string())
    );
}

#[test]
fn public_ip_replies() {
    assert_eq!(public_ip_from_reply(200, " 100.100.100.100\n".to_string()), Ok("100.100.100.100".to_string()));
    assert_eq!(public_ip_from_reply(200, "fd00::dead\n".to_string()), Ok("fd00::dead".to_string()));
    assert_eq!(
        public_ip_from_reply(200, "garbage".to_string()),
        Err(DynDnsError::InvalidIp("garbage".to_string()))
    );
    assert_eq!(
        public_ip_from_reply(503, "busy".to_string()),
        Err(DynDnsError::HttpRequestFailed { status: 503, body: "busy".to_string() })
    );
}

#[test]
fn serde_skip_helpers() {
    assert!(is_false(&false));
    assert!(!is_false(&true));
    assert!(is_zero(&0));
    assert!(!is_zero(&1));
    assert_eq!(domains_to_string(&vec!["a.org".to_string(), "b.org".to_string()]), "a.org;b.org");
    assert_eq!(domains_to_string(&vec![]), "");
}

#[test]
fn env_template_references() {
    let parts = env_template("a$B ${C_D}$ $1 $_x9-${open");
    let mut shown = String::new();
    for p in parts {
        match p {
            TemplatePart::Literal(t) => shown.push_str(&t),
            TemplatePart::Variable(n) => shown.push_str(&format!("<{n}>")),
        }
    }
    assert_eq!(shown, "a<B> <C_D>$ <1> <_x9>-open");
    assert!(env_template("").is_empty());
    let parts = env_template("$");
    assert!(matches!(parts.as_slice(), [TemplatePart::Literal(t)] if t == "$"));
}

fn expand_without_environment(s: &str) -> String {
    let parts = env_template(s);
    expand_template(&parts, &vec![])
}

#[test]
fn env_expansion_follows_shell_rules() {
    // No variable is set here, so every reference expands to nothing.
    assert_eq!(expand_without_environment("a$1b"), "ab");
    assert_eq!(expand_without_environment("x$$y$*z$#"), "xyz");
    assert_eq!(expand_without_environment("a${}b"), "ab");
    assert_eq!(expand_without_environment("a${b"), "ab");
    assert_eq!(expand_without_environment("$éa"), "$éa");
    assert_eq!(expand_without_environment("cost: 5$"), "cost: 5$");
    assert_eq!(expand_without_environment("a$%b"), "a$%b");
    assert_eq!(expand_without_environment("$HOMEé"), "é");
}

#[test]
fn env_expansion_puts_values_in() {
    let parts = env_template("token: ${TOKEN}, level: $LEVEL!");
    let values: Vec<Option<String>> = parts
        .iter()
        .map(|p| match p {
            TemplatePart::Variable(n) if n == "TOKEN" => Some("token-from-env".to_string()),
            TemplatePart::Variable(n) if n == "LEVEL" => Some("debug".to_string()),
            _ => None,
        })
        .collect();
    assert_eq!(expand_template(&parts, &values), "token: token-from-env, level: debug!");
}

#[test]
fn addresses_absorbed() {
    let mut data = ClientData::new(true);
    let u = absorb_addresses(&mut data, "1.1.1.1".to_string(), String::new(), true);
    assert!(u.ipv4_changed && !u.ipv6_changed && u.send);
    let u = absorb_addresses(&mut data, "1.1.1.1".to_string(), String::new(), true);
    assert!(!u.ipv4_changed && !u.ipv6_changed && !u.send);
    let u = absorb_addresses(&mut data, "1.1.1.1".to_string(), String::new(), false);
    assert!(u.send);
}

fn record(content: &str, id: &str, rtype: &str) -> CloudflareRecord {
    CloudflareRecord {
        content: content.into(),
        id: id.into(),
        record_type: rtype.into(),
        ..Default::default()
    }
}

/// Drive a run against a fake API that has one zone and the given records;
/// gives the number of writes or the error the run failed with.
fn run_against(records: Vec<CloudflareRecord>, ipv4: &str, ipv6: &str) -> Result<usize, Option<DynDnsError>> {
    let mut c = CloudflareClient::new_test("http://127.0.0.1:1/", "testtoken", false);
    c.data_mut().domains = vec!["foo.example.org".to_string()];
    c.data_mut().ipv4 = ipv4.to_string();
    c.data_mut().ipv6 = ipv6.to_string();
    let mut run = c.start_update();
    let mut event = RunEvent::Begin;
    let mut writes = 0;
    loop {
        match run.step(event) {
            RunStep::LookupZone { .. } => event = RunEvent::ZoneFound("test-zone-id".to_string()),
            RunStep::ListRecords { zone, .. } => {
                assert_eq!(zone, "test-zone-id");
                event = RunEvent::RecordsListed(Some(records.clone()));
            }
            RunStep::WriteRecord { .. } => {
                writes += 1;
                event = RunEvent::WriteDone;
            }
            RunStep::Finished => return Ok(writes),
            RunStep::Fail(e) => return Err(e),
        }
    }
}

#[test]
fn client_test_update() {
    let cases: Vec<(&str, Vec<CloudflareRecord>, &str, &str, usize)> = vec![
        ("SingleStackIPv4Update", vec![record("100.100.100.120", "1234", "A")], "100.100.100.100", "", 1),
        ("SingleStackIPv4Create", vec![], "100.100.100.100", "", 1),
        ("SingleStackIPv4NoUpdate", vec![record("100.100.100.100", "1234", "A")], "100.100.100.100", "", 0),
        ("SingleStackIPv6Update", vec![record("fd69::1234", "1234", "AAAA")], "", "fd69::dead", 1),
        ("SingleStackIPv6Create", vec![], "", "fd69::dead", 1),
        ("SingleStackIPv6NoUpdate", vec![record("fd69::dead", "1234", "AAAA")], "", "fd69::dead", 0),
        (
            "DualStackUpdate",
            vec![record("100.100.100.120", "1234", "A"), record("fd69::1234", "1234", "AAAA")],
            "100.100.100.100",
            "fd69::dead",
            2,
        ),
        ("DualStackCreate", vec![], "100.100.100.100", "fd69::dead", 2),
        (
            "DualStackNoUpdate",
            vec![record("100.100.100.100", "1234", "A"), record("fd69::dead", "1234", "AAAA")],
            "100.100.100.100",
            "fd69::dead",
            0,
        ),
        (
            "DualStackIPv4Changed",
            vec![record("100.100.100.120", "1234", "A"), record("fd69::dead", "1234", "AAAA")],
            "100.100.100.100",
            "fd69::dead",
            1,
        ),
        (
            "DualStackIPv6Changed",
            vec![record("100.100.100.100", "1234", "A"), record("fd69::1234", "1234", "AAAA")],
            "100.100.100.100",
            "fd69::dead",
            1,
        ),
        ("SingleStackIPv4ToDualStack", vec![record("100.100.100.100", "1234", "A")], "100.100.100.100", "fd69::dead", 1),
        ("SingleStackIPv6ToDualStack", vec![record("fd69::dead", "1234", "AAAA")], "100.100.100.100", "fd69::dead", 1),
        (
            "DualStackIPv4OnlyUpdate",
            vec![record("100.100.100.120", "1234", "A"), record("fd69::dead", "1234", "AAAA")],
            "100.100.100.100",
            "",
            1,
        ),
        (
            "DualStackIPv6OnlyUpdate",
            vec![record("100.100.100.100", "1234", "A"), record("fd69::1234", "1234", "AAAA")],
            "",
            "fd69::dead",
            1,
        ),
    ];
    for (name, records, ipv4, ipv6, expected) in cases {
        assert_eq!(run_against(records, ipv4, ipv6), Ok(expected), "{name}");
    }
    assert_eq!(run_against(vec![], "", ""), Err(Some(DynDnsError::NoIp)), "InvalidData (no IP)");
}

#[test]
fn updated_flag_follows_the_last_attempt() {
    // Records sent: the flag is whether sending succeeded.
    assert!(updated_after(true, true, false));
    assert!(!updated_after(true, false, true));
    // Nothing sent: the flag stays.
    assert!(updated_after(false, false, true));
    assert!(!updated_after(false, true, false));
}

#[test]
fn domains_are_set_on_the_client() {
    let mut c = CloudflareClient::new_test("http://127.0.0.1:1/", "testtoken", true);
    c.set_domains(vec!["foo.example.org".to_string()]);
    assert_eq!(c.data().domains, vec!["foo.example.org".to_string()]);
    assert!(c.data().proxy);
    assert_eq!(c.authorization(), "Bearer testtoken");
}
