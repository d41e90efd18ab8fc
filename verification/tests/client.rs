use cloudflare_dyndns::client::base_domain;
use cloudflare_dyndns::client::cloudflare::{
    CloudflareResponse, Record, RecordType, Status, VerifyTokenResult, Zone, DEFAULT_API_URL,
};
use cloudflare_dyndns::client::{check_token_status, first_zone_id, unwrap_response, Client, ClientError};
use cloudflare_dyndns::config::ClientConfig;
use cloudflare_dyndns::dyndns::ClientData;

#[test]
fn test_from_config() {
    let client = Client::from_config(ClientConfig::default());
    assert_eq!(client.api_url(), DEFAULT_API_URL, "Should have default API URL");
}

#[test]
fn test_from_data() {
    let data = ClientData::new(true, vec!["example.com".to_string()]);
    let client = Client::from_data("test-token".to_string(), data);
    assert_eq!(client.api_url(), DEFAULT_API_URL, "Should have default API URL");
    assert_eq!(client.token(), "test-token", "Should have the correct token");
}

#[test]
fn test_base_domain() {
    assert_eq!(base_domain("com"), "");
    assert_eq!(base_domain("example.com"), "example.com");
    assert_eq!(base_domain("sub.example.com"), "example.com");
    assert_eq!(base_domain("foo.bar.example.com"), "example.com");
}

#[test]
fn test_verify_token_empty_token() {
    let client = Client::from_data(String::new(), ClientData::new(true, vec![]));
    let e = client.verify_token_url().expect_err("Should fail with empty token");
    assert!(e.message().contains("Missing cloudflare api token"));
    let client = Client::from_data("t".to_string(), ClientData::new(true, vec![]));
    assert_eq!(
        client.verify_token_url().unwrap(),
        "https://api.cloudflare.com/client/v4/user/tokens/verify"
    );
}

#[test]
fn test_verify_token_inactive() {
    let ok = VerifyTokenResult { id: "a".to_string(), status: Status::Active };
    assert!(check_token_status(&ok).is_ok());
    let bad = VerifyTokenResult { id: "a".to_string(), status: Status::Inactive };
    let e = check_token_status(&bad).expect_err("Should fail with inactive token");
    assert!(e.message().contains("Token is not active"));
}

#[test]
fn test_test_get_zone_id() {
    let client = Client::from_data("t".to_string(), ClientData::new(true, vec![]));
    assert_eq!(
        client.zone_lookup_url("foo.example.com").unwrap(),
        "https://api.cloudflare.com/client/v4/zones?name=example.com&status=active"
    );
    let e = client.zone_lookup_url("com").expect_err("Should fail with invalid domain");
    assert!(e.message().contains("Invalid domain"));
    let e = first_zone_id(&vec![]).expect_err("Should fail if no zone is found");
    assert!(e.message().contains("No zone found"));
    let zones = vec![Zone { id: "zone-id-123".to_string(), status: Status::Active }];
    assert_eq!(first_zone_id(&zones).unwrap(), "zone-id-123");
}

#[test]
fn test_test_get_records() {
    let client = Client::from_data("t".to_string(), ClientData::new(true, vec![]));
    assert_eq!(
        client.records_url("zone-id-123", "foo.example.com"),
        "https://api.cloudflare.com/client/v4/zones/zone-id-123/dns_records?name=foo.example.com"
    );
}

fn client_with_addresses() -> Client {
    let mut data = ClientData::new(false, vec!["foo.example.com".to_string()]);
    data.set_ipv4("100.100.100.100").unwrap();
    data.set_ipv6("fd00::dead").unwrap();
    Client::from_data("t".to_string(), data)
}

#[test]
fn test_update_record() {
    let client = client_with_addresses();
    let (url, record) =
        client.update_record_request("zone-id-123", "foo.example.com", "record-id-123", RecordType::A);
    assert_eq!(
        url,
        "https://api.cloudflare.com/client/v4/zones/zone-id-123/dns_records/record-id-123"
    );
    assert_eq!(record.content, "100.100.100.100");
    assert_eq!(record.record_type, "A");
    assert_eq!(record.ttl, 1);
    assert!(!record.proxied);
    assert_eq!(record.id, "record-id-123");
    assert_eq!(record.name, "foo.example.com");
}

#[test]
fn test_create_record() {
    let client = client_with_addresses();
    let (url, record) = client.create_record_request("zone-id-123", "foo.example.com", RecordType::A);
    assert_eq!(url, "https://api.cloudflare.com/client/v4/zones/zone-id-123/dns_records");
    assert_eq!(record.content, "100.100.100.100");
    assert_eq!(record.record_type, "A");
    assert_eq!(record.id, "");
    assert_eq!(record.name, "foo.example.com");
}

#[test]
fn test_update_record_aaaa() {
    let client = client_with_addresses();
    let (url, record) = client.update_record_request(
        "zone-id-123",
        "foo.example.com",
        "record-id-aaaa",
        RecordType::AAAA,
    );
    assert_eq!(
        url,
        "https://api.cloudflare.com/client/v4/zones/zone-id-123/dns_records/record-id-aaaa"
    );
    assert_eq!(record.content, "fd00::dead");
    assert_eq!(record.record_type, "AAAA");
    assert_eq!(record.id, "record-id-aaaa");
}

#[test]
fn test_create_record_aaaa() {
    let client = client_with_addresses();
    let (url, record) =
        client.create_record_request("zone-id-123", "foo.example.com", RecordType::AAAA);
    assert_eq!(url, "https://api.cloudflare.com/client/v4/zones/zone-id-123/dns_records");
    assert_eq!(record.content, "fd00::dead");
    assert_eq!(record.record_type, "AAAA");
    assert_eq!(record.id, "");
    assert_eq!(record.ttl, 1);
}

#[test]
fn test_verify_token_api_error() {
    let failed: CloudflareResponse<VerifyTokenResult> =
        CloudflareResponse { success: false, errors: vec![], messages: vec![], result: None };
    let e = unwrap_response(failed).err().unwrap();
    assert_eq!(e, ClientError::ApiFailure);
    assert_eq!(e.message(), "API responded with failure");
}

#[test]
fn unwrap_response_reports_failures() {
    let failed: CloudflareResponse<Record> =
        CloudflareResponse { success: false, errors: vec![], messages: vec![], result: None };
    assert_eq!(unwrap_response(failed).err(), Some(ClientError::ApiFailure));
    let empty: CloudflareResponse<Record> =
        CloudflareResponse { success: true, errors: vec![], messages: vec![], result: None };
    let e = unwrap_response(empty).err().unwrap();
    assert_eq!(e.message(), "API responded with success but returned no result");
    let full = CloudflareResponse {
        success: true,
        errors: vec![],
        messages: vec![],
        result: Some(Zone { id: "z".to_string(), status: Status::Active }),
    };
    assert_eq!(unwrap_response(full).unwrap().id, "z");
}
