use cloudflare_dyndns::config::ClientConfig;
use cloudflare_dyndns::dyndns::{ClientData, DataError};
use cloudflare_dyndns::relay::{judge_reply, Relay};
use cloudflare_dyndns::server::ResponseMessage;

#[test]
fn test_relay_from_config() {
    let mut config = ClientConfig::default();
    config.endpoint = "http://example.com/".to_string();
    config.token = "testtoken".to_string();
    config.domains = vec!["example.com".to_string()];

    let relay = Relay::from_config(config.clone());
    assert_eq!(config.endpoint, relay.endpoint(), "Endpoint should match the config");
    assert_eq!(config.token, relay.token(), "Token should match the config");
    assert_eq!(config.domains, relay.data().domains, "Domains should match the config");
    assert_eq!(config.proxy, relay.data().proxy, "Proxy setting should match the config");
}

#[test]
fn test_relay_send_update_invalid_data() {
    let relay = Relay::new(
        "http://example.com/".to_string(),
        "testtoken".to_string(),
        ClientData::new(true, vec![]),
    );
    let e = relay.update_payload().expect_err("Should fail to build payload");
    assert!(matches!(e, DataError::NoAddress));

    let mut relay = Relay::new(
        "http://example.com/".to_string(),
        "testtoken".to_string(),
        ClientData::new(true, vec!["example.com".to_string()]),
    );
    relay.data_mut().set_ipv4("100.100.100.100").expect("Should set ipv4");
    let p = relay.update_payload().expect("Should build payload");
    assert_eq!(p.token, "testtoken");
    assert_eq!(p.domains, vec!["example.com".to_string()]);
    assert_eq!(p.ipv4, "100.100.100.100");
    assert_eq!(p.ipv6, "");
    assert!(p.proxy);
}

#[test]
fn test_relay_send_update_success() {
    let good = ResponseMessage { msg: "Updated dyndns records".to_string(), success: true };
    assert!(judge_reply(true, "200 OK", &good).is_ok());
}

#[test]
fn test_relay_send_update_failed_status() {
    let good = ResponseMessage { msg: "Updated dyndns records".to_string(), success: true };
    let e = judge_reply(false, "500 Internal Server Error", &good).unwrap_err();
    assert_eq!(
        e,
        "Failed to update records, status: '500 Internal Server Error': Updated dyndns records"
    );
}

#[test]
fn test_relay_send_update_success_false() {
    let refused = ResponseMessage { msg: "Updated dyndns records".to_string(), success: false };
    let e = judge_reply(true, "200 OK", &refused).unwrap_err();
    assert!(e.contains("Failed to update records, status:"));
}
