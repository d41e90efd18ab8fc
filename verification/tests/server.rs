use cloudflare_dyndns::client::Client;
use cloudflare_dyndns::config::{SSLConfig, ServerConfig};
use cloudflare_dyndns::server::{
    admit_request, final_reply, RequestData, ResponseMessage, Server, SharedState,
    MESSAGE_DOMAINS_FORBIDDEN, MESSAGE_FAILED_UPDATE, MESSAGE_SUCCESS, MESSAGE_UNAUTHORIZED,
};

fn shared_state(domains: Vec<&str>) -> SharedState {
    SharedState { domains: domains.into_iter().map(|domain| domain.to_string()).collect() }
}

fn request_data() -> RequestData {
    RequestData {
        token: "testtoken".to_string(),
        domains: vec!["foo.example.org".to_string()],
        ipv4: "100.100.100.100".to_string(),
        ipv6: "fd00::dead".to_string(),
        proxy: true,
    }
}

/// The answer of the update handler up to the first call to the API: the
/// admission, then the token check, which fails without a token.
fn handle(state: SharedState, payload: RequestData) -> (u16, ResponseMessage) {
    match admit_request(&state, payload) {
        Err(refusal) => refusal,
        Ok((token, data)) => {
            let client = Client::from_data(token, data);
            match client.verify_token_url() {
                Err(_) => final_reply(false, false),
                Ok(_) => final_reply(true, true),
            }
        }
    }
}

#[test]
fn test_verify_domains_allowed() {
    let s = shared_state(vec!["example.org", "example.net"]);
    let d = vec![
        "foo.example.org".to_string(),
        "bar.example.net".to_string(),
        "example.net".to_string(),
    ];
    assert!(s.verify_domains(&d));
}

#[test]
fn test_verify_domains_whitelist_empty() {
    let s = shared_state(vec![]);
    let d = vec![
        "foo.example.org".to_string(),
        "bar.example.net".to_string(),
        "example.net".to_string(),
    ];
    assert!(s.verify_domains(&d));
}

#[test]
fn test_verify_domains_forbidden() {
    let s = shared_state(vec!["example.org"]);
    let d = vec![
        "foo.example.org".to_string(),
        "bar.example.net".to_string(),
        "example.net".to_string(),
    ];
    assert!(!s.verify_domains(&d));
}

#[test]
fn test_verify_domains_partial_match() {
    let s = shared_state(vec!["example.org"]);
    let d = vec![
        "foo.example.org".to_string(),
        "bar.notexample.org".to_string(),
        "notexample.org".to_string(),
    ];
    assert!(!s.verify_domains(&d));
}

#[test]
fn test_server_from_config() {
    let config = ServerConfig {
        port: 9090,
        domains: vec!["example.org".to_string()],
        ssl: SSLConfig::default(),
    };
    let server = Server::from_config(config.clone());
    assert_eq!(server.options.port, config.port, "Port should match config");
    assert_eq!(server.options.domains, config.domains, "Domains should match config");
    assert_eq!(server.options.ssl.enabled, config.ssl.enabled, "SSL setting should match config");
}

#[test]
fn test_update_handler_forbidden_domains() {
    let state = shared_state(vec!["example.net"]);
    let payload = request_data();

    let (status, response) = handle(state, payload);

    assert_eq!(status, 403);
    assert_eq!(response.msg, MESSAGE_DOMAINS_FORBIDDEN);
    assert!(!response.success);
}

#[test]
fn test_update_handler_invalid_ipv4() {
    let state = shared_state(vec![]);
    let mut payload = request_data();
    payload.ipv4 = "Not an IPv4".to_string();

    let (status, response) = handle(state, payload);

    assert_eq!(status, 400);
    assert_eq!(response.msg, "Invalid IPv4 address: 'Not an IPv4'");
    assert!(!response.success);
}

#[test]
fn test_update_handler_invalid_ipv6() {
    let state = shared_state(vec![]);
    let mut payload = request_data();
    payload.ipv6 = "Not an IPv6".to_string();

    let (status, response) = handle(state, payload);

    assert_eq!(status, 400);
    assert_eq!(response.msg, "Invalid IPv6 address: 'Not an IPv6'");
    assert!(!response.success);
}

#[test]
fn test_update_handler_missing_ip() {
    let state = shared_state(vec![]);
    let mut payload = request_data();
    payload.ipv4.clear();
    payload.ipv6.clear();

    let (status, response) = handle(state, payload);

    assert_eq!(status, 400);
    assert_eq!(response.msg, "At least one IP address must be provided");
    assert!(!response.success);
}

#[test]
fn test_update_handler_missing_domains() {
    let state = shared_state(vec![]);
    let mut payload = request_data();
    payload.domains.clear();

    let (status, response) = handle(state, payload);

    assert_eq!(status, 400);
    assert_eq!(response.msg, "At least one domain must be provided");
    assert!(!response.success);
}

#[test]
fn test_update_handler_missing_token() {
    let state = shared_state(vec![]);
    let mut payload = request_data();
    payload.token.clear();

    let (status, response) = handle(state, payload);

    assert_eq!(status, 401);
    assert_eq!(response.msg, MESSAGE_UNAUTHORIZED);
    assert!(!response.success);
}

#[test]
fn update_request_admitted_then_answered() {
    let payload = request_data();
    let (token, data) =
        admit_request(&shared_state(vec!["example.org", "example.net"]), payload).ok().unwrap();
    assert_eq!(token, "testtoken");
    assert_eq!(data.ipv4(), "100.100.100.100");
    assert_eq!(data.ipv6(), "fd00::dead");
    let (status, reply) = final_reply(false, false);
    assert_eq!((status, reply.msg.as_str(), reply.success), (401, MESSAGE_UNAUTHORIZED, false));
    let (status, reply) = final_reply(true, false);
    assert_eq!((status, reply.msg.as_str(), reply.success), (200, MESSAGE_FAILED_UPDATE, false));
    let (status, reply) = final_reply(true, true);
    assert_eq!((status, reply.msg.as_str(), reply.success), (200, MESSAGE_SUCCESS, true));
}

#[test]
fn verify_domains_trailing_dot_and_subdomains() {
    let s = shared_state(vec!["example.org"]);
    assert!(s.verify_domains(&vec!["a.b.c.example.org".to_string()]));
    assert!(s.verify_domains(&vec!["example.org".to_string()]));
    assert!(!s.verify_domains(&vec!["org".to_string()]));
    assert!(s.verify_domains(&vec![]));
}
