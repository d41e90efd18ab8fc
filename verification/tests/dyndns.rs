use cloudflare_dyndns::dyndns::{
    force_next_update, public_ipv4_from_reply, public_ipv6_from_reply, validate_ipv4, validate_ipv6, ClientData,
    DataError,
};

#[test]
fn test_client_data_set_ipv4() {
    let test_cases = vec![("", true), ("not an ip", false), ("100.100.100.100", true)];
    let mut data = ClientData::new(false, vec![]);

    for (input, should_pass) in test_cases {
        let result = data.set_ipv4(input);
        if should_pass {
            assert!(result.is_ok(), "Expected valid IPv4 address but got error: {input}");
            assert_eq!(input, data.ipv4(), "IP should match input");
        } else {
            assert!(result.is_err(), "Expected invalid IPv4 address but got success: {input}");
            assert_ne!(input, data.ipv4(), "IP should not match input");
        }
    }
}

#[test]
fn test_client_data_set_ipv6() {
    let test_cases = vec![("", true), ("not an ip", false), ("fd00::dead", true)];
    let mut data = ClientData::new(false, vec![]);

    for (input, should_pass) in test_cases {
        let result = data.set_ipv6(input);
        if should_pass {
            assert!(result.is_ok(), "Expected valid IPv6 address but got error: {input}");
            assert_eq!(input, data.ipv6(), "IP should match input");
        } else {
            assert!(result.is_err(), "Expected invalid IPv6 address but got success: {input}");
            assert_ne!(input, data.ipv6(), "IP should not match input");
        }
    }
}

#[test]
fn test_client_data_check() {
    let mut data = ClientData::new(false, vec![]);

    // Testing with no IPs
    if let Err(e) = data.check() {
        assert!(
            e.message().contains("At least one IP address must be provided"),
            "Received wrong error: {}",
            e.message()
        );
    } else {
        panic!("Expected error but got success");
    }

    // Testing with no Domains and IPv4 only
    data.set_ipv4("100.100.100.100").expect("Should set IP");
    if let Err(e) = data.check() {
        assert!(
            e.message().contains("At least one domain must be provided"),
            "Received wrong error: {}",
            e.message()
        );
    } else {
        panic!("Expected error but got success");
    }

    // Testing with no Domains and dual stack
    data.set_ipv6("fd00::dead").expect("Should set IP");
    if let Err(e) = data.check() {
        assert!(
            e.message().contains("At least one domain must be provided"),
            "Received wrong error: {}",
            e.message()
        );
    } else {
        panic!("Expected error but got success");
    }

    // Testing with no Domains and IPv6 only
    data.set_ipv4("").expect("Should set IP");
    if let Err(e) = data.check() {
        assert!(
            e.message().contains("At least one domain must be provided"),
            "Received wrong error: {}",
            e.message()
        );
    } else {
        panic!("Expected error but got success");
    }

    // Testing with Domains set
    data.add_domain("example.com".to_string());
    assert!(data.check().is_ok(), "Should pass with 1 IP and 1 domain");
}

#[test]
fn test_validate_ipv4() {
    let test_cases = vec![
        ("", false),
        ("not an ip", false),
        ("100.100.100.100", true),
        ("172.198.10.100", true),
        ("fd00::dead", false),
    ];

    for (input, should_pass) in test_cases {
        let result = validate_ipv4(input);
        if should_pass {
            assert!(result.is_ok(), "Expected valid IPv4 address but got error: {input}");
        } else {
            assert!(result.is_err(), "Expected invalid IPv4 address but got success: {input}");
        }
    }
}

#[test]
fn test_validate_ipv6() {
    let test_cases = vec![
        ("", false),
        ("not an ip", false),
        ("100.100.100.100", false),
        ("fd69::dead", true),
        ("fd00::dead", true),
    ];

    for (input, should_pass) in test_cases {
        let result = validate_ipv6(input);
        if should_pass {
            assert!(result.is_ok(), "Expected valid IPv6 address but got error: {input}");
        } else {
            assert!(result.is_err(), "Expected invalid IPv6 address but got success: {input}");
        }
    }
}

#[test]
fn invalid_address_messages_quote_the_input() {
    let e = validate_ipv4("Not an IPv4").unwrap_err();
    assert_eq!(e.message(), "Invalid IPv4 address: 'Not an IPv4'");
    let e = validate_ipv6("Not an IPv6").unwrap_err();
    assert_eq!(e.message(), "Invalid IPv6 address: 'Not an IPv6'");
    assert!(matches!(DataError::NoDomain, DataError::NoDomain));
}

#[test]
fn address_forms() {
    // (text, IPv4, IPv6), as the standard library's address parser judges them
    let samples = [
        ("0.0.0.0", true, false),
        ("255.255.255.255", true, false),
        ("256.1.1.1", false, false),
        ("01.2.3.4", false, false),
        ("1.2.3", false, false),
        ("1.2.3.4.5", false, false),
        ("1..2.3", false, false),
        ("1.2.3.4 ", false, false),
        ("::", false, true),
        ("::1", false, true),
        ("1::", false, true),
        ("1:2:3:4:5:6:7:8", false, true),
        ("1:2:3:4:5:6:7:8:9", false, false),
        ("1:2:3:4:5:6:7::", false, true),
        ("::1:2:3:4:5:6:7", false, true),
        ("1:2:3:4:5:6:7:8::", false, false),
        ("::ffff:1.2.3.4", false, true),
        ("1:2:3:4:5:6:1.2.3.4", false, true),
        ("1:2:3:4:5:6:7:1.2.3.4", false, false),
        ("1.2.3.4::", false, false),
        ("1:::2", false, false),
        (":1::2", false, false),
        ("1::2::3", false, false),
        ("12345::", false, false),
        ("abcd::EF01", false, true),
        ("g::1", false, false),
        ("fe80::1%eth0", false, false),
        ("", false, false),
        (":", false, false),
        ("1:2:3:4:5:6:7", false, false),
        ("::1.2.3.4", false, true),
        ("1::1.2.3.4", false, true),
        ("0::0", false, true),
        ("1:2:3:4:5:6::1.2.3.4", false, false),
        ("::0.0.0.0", false, true),
        ("1::2:3:4:5:6:7", false, true),
        ("1::2:3:4:5:6:7:8", false, false),
    ];
    for (s, v4, v6) in samples {
        assert_eq!(validate_ipv4(s).is_ok(), v4, "IPv4 on {s:?}");
        assert_eq!(validate_ipv6(s).is_ok(), v6, "IPv6 on {s:?}");
    }
}

/// An update sends the records when an address changed or when it is
/// forced; `true` below stands for a call of `send_update`.
#[test]
fn test_test_update() {
    let mut data = ClientData::new(false, vec!["foo.example.com".to_string()]);
    assert_eq!(data.apply_public_addresses("100.100.100.100", "", false).unwrap(), true);
    assert!(!data.ipv4().is_empty(), "IPv4 should be set");
    assert_eq!(data.ipv4(), "100.100.100.100");
    assert_eq!(data.apply_public_addresses("100.100.100.100", "", false).unwrap(), false);
    assert_eq!(data.apply_public_addresses("100.100.100.100", "", true).unwrap(), true);
    assert!(data.apply_public_addresses("100.100.100.101", "bad", false).is_err());
    assert_eq!(data.ipv4(), "100.100.100.101");
    assert_eq!(data.ipv6(), "");
}

#[test]
fn public_addresses_come_trimmed_and_checked() {
    assert_eq!(public_ipv4_from_reply("100.100.100.100\n").unwrap(), "100.100.100.100");
    assert_eq!(public_ipv6_from_reply("  fd00::dead\n").unwrap(), "fd00::dead");
    let e = public_ipv4_from_reply("fd00::dead\n").unwrap_err();
    assert_eq!(e.message(), "Invalid IPv4 address: 'fd00::dead'");
    let e = public_ipv6_from_reply("<html>\n").unwrap_err();
    assert_eq!(e.message(), "Invalid IPv6 address: '<html>'");
}

#[test]
fn whitespace_of_every_kind_is_trimmed() {
    assert_eq!(public_ipv4_from_reply("\u{a0}\t1.2.3.4\u{3000}\r\n").unwrap(), "1.2.3.4");
    let e = public_ipv4_from_reply(" 1.2.\u{2009}3.4 ").unwrap_err();
    assert_eq!(e.message(), "Invalid IPv4 address: '1.2.\u{2009}3.4'");
}

#[test]
fn updates_are_forced_until_one_succeeds() {
    assert!(force_next_update(false));
    assert!(!force_next_update(true));
}
