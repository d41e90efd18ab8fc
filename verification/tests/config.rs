use cloudflare_dyndns::config::{
    set_log_level, ClientConfig, Config, ConfigError, LogLevel, Mode, SSLConfig, ServerConfig,
};

fn valid_config_1() -> Config {
    Config {
        log_level: "info".to_string(),
        server: ServerConfig {
            port: 8080,
            domains: vec!["example.org".to_string(), "example.net".to_string()],
            ssl: SSLConfig::default(),
        },
        client: ClientConfig {
            token: "test-token-1".to_string(),
            proxy: true,
            domains: vec!["foo.example.org".to_string()],
            interval: 300,
            endpoint: "dyndns.example.org".to_string(),
        },
    }
}

#[test]
fn set_log_level_known_names() {
    assert_eq!(set_log_level("debug"), Ok(LogLevel::Debug));
    assert_eq!(set_log_level("info"), Ok(LogLevel::Info));
    assert_eq!(set_log_level("warn"), Ok(LogLevel::Warn));
    assert_eq!(set_log_level("error"), Ok(LogLevel::Error));
    assert_eq!(set_log_level("DEBUG"), Ok(LogLevel::Debug));
    let e = set_log_level("unknown").unwrap_err();
    assert_eq!(e.message(), "Invalid log level: unknown.");
}

#[test]
fn default_config_values() {
    let c = Config::default();
    assert_eq!(c.log_level, "info");
    assert_eq!(c.server.port, 8080);
    assert!(c.server.domains.is_empty());
    assert!(!c.server.ssl.enabled);
    assert!(c.client.proxy);
    assert_eq!(c.client.interval, 300);
    assert!(c.client.token.is_empty());
    assert_eq!(c.check(Mode::Server), Ok(LogLevel::Info));
}

#[test]
fn config_checks_per_mode() {
    let c = valid_config_1();
    assert!(c.check(Mode::Server).is_ok());
    assert!(c.check(Mode::Client).is_ok());
    assert!(c.check(Mode::Relay).is_ok());

    let mut c = valid_config_1();
    c.client.token = String::new();
    assert_eq!(c.check(Mode::Client), Err(ConfigError::ClientTokenMissing));
    assert_eq!(c.check(Mode::Relay).unwrap_err().message(), "Client token cannot be empty");
    assert!(c.check(Mode::Server).is_ok());

    let mut c = valid_config_1();
    c.client.domains = vec![];
    assert_eq!(c.check(Mode::Client).unwrap_err().message(), "Client domains cannot be empty");

    let mut c = valid_config_1();
    c.client.interval = 10;
    assert_eq!(
        c.check(Mode::Relay).unwrap_err().message(),
        "Client interval cannot be less than 30 seconds"
    );

    let mut c = valid_config_1();
    c.client.endpoint = String::new();
    assert!(c.check(Mode::Client).is_ok());
    assert_eq!(c.check(Mode::Relay).unwrap_err().message(), "Client endpoint cannot be empty");

    let mut c = valid_config_1();
    c.server.ssl.enabled = true;
    c.server.ssl.cert = "server.crt".to_string();
    assert_eq!(c.check(Mode::Server).unwrap_err().message(), "SSL is enabled but key is empty");
    c.server.ssl.cert = String::new();
    c.server.ssl.key = "server.key".to_string();
    assert_eq!(c.check(Mode::Server).unwrap_err().message(), "SSL is enabled but cert is empty");

    let mut c = valid_config_1();
    c.log_level = "loud".to_string();
    assert_eq!(c.check(Mode::Server).unwrap_err().message(), "Invalid log level: loud.");
}

#[test]
fn only_the_server_may_run_without_file() {
    assert!(!Config::needs_file("", Mode::Server));
    assert!(Config::needs_file("", Mode::Client));
    assert!(Config::needs_file("", Mode::Relay));
    assert!(Config::needs_file("config.yaml", Mode::Server));
}
