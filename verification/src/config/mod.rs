//! The configuration of the three modes and the rules it must meet.
use vstd::prelude::*;
use vstd::string::*;

verus! {

pub const DEFAULT_LOG_LEVEL: &'static str = "info";

pub const DEFAULT_SERVER_PORT: u16 = 8080;

/// Five minutes, in seconds.
pub const DEFAULT_CLIENT_INTERVAL: u64 = 300;

/// The shortest interval between two checks of the client, in seconds.
pub const MIN_CLIENT_INTERVAL: u64 = 30;

/// The way the program runs.
#[derive(PartialEq, Eq, Structural, Clone, Copy, Debug)]
pub enum Mode {
    Server,
    Client,
    Relay,
}

#[derive(Debug, Clone, PartialEq)]
pub struct Config {
    /// Log level of the application
    pub log_level: String,
    /// Config for running in server mode
    pub server: ServerConfig,
    /// Config for running in client/relay mode
    pub client: ClientConfig,
}

#[derive(Debug, Clone, PartialEq)]
pub struct ServerConfig {
    /// Port to listen on. Default: 8080
    pub port: u16,
    /// List of root domains that are allowed to be updated. Allows all when empty.
    pub domains: Vec<String>,
    /// SSL config, default is no ssl
    pub ssl: SSLConfig,
}

#[derive(Debug, Clone, PartialEq)]
pub struct SSLConfig {
    /// Enable SSL. Default: false
    pub enabled: bool,
    /// SSL certificate, needs to contain the whole chain
    pub cert: String,
    /// SSL private key
    pub key: String,
}

#[derive(Debug, Clone, PartialEq)]
pub struct ClientConfig {
    /// Token for accessing the cloudflare api
    pub token: String,
    /// Indicate if entries should be proxied by cloudflare. Default: true
    pub proxy: bool,
    /// List of domains to update
    pub domains: Vec<String>,
    /// Interval in seconds in which the client should check for ip changes. Default: 300 (5m)
    pub interval: u64,
    /// Endpoint to call when using relay mode
    pub endpoint: String,
}

pub open spec fn is_default_ssl(c: SSLConfig) -> bool {
    !c.enabled && c.cert@.len() == 0 && c.key@.len() == 0
}

pub open spec fn is_default_server(c: ServerConfig) -> bool {
    c.port == DEFAULT_SERVER_PORT && c.domains@.len() == 0 && is_default_ssl(c.ssl)
}

pub open spec fn is_default_client(c: ClientConfig) -> bool {
    &&& c.token@.len() == 0
    &&& c.proxy
    &&& c.domains@.len() == 0
    &&& c.interval == DEFAULT_CLIENT_INTERVAL
    &&& c.endpoint@.len() == 0
}

pub open spec fn is_default_config(c: Config) -> bool {
    c.log_level@ == DEFAULT_LOG_LEVEL@ && is_default_server(c.server) && is_default_client(c.client)
}

impl Default for SSLConfig {
    fn default() -> (c: Self)
        ensures
            is_default_ssl(c),
    {
        SSLConfig { enabled: false, cert: String::new(), key: String::new() }
    }
}

impl Default for ServerConfig {
    fn default() -> (c: Self)
        ensures
            is_default_server(c),
    {
        ServerConfig { port: DEFAULT_SERVER_PORT, domains: Vec::new(), ssl: SSLConfig::default() }
    }
}

impl Default for ClientConfig {
    fn default() -> (c: Self)
        ensures
            is_default_client(c),
    {
        ClientConfig {
            token: String::new(),
            proxy: true,
            domains: Vec::new(),
            interval: DEFAULT_CLIENT_INTERVAL,
            endpoint: String::new(),
        }
    }
}

impl Default for Config {
    fn default() -> (c: Self)
        ensures
            is_default_config(c),
    {
        Config {
            log_level: String::from_str(DEFAULT_LOG_LEVEL),
            server: ServerConfig::default(),
            client: ClientConfig::default(),
        }
    }
}

/// Why a configuration was refused.
#[derive(Debug, Clone, PartialEq)]
pub enum ConfigError {
    InvalidLogLevel(String),
    SslCertMissing,
    SslKeyMissing,
    ClientTokenMissing,
    ClientDomainsMissing,
    ClientIntervalTooShort,
    ClientEndpointMissing,
}

impl ConfigError {
    pub open spec fn message_spec(&self) -> Seq<char> {
        match self {
            ConfigError::InvalidLogLevel(level) => "Invalid log level: "@ + level@ + "."@,
            ConfigError::SslCertMissing => "SSL is enabled but cert is empty"@,
            ConfigError::SslKeyMissing => "SSL is enabled but key is empty"@,
            ConfigError::ClientTokenMissing => "Client token cannot be empty"@,
            ConfigError::ClientDomainsMissing => "Client domains cannot be empty"@,
            ConfigError::ClientIntervalTooShort => "Client interval cannot be less than 30 seconds"@,
            ConfigError::ClientEndpointMissing => "Client endpoint cannot be empty"@,
        }
    }

    /// The text that describes the error.
    pub fn message(&self) -> (m: String)
        ensures
            m@ == self.message_spec(),
    {
        match self {
            ConfigError::InvalidLogLevel(level) => {
                let mut m = String::from_str("Invalid log level: ");
                m.append(level.as_str());
                m.append(".");
                m
            },
            ConfigError::SslCertMissing => String::from_str("SSL is enabled but cert is empty"),
            ConfigError::SslKeyMissing => String::from_str("SSL is enabled but key is empty"),
            ConfigError::ClientTokenMissing => String::from_str("Client token cannot be empty"),
            ConfigError::ClientDomainsMissing => String::from_str("Client domains cannot be empty"),
            ConfigError::ClientIntervalTooShort => String::from_str(
                "Client interval cannot be less than 30 seconds",
            ),
            ConfigError::ClientEndpointMissing => String::from_str(
                "Client endpoint cannot be empty",
            ),
        }
    }
}

impl ServerConfig {
    /// Validates the server config: with SSL enabled the cert and the key
    /// must be given.
    pub fn validate(&self) -> (r: Result<(), ConfigError>)
        ensures
            r is Ok <==> (!self.ssl.enabled || (self.ssl.cert@.len() != 0 && self.ssl.key@.len()
                != 0)),
            self.ssl.enabled && self.ssl.cert@.len() == 0 ==> r matches Err(
                ConfigError::SslCertMissing,
            ),
            self.ssl.enabled && self.ssl.cert@.len() != 0 && self.ssl.key@.len() == 0 ==> r matches Err(
                ConfigError::SslKeyMissing,
            ),
    {
        if self.ssl.enabled {
            if self.ssl.cert.as_str().unicode_len() == 0 {
                return Err(ConfigError::SslCertMissing);
            }
            if self.ssl.key.as_str().unicode_len() == 0 {
                return Err(ConfigError::SslKeyMissing);
            }
        }
        Ok(())
    }
}

impl ClientConfig {
    /// Validate the client part of the config: a token, at least one domain
    /// and an interval of at least 30 seconds.
    pub fn validate(&self) -> (r: Result<(), ConfigError>)
        ensures
            r is Ok <==> (self.token@.len() != 0 && self.domains@.len() != 0 && self.interval
                >= MIN_CLIENT_INTERVAL),
            self.token@.len() == 0 ==> r matches Err(ConfigError::ClientTokenMissing),
            self.token@.len() != 0 && self.domains@.len() == 0 ==> r matches Err(
                ConfigError::ClientDomainsMissing,
            ),
            self.token@.len() != 0 && self.domains@.len() != 0 && self.interval
                < MIN_CLIENT_INTERVAL ==> r matches Err(ConfigError::ClientIntervalTooShort),
    {
        if self.token.as_str().unicode_len() == 0 {
            return Err(ConfigError::ClientTokenMissing);
        }
        if self.domains.len() == 0 {
            return Err(ConfigError::ClientDomainsMissing);
        }
        if self.interval < MIN_CLIENT_INTERVAL {
            return Err(ConfigError::ClientIntervalTooShort);
        }
        Ok(())
    }
}

/// The check that a mode makes of a loaded configuration.
pub open spec fn mode_check(c: Config, mode: Mode) -> Option<ConfigError> {
    let server_ok = !c.server.ssl.enabled || (c.server.ssl.cert@.len() != 0
        && c.server.ssl.key@.len() != 0);
    let client_ok = c.client.token@.len() != 0 && c.client.domains@.len() != 0
        && c.client.interval >= MIN_CLIENT_INTERVAL;
    match mode {
        Mode::Server => if server_ok {
            None
        } else if c.server.ssl.cert@.len() == 0 {
            Some(ConfigError::SslCertMissing)
        } else {
            Some(ConfigError::SslKeyMissing)
        },
        _ => if !client_ok {
            if c.client.token@.len() == 0 {
                Some(ConfigError::ClientTokenMissing)
            } else if c.client.domains@.len() == 0 {
                Some(ConfigError::ClientDomainsMissing)
            } else {
                Some(ConfigError::ClientIntervalTooShort)
            }
        } else if mode == Mode::Relay && c.client.endpoint@.len() == 0 {
            Some(ConfigError::ClientEndpointMissing)
        } else {
            None
        },
    }
}

/// The verbosity of the log.
#[derive(PartialEq, Eq, Structural, Clone, Copy, Debug)]
pub enum LogLevel {
    Error,
    Warn,
    Info,
    Debug,
}

/// The level that a lowercase name stands for.
pub open spec fn level_named(name: Seq<char>) -> Option<LogLevel> {
    if name == "error"@ {
        Some(LogLevel::Error)
    } else if name == "warn"@ {
        Some(LogLevel::Warn)
    } else if name == "info"@ {
        Some(LogLevel::Info)
    } else if name == "debug"@ {
        Some(LogLevel::Debug)
    } else {
        None
    }
}

/// What `str::to_lowercase` gives for a text.
pub uninterp spec fn lowercase(s: Seq<char>) -> Seq<char>;

/// Calls `str::to_lowercase`; its result is named by `lowercase`, a function
/// of the text alone (Unicode's lowercase mapping, which this crate does not
/// write out).
#[verifier::external_body]
pub(crate) fn to_lowercase_text(s: &str) -> (r: String)
    ensures
        r@ == lowercase(s@),
{
    s.to_lowercase()
}

/// The level named by an already lowercased text.
pub fn log_level_from_lowercase(name: &str) -> (l: Option<LogLevel>)
    ensures
        l == level_named(name@),
{
    let n = String::from_str(name);
    if n == String::from_str("error") {
        Some(LogLevel::Error)
    } else if n == String::from_str("warn") {
        Some(LogLevel::Warn)
    } else if n == String::from_str("info") {
        Some(LogLevel::Info)
    } else if n == String::from_str("debug") {
        Some(LogLevel::Debug)
    } else {
        None
    }
}

/// Parse a given string into a log level, whatever its case.
pub fn set_log_level(level: &str) -> (r: Result<LogLevel, ConfigError>)
    ensures
        match level_named(lowercase(level@)) {
            Some(l) => r == Ok::<LogLevel, ConfigError>(l),
            None => r matches Err(ConfigError::InvalidLogLevel(t)) && t@ == level@,
        },
{
    let lower = to_lowercase_text(level);
    match log_level_from_lowercase(lower.as_str()) {
        Some(l) => Ok(l),
        None => Err(ConfigError::InvalidLogLevel(String::from_str(level))),
    }
}

impl Config {
    /// Whether a configuration file has to be read: only the server may run
    /// without one, on the defaults.
    pub fn needs_file(path: &str, mode: Mode) -> (b: bool)
        ensures
            b == !(path@.len() == 0 && mode == Mode::Server),
    {
        !(path.unicode_len() == 0 && mode == Mode::Server)
    }

    /// Check a loaded configuration for `mode`: its log level must be known,
    /// then the part that the mode uses must be complete (the relay also
    /// needs an endpoint). Gives the log level to apply.
    pub fn check(&self, mode: Mode) -> (r: Result<LogLevel, ConfigError>)
        ensures
            match level_named(lowercase(self.log_level@)) {
                None => r matches Err(ConfigError::InvalidLogLevel(t)) && t@ == self.log_level@,
                Some(l) => match mode_check(*self, mode) {
                    None => r == Ok::<LogLevel, ConfigError>(l),
                    Some(e) => r == Err::<LogLevel, ConfigError>(e),
                },
            },
    {
        let level = set_log_level(self.log_level.as_str())?;
        match mode {
            Mode::Server => {
                self.server.validate()?;
            },
            Mode::Client => {
                self.client.validate()?;
            },
            Mode::Relay => {
                self.client.validate()?;
                if self.client.endpoint.as_str().unicode_len() == 0 {
                    return Err(ConfigError::ClientEndpointMissing);
                }
            },
        }
        Ok(level)
    }
}

/// What each mode demands of a configuration: the server only a cert and a
/// key when SSL is on; the client a token, at least one domain and an
/// interval of at least 30 seconds; the relay, besides, an endpoint. A
/// configuration passes the mode's check exactly when it meets them.
pub proof fn law_mode_demands(c: Config)
    ensures
        mode_check(c, Mode::Server) is None <==> (!c.server.ssl.enabled || (c.server.ssl.cert@.len()
            > 0 && c.server.ssl.key@.len() > 0)),
        mode_check(c, Mode::Client) is None <==> (c.client.token@.len() > 0 && c.client.domains@.len()
            > 0 && c.client.interval >= 30),
        mode_check(c, Mode::Relay) is None <==> (c.client.token@.len() > 0 && c.client.domains@.len()
            > 0 && c.client.interval >= 30 && c.client.endpoint@.len() > 0),
{
}

} // verus!
