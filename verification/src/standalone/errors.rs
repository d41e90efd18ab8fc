//! The errors of the standalone client.
use vstd::prelude::*;

verus! {

/// What went wrong. The last four carry the text of an error raised while
/// reading a file, parsing YAML, talking HTTP or handling JSON.
#[derive(Debug, Clone, PartialEq)]
pub enum DynDnsError {
    MissingToken,
    MissingEndpoint,
    InvalidIp(String),
    NoIp,
    NoDomain,
    HttpRequestFailed { status: u16, body: String },
    OperationFailed(String),
    UnknownLogLevel(String),
    InvalidInterval(String),
    IncompleteSSLConfig,
    Io(String),
    Yaml(String),
    Http(String),
    Json(String),
}

} // verus!
