//! The configuration of the standalone client.
use vstd::prelude::*;
use vstd::string::*;

use crate::config::{level_named, log_level_from_lowercase, lowercase, to_lowercase_text};
use crate::standalone::errors::DynDnsError;

verus! {

pub const DEFAULT_LOG_LEVEL: &'static str = "info";

pub const DEFAULT_SERVER_PORT: u16 = 8080;

/// Five minutes, in seconds.
pub const DEFAULT_CLIENT_INTERVAL_SECS: u64 = 300;

pub const DEFAULT_METRICS_PORT: u16 = 9090;

/// The shortest interval the client accepts, in seconds.
pub const MIN_CLIENT_INTERVAL_SECS: u64 = 30;

/// A span of time: whole seconds and the nanoseconds beyond them (fewer
/// than a billion).
#[derive(Debug, Clone, Copy, PartialEq, Eq, Structural)]
pub struct Interval {
    pub secs: u64,
    pub nanos: u32,
}

pub fn default_log_level() -> (s: String)
    ensures
        s@ == DEFAULT_LOG_LEVEL@,
{
    String::from_str(DEFAULT_LOG_LEVEL)
}

pub fn default_server_port() -> (p: u16)
    ensures
        p == DEFAULT_SERVER_PORT,
{
    DEFAULT_SERVER_PORT
}

pub fn default_client_proxy() -> (b: bool)
    ensures
        b,
{
    true
}

pub fn default_client_interval() -> (i: Interval)
    ensures
        i == (Interval { secs: DEFAULT_CLIENT_INTERVAL_SECS, nanos: 0 }),
{
    Interval { secs: DEFAULT_CLIENT_INTERVAL_SECS, nanos: 0 }
}

pub fn default_metrics_port() -> (p: u16)
    ensures
        p == DEFAULT_METRICS_PORT,
{
    DEFAULT_METRICS_PORT
}

pub fn default_go_collector() -> (b: bool)
    ensures
        b,
{
    true
}

pub fn default_process_collector() -> (b: bool)
    ensures
        b,
{
    true
}

#[derive(Debug, Clone, PartialEq)]
pub struct Config {
    pub log_level: String,
    pub server: ServerConfig,
    pub client: ClientConfig,
    pub metrics: MetricsConfig,
}

#[derive(Debug, Clone, PartialEq)]
pub struct ServerConfig {
    pub port: u16,
    pub domains: Vec<String>,
    pub ssl: SslConfig,
}

#[derive(Debug, Clone, PartialEq)]
pub struct SslConfig {
    pub enabled: bool,
    pub cert: String,
    pub key: String,
}

#[derive(Debug, Clone, PartialEq)]
pub struct ClientConfig {
    pub token: String,
    pub proxy: bool,
    pub domains: Vec<String>,
    pub interval: Interval,
    pub endpoint: String,
}

#[derive(Debug, Clone, PartialEq)]
pub struct MetricsConfig {
    pub enabled: bool,
    pub port: u16,
    pub go_collector: bool,
    pub process_collector: bool,
}

impl Default for SslConfig {
    fn default() -> (c: Self)
        ensures
            !c.enabled && c.cert@.len() == 0 && c.key@.len() == 0,
    {
        SslConfig { enabled: false, cert: String::new(), key: String::new() }
    }
}

impl Default for ServerConfig {
    fn default() -> (c: Self)
        ensures
            c.port == DEFAULT_SERVER_PORT,
            c.domains@.len() == 0,
            !c.ssl.enabled && c.ssl.cert@.len() == 0 && c.ssl.key@.len() == 0,
    {
        ServerConfig { port: DEFAULT_SERVER_PORT, domains: Vec::new(), ssl: SslConfig::default() }
    }
}

impl Default for ClientConfig {
    fn default() -> (c: Self)
        ensures
            c.token@.len() == 0,
            c.proxy,
            c.domains@.len() == 0,
            c.interval == (Interval { secs: DEFAULT_CLIENT_INTERVAL_SECS, nanos: 0 }),
            c.endpoint@.len() == 0,
    {
        ClientConfig {
            token: String::new(),
            proxy: true,
            domains: Vec::new(),
            interval: default_client_interval(),
            endpoint: String::new(),
        }
    }
}

impl Default for MetricsConfig {
    fn default() -> (c: Self)
        ensures
            !c.enabled,
            c.port == DEFAULT_METRICS_PORT,
            c.go_collector,
            c.process_collector,
    {
        MetricsConfig {
            enabled: false,
            port: DEFAULT_METRICS_PORT,
            go_collector: true,
            process_collector: true,
        }
    }
}

impl Default for Config {
    fn default() -> (c: Self)
        ensures
            c.log_level@ == DEFAULT_LOG_LEVEL@,
            c.server.port == DEFAULT_SERVER_PORT,
            c.server.domains@.len() == 0,
            !c.server.ssl.enabled,
            c.client.token@.len() == 0,
            c.client.proxy,
            c.client.domains@.len() == 0,
            c.client.interval == (Interval { secs: DEFAULT_CLIENT_INTERVAL_SECS, nanos: 0 }),
            c.client.endpoint@.len() == 0,
            !c.metrics.enabled,
            c.metrics.port == DEFAULT_METRICS_PORT,
    {
        Config {
            log_level: default_log_level(),
            server: ServerConfig::default(),
            client: ClientConfig::default(),
            metrics: MetricsConfig::default(),
        }
    }
}

/// What humantime's `format_duration` writes for a span.
pub uninterp spec fn humantime_text(secs: u64, nanos: u32) -> Seq<char>;

/// Calls `humantime::format_duration` (through humantime_serde) on the span
/// of `secs` seconds and `nanos` nanoseconds and gives its text, named by
/// `humantime_text`, a function of the span alone.
#[verifier::external_body]
fn format_interval(secs: u64, nanos: u32) -> (t: String)
    requires
        nanos < 1_000_000_000,
    ensures
        t@ == humantime_text(secs, nanos),
{
    humantime_serde::re::humantime::format_duration(std::time::Duration::new(secs, nanos)).to_string()
}

impl Config {
    /// Validate config for client mode: a token, at least one domain and an
    /// interval of at least 30 seconds.
    pub fn validate_client(&self) -> (r: Result<(), DynDnsError>)
        requires
            self.client.interval.nanos < 1_000_000_000,
        ensures
            self.client.token@.len() == 0 ==> r == Err::<(), DynDnsError>(DynDnsError::MissingToken),
            self.client.token@.len() != 0 && self.client.domains@.len() == 0 ==> r == Err::<
                (),
                DynDnsError,
            >(DynDnsError::NoDomain),
            self.client.token@.len() != 0 && self.client.domains@.len() != 0
                && self.client.interval.secs < MIN_CLIENT_INTERVAL_SECS ==> (r matches Err(
                DynDnsError::InvalidInterval(t),
            ) && t@ == humantime_text(self.client.interval.secs, self.client.interval.nanos)),
            r is Ok <==> (self.client.token@.len() != 0 && self.client.domains@.len() != 0
                && self.client.interval.secs >= MIN_CLIENT_INTERVAL_SECS),
    {
        if self.client.token.as_str().unicode_len() == 0 {
            return Err(DynDnsError::MissingToken);
        }
        if self.client.domains.len() == 0 {
            return Err(DynDnsError::NoDomain);
        }
        if self.client.interval.secs < MIN_CLIENT_INTERVAL_SECS {
            return Err(
                DynDnsError::InvalidInterval(
                    format_interval(self.client.interval.secs, self.client.interval.nanos),
                ),
            );
        }
        Ok(())
    }
}

/// Check a log level name, whatever its case: debug, info, warn or error.
pub fn set_log_level(level: &str) -> (r: Result<(), DynDnsError>)
    ensures
        r is Ok <==> level_named(lowercase(level@)) is Some,
        r matches Err(e) ==> (e matches DynDnsError::UnknownLogLevel(t) && t@ == level@),
{
    let lower = to_lowercase_text(level);
    match log_level_from_lowercase(lower.as_str()) {
        Some(_) => Ok(()),
        None => Err(DynDnsError::UnknownLogLevel(String::from_str(level))),
    }
}

} // verus!

verus! {

/// One piece of a text in which environment variables are referenced.
pub enum TemplatePart {
    /// Text taken as it is (one character).
    Literal(String),
    /// A reference to the variable of this name.
    Variable(String),
}

pub enum TemplatePartView {
    Literal(Seq<char>),
    Variable(Seq<char>),
}

impl View for TemplatePart {
    type V = TemplatePartView;

    open spec fn view(&self) -> TemplatePartView {
        match self {
            TemplatePart::Literal(t) => TemplatePartView::Literal(t@),
            TemplatePart::Variable(n) => TemplatePartView::Variable(n@),
        }
    }
}

pub open spec fn parts_view(parts: Seq<TemplatePart>) -> Seq<TemplatePartView> {
    parts.map_values(|p: TemplatePart| p@)
}

/// A character of a variable name: an ASCII letter or digit, or `_`.
pub open spec fn is_name_char(c: char) -> bool {
    ||| c == '_'
    ||| ('0' <= c && c <= '9')
    ||| ('a' <= c && c <= 'z')
    ||| ('A' <= c && c <= 'Z')
}

/// A character that alone names a special variable after `$`: a digit or
/// one of `*#$@!?-`.
pub open spec fn is_special_name(c: char) -> bool {
    ||| ('0' <= c && c <= '9')
    ||| c == '*'
    ||| c == '#'
    ||| c == '$'
    ||| c == '@'
    ||| c == '!'
    ||| c == '?'
    ||| c == '-'
}

/// The first position at or after `from` that holds `}`, or the end.
pub open spec fn brace_end(s: Seq<char>, from: int) -> int
    decreases s.len() - from,
{
    if from < 0 || from >= s.len() {
        s.len() as int
    } else if s[from] == '}' {
        from
    } else {
        brace_end(s, from + 1)
    }
}

/// The first position at or after `from` that does not hold a name
/// character, or the end.
pub open spec fn word_end(s: Seq<char>, from: int) -> int
    decreases s.len() - from,
{
    if from < 0 || from >= s.len() {
        s.len() as int
    } else if is_name_char(s[from]) {
        word_end(s, from + 1)
    } else {
        from
    }
}

/// The pieces of `s` from position `i` on, by the rules of a shell's
/// `$` expansion:
/// - `${NAME}` references `NAME` (everything up to the next `}`); `${}` and
///   a `${` that no `}` closes are dropped;
/// - `$` followed by a digit or one of `*#$@!?-` references that one
///   character;
/// - `$NAME` references the longest run of ASCII letters, digits and `_`;
/// - a `$` that starts none of these, or ends the text, stands for itself,
///   as does every other character.
pub open spec fn template_from(s: Seq<char>, i: int) -> Seq<TemplatePartView>
    decreases s.len() + 1 - i,
{
    if i < 0 || i >= s.len() {
        Seq::empty()
    } else if s[i] != '$' {
        seq![TemplatePartView::Literal(seq![s[i]])] + template_from(s, i + 1)
    } else if i + 1 >= s.len() {
        seq![TemplatePartView::Literal(seq!['$'])]
    } else if s[i + 1] == '{' {
        let e = brace_end(s, i + 2);
        proof {
            lemma_brace_end(s, i + 2);
        }
        if e >= s.len() {
            template_from(s, i + 2)
        } else if e == i + 2 {
            template_from(s, e + 1)
        } else {
            seq![TemplatePartView::Variable(s.subrange(i + 2, e))] + template_from(s, e + 1)
        }
    } else if is_special_name(s[i + 1]) {
        seq![TemplatePartView::Variable(seq![s[i + 1]])] + template_from(s, i + 2)
    } else {
        let e = word_end(s, i + 1);
        proof {
            lemma_word_end(s, i + 1);
        }
        if e == i + 1 {
            seq![TemplatePartView::Literal(seq!['$'])] + template_from(s, i + 1)
        } else {
            seq![TemplatePartView::Variable(s.subrange(i + 1, e))] + template_from(s, e)
        }
    }
}

pub proof fn lemma_brace_end(s: Seq<char>, from: int)
    requires
        0 <= from <= s.len(),
    ensures
        from <= brace_end(s, from) <= s.len(),
        brace_end(s, from) < s.len() ==> s[brace_end(s, from)] == '}',
    decreases s.len() - from,
{
    if from < s.len() && s[from] != '}' {
        lemma_brace_end(s, from + 1);
    }
}

pub proof fn lemma_word_end(s: Seq<char>, from: int)
    requires
        0 <= from <= s.len(),
    ensures
        from <= word_end(s, from) <= s.len(),
    decreases s.len() - from,
{
    if from < s.len() && is_name_char(s[from]) {
        lemma_word_end(s, from + 1);
    }
}

/// Each character of `s` taken as it is.
pub open spec fn literal_parts(s: Seq<char>) -> Seq<TemplatePartView>
    decreases s.len(),
{
    if s.len() == 0 {
        Seq::empty()
    } else {
        seq![TemplatePartView::Literal(seq![s[0]])] + literal_parts(s.subrange(1, s.len() as int))
    }
}

proof fn lemma_template_literal_from(s: Seq<char>, i: int)
    requires
        0 <= i <= s.len(),
        !s.contains('$'),
    ensures
        template_from(s, i) == literal_parts(s.subrange(i, s.len() as int)),
    decreases s.len() - i,
{
    let rest = s.subrange(i, s.len() as int);
    if i < s.len() {
        assert(s[i] != '$');
        lemma_template_literal_from(s, i + 1);
        assert(rest[0] == s[i]);
        assert(rest.subrange(1, rest.len() as int) =~= s.subrange(i + 1, s.len() as int));
    } else {
        assert(rest.len() == 0);
    }
}

/// A text without `$` references no variable: it splits into its own
/// characters, so expanding it leaves it unchanged.
pub proof fn law_template_without_references(s: Seq<char>)
    requires
        !s.contains('$'),
    ensures
        template_from(s, 0) == literal_parts(s),
{
    lemma_template_literal_from(s, 0);
    assert(s.subrange(0, s.len() as int) =~= s);
}

fn find_brace_end(s: &str, n: usize, from: usize) -> (e: usize)
    requires
        n == s@.len(),
        from <= n,
    ensures
        e == brace_end(s@, from as int),
{
    let mut i = from;
    while i < n
        invariant
            n == s@.len(),
            from <= i <= n,
            brace_end(s@, from as int) == brace_end(s@, i as int),
        decreases n - i,
    {
        if s.get_char(i) == '}' {
            return i;
        }
        i = i + 1;
    }
    i
}

fn is_name_character(c: char) -> (b: bool)
    ensures
        b == is_name_char(c),
{
    c == '_' || ('0' <= c && c <= '9') || ('a' <= c && c <= 'z') || ('A' <= c && c <= 'Z')
}

fn is_special_character(c: char) -> (b: bool)
    ensures
        b == is_special_name(c),
{
    ('0' <= c && c <= '9') || c == '*' || c == '#' || c == '$' || c == '@' || c == '!' || c == '?'
        || c == '-'
}

fn find_word_end(s: &str, n: usize, from: usize) -> (e: usize)
    requires
        n == s@.len(),
        from <= n,
    ensures
        e == word_end(s@, from as int),
{
    let mut i = from;
    while i < n
        invariant
            n == s@.len(),
            from <= i <= n,
            word_end(s@, from as int) == word_end(s@, i as int),
        decreases n - i,
    {
        if !is_name_character(s.get_char(i)) {
            return i;
        }
        i = i + 1;
    }
    i
}

/// Split a text into literal characters and references to environment
/// variables (see `template_from` for the rules); the caller looks up the
/// values and `expand_template` puts them in.
pub fn env_template(s: &str) -> (parts: Vec<TemplatePart>)
    ensures
        parts_view(parts@) == template_from(s@, 0),
{
    let n = s.unicode_len();
    let mut parts: Vec<TemplatePart> = Vec::new();
    let mut i: usize = 0;
    assert(parts_view(parts@) + template_from(s@, 0) =~= template_from(s@, 0));
    while i < n
        invariant
            n == s@.len(),
            i <= n,
            template_from(s@, 0) == parts_view(parts@) + template_from(s@, i as int),
        decreases n - i,
    {
        let ghost before = parts@;
        let ghost start = i as int;
        let c = s.get_char(i);
        if c != '$' {
            parts.push(TemplatePart::Literal(String::from_str(s.substring_char(i, i + 1))));
            proof {
                assert(s@.subrange(start, start + 1) =~= seq![c]);
            }
            i = i + 1;
        } else if i + 1 >= n {
            proof {
                reveal_strlit("$");
                assert("$"@ =~= seq!['$']);
            }
            parts.push(TemplatePart::Literal(String::from_str("$")));
            i = n;
        } else {
            let c2 = s.get_char(i + 1);
            if c2 == '{' {
                let e = find_brace_end(s, n, i + 2);
                proof {
                    lemma_brace_end(s@, i + 2);
                }
                if e >= n {
                    i = i + 2;
                } else if e == i + 2 {
                    i = e + 1;
                } else {
                    parts.push(TemplatePart::Variable(String::from_str(s.substring_char(i + 2, e))));
                    i = e + 1;
                }
            } else if is_special_character(c2) {
                parts.push(TemplatePart::Variable(String::from_str(s.substring_char(i + 1, i + 2))));
                proof {
                    assert(s@.subrange(start + 1, start + 2) =~= seq![c2]);
                }
                i = i + 2;
            } else {
                let e = find_word_end(s, n, i + 1);
                proof {
                    lemma_word_end(s@, i + 1);
                }
                if e == i + 1 {
                    proof {
                        reveal_strlit("$");
                        assert("$"@ =~= seq!['$']);
                    }
                    parts.push(TemplatePart::Literal(String::from_str("$")));
                    i = i + 1;
                } else {
                    parts.push(TemplatePart::Variable(String::from_str(s.substring_char(i + 1, e))));
                    i = e;
                }
            }
        }
        assert(parts_view(parts@) =~= parts_view(before) + (parts@.subrange(before.len() as int, parts@.len() as int).map_values(|p: TemplatePart| p@)));
        assert(template_from(s@, 0) =~= parts_view(parts@) + template_from(s@, i as int));
    }
    parts
}

/// The value a lookup gave for the part at `k`: nothing when the variable
/// is not set.
pub open spec fn value_at(values: Seq<Option<String>>, k: int) -> Seq<char> {
    if 0 <= k < values.len() && values[k] is Some {
        values[k]->0@
    } else {
        Seq::empty()
    }
}

/// The text with each literal taken as it is and the part at `k`, a
/// reference, replaced by `value_at(values, k)`.
pub open spec fn expanded(parts: Seq<TemplatePartView>, values: Seq<Option<String>>) -> Seq<char>
    decreases parts.len(),
{
    if parts.len() == 0 {
        Seq::empty()
    } else {
        expanded(parts.drop_last(), values) + match parts.last() {
            TemplatePartView::Literal(t) => t,
            TemplatePartView::Variable(_) => value_at(values, parts.len() - 1),
        }
    }
}

/// Put the looked-up values into a template: `values[k]` is the value of
/// the variable that part `k` references, `None` (or no entry) when it is
/// not set, which expands to nothing.
pub fn expand_template(parts: &Vec<TemplatePart>, values: &Vec<Option<String>>) -> (text: String)
    ensures
        text@ == expanded(parts_view(parts@), values@),
{
    let mut text = String::new();
    let mut k: usize = 0;
    while k < parts.len()
        invariant
            k <= parts@.len(),
            text@ == expanded(parts_view(parts@).take(k as int), values@),
        decreases parts@.len() - k,
    {
        let ghost pv = parts_view(parts@);
        assert(pv.take(k + 1).drop_last() =~= pv.take(k as int));
        match &parts[k] {
            TemplatePart::Literal(t) => {
                text.append(t.as_str());
            },
            TemplatePart::Variable(_) => {
                if k < values.len() {
                    match &values[k] {
                        Some(v) => {
                            text.append(v.as_str());
                        },
                        None => {},
                    }
                }
            },
        }
        k = k + 1;
    }
    assert(parts_view(parts@).take(parts@.len() as int) =~= parts_view(parts@));
    text
}

/// An ASCII letter, digit or `_`.
pub open spec fn ascii_word_char(c: char) -> bool {
    c == '_' || ('0' <= c && c <= '9') || ('a' <= c && c <= 'z') || ('A' <= c && c <= 'Z')
}

proof fn lemma_word_end_at(s: Seq<char>, from: int, e: int)
    requires
        0 <= from <= e <= s.len(),
        forall|k: int| from <= k < e ==> ascii_word_char(#[trigger] s[k]),
        e == s.len() || !ascii_word_char(s[e]),
    ensures
        word_end(s, from) == e,
    decreases e - from,
{
    if from < e {
        lemma_word_end_at(s, from + 1, e);
    }
}

/// A `$` followed by an ASCII letter or `_` starts a reference to the
/// longest run of ASCII letters, digits and `_` after it; the text goes on
/// after that run.
pub proof fn law_dollar_name_is_reference(s: Seq<char>, i: int, e: int)
    requires
        0 <= i,
        i + 1 < e <= s.len(),
        s[i] == '$',
        ('a' <= s[i + 1] && s[i + 1] <= 'z') || ('A' <= s[i + 1] && s[i + 1] <= 'Z') || s[i + 1] == '_',
        forall|k: int| i + 1 <= k < e ==> ascii_word_char(#[trigger] s[k]),
        e == s.len() || !ascii_word_char(s[e]),
    ensures
        template_from(s, i) == seq![TemplatePartView::Variable(s.subrange(i + 1, e))] + template_from(
            s,
            e,
        ),
{
    lemma_word_end_at(s, i + 1, e);
}

/// A `$` followed by a digit or one of `*#$@!?-` references that one
/// character.
pub proof fn law_dollar_special_is_reference(s: Seq<char>, i: int)
    requires
        0 <= i,
        i + 1 < s.len(),
        s[i] == '$',
        ('0' <= s[i + 1] && s[i + 1] <= '9') || s[i + 1] == '*' || s[i + 1] == '#' || s[i + 1] == '$'
            || s[i + 1] == '@' || s[i + 1] == '!' || s[i + 1] == '?' || s[i + 1] == '-',
    ensures
        template_from(s, i) == seq![TemplatePartView::Variable(seq![s[i + 1]])] + template_from(s, i + 2),
{
}

proof fn lemma_brace_end_at(s: Seq<char>, from: int, e: int)
    requires
        0 <= from <= e < s.len(),
        s[e] == '}',
        forall|k: int| from <= k < e ==> #[trigger] s[k] != '}',
    ensures
        brace_end(s, from) == e,
    decreases e - from,
{
    if from < e {
        lemma_brace_end_at(s, from + 1, e);
    }
}

/// `${NAME}` with a name that is not empty references everything between
/// the braces, up to the first `}`.
pub proof fn law_braced_name_is_reference(s: Seq<char>, i: int, e: int)
    requires
        0 <= i,
        i + 2 < e < s.len(),
        s[i] == '$',
        s[i + 1] == '{',
        s[e] == '}',
        forall|k: int| i + 2 <= k < e ==> #[trigger] s[k] != '}',
    ensures
        template_from(s, i) == seq![TemplatePartView::Variable(s.subrange(i + 2, e))] + template_from(
            s,
            e + 1,
        ),
{
    lemma_brace_end_at(s, i + 2, e);
}

/// Every character other than `$` stands for itself.
pub proof fn law_plain_character_is_literal(s: Seq<char>, i: int)
    requires
        0 <= i < s.len(),
        s[i] != '$',
    ensures
        template_from(s, i) == seq![TemplatePartView::Literal(seq![s[i]])] + template_from(s, i + 1),
{
}

/// A `$` that ends the text, or that is followed by a character that
/// starts no reference (not `{`, a letter, a digit, `_` or one of
/// `*#$@!?-`), stands for itself.
pub proof fn law_lone_dollar_is_literal(s: Seq<char>, i: int)
    requires
        0 <= i < s.len(),
        s[i] == '$',
        i + 1 < s.len() ==> !(s[i + 1] == '{' || ascii_word_char(s[i + 1]) || s[i + 1] == '*' || s[i
            + 1] == '#' || s[i + 1] == '$' || s[i + 1] == '@' || s[i + 1] == '!' || s[i + 1] == '?'
            || s[i + 1] == '-'),
    ensures
        i + 1 == s.len() ==> template_from(s, i) == seq![TemplatePartView::Literal(seq!['$'])],
        i + 1 < s.len() ==> template_from(s, i) == seq![TemplatePartView::Literal(seq!['$'])]
            + template_from(s, i + 1),
{
    if i + 1 < s.len() {
        lemma_word_end_at(s, i + 1, i + 1);
    }
}

/// `${}`, and a `${` that no `}` closes, are dropped: the text goes on
/// right after them.
pub proof fn law_broken_braces_are_dropped(s: Seq<char>, i: int)
    requires
        0 <= i,
        i + 1 < s.len(),
        s[i] == '$',
        s[i + 1] == '{',
    ensures
        (i + 2 < s.len() && s[i + 2] == '}') ==> template_from(s, i) == template_from(s, i + 3),
        (forall|k: int| i + 2 <= k < s.len() ==> #[trigger] s[k] != '}') ==> template_from(s, i)
            == template_from(s, i + 2),
{
    if i + 2 < s.len() && s[i + 2] == '}' {
        lemma_brace_end_at(s, i + 2, i + 2);
    }
    if forall|k: int| i + 2 <= k < s.len() ==> #[trigger] s[k] != '}' {
        lemma_no_brace(s, i + 2);
    }
}

proof fn lemma_no_brace(s: Seq<char>, from: int)
    requires
        0 <= from <= s.len(),
        forall|k: int| from <= k < s.len() ==> #[trigger] s[k] != '}',
    ensures
        brace_end(s, from) == s.len(),
    decreases s.len() - from,
{
    if from < s.len() {
        lemma_no_brace(s, from + 1);
    }
}

proof fn lemma_expanded_prepend_literal(t: Seq<char>, rest: Seq<TemplatePartView>, values: Seq<Option<String>>)
    requires
        forall|k: int| 0 <= k < rest.len() ==> (#[trigger] rest[k]) is Literal,
    ensures
        expanded(seq![TemplatePartView::Literal(t)] + rest, values) == t + expanded(rest, values),
    decreases rest.len(),
{
    let all = seq![TemplatePartView::Literal(t)] + rest;
    if rest.len() == 0 {
        assert(all.drop_last() =~= Seq::<TemplatePartView>::empty());
        assert(all.last() == TemplatePartView::Literal(t));
        assert(expanded(Seq::<TemplatePartView>::empty(), values) == Seq::<char>::empty());
        assert(expanded(all, values) == expanded(all.drop_last(), values) + t);
        assert(rest =~= Seq::<TemplatePartView>::empty());
        assert(t + Seq::<char>::empty() =~= t);
        assert(Seq::<char>::empty() + t =~= t);
    } else {
        let init = rest.drop_last();
        assert forall|k: int| 0 <= k < init.len() implies (#[trigger] init[k]) is Literal by {
            assert(init[k] == rest[k]);
        }
        lemma_expanded_prepend_literal(t, init, values);
        assert(all.drop_last() =~= seq![TemplatePartView::Literal(t)] + init);
        assert(all.last() == rest.last());
        assert(rest.last() is Literal);
        let lt = rest.last()->Literal_0;
        assert(expanded(all, values) == expanded(all.drop_last(), values) + lt);
        assert(expanded(rest, values) == expanded(init, values) + lt);
        assert(t + expanded(init, values) + lt =~= t + (expanded(init, values) + lt));
    }
}

proof fn lemma_literal_parts_literal(s: Seq<char>)
    ensures
        forall|k: int| 0 <= k < literal_parts(s).len() ==> (#[trigger] literal_parts(s)[k]) is Literal,
        forall|v: Seq<Option<String>>| expanded(literal_parts(s), v) == s,
    decreases s.len(),
{
    if s.len() > 0 {
        let rest = s.subrange(1, s.len() as int);
        lemma_literal_parts_literal(rest);
        let lp = literal_parts(rest);
        assert forall|k: int| 0 <= k < literal_parts(s).len() implies (#[trigger] literal_parts(s)[k]) is Literal by {
            if k > 0 {
                assert(literal_parts(s)[k] == lp[k - 1]);
            }
        }
        assert forall|v: Seq<Option<String>>| expanded(literal_parts(s), v) == s by {
            lemma_expanded_prepend_literal(seq![s[0]], lp, v);
            assert(seq![s[0]] + rest =~= s);
        }
    } else {
        assert(literal_parts(s) =~= Seq::<TemplatePartView>::empty());
        assert(s =~= Seq::<char>::empty());
    }
}

/// Expanding a text without `$` gives the text back, whatever the
/// environment holds.
pub proof fn law_expanding_plain_text_keeps_it(s: Seq<char>, values: Seq<Option<String>>)
    requires
        !s.contains('$'),
    ensures
        expanded(template_from(s, 0), values) == s,
{
    law_template_without_references(s);
    lemma_literal_parts_literal(s);
}

/// A reference expands to the value looked up for it, after the text
/// before it: appending a reference appends its value (nothing when the
/// variable is not set), appending a literal appends the literal.
pub proof fn law_expanding_appends_values(parts: Seq<TemplatePartView>, x: TemplatePartView, values: Seq<Option<String>>)
    ensures
        expanded(parts.push(x), values) == expanded(parts, values) + match x {
            TemplatePartView::Literal(t) => t,
            TemplatePartView::Variable(_) => if parts.len() < values.len() && values[parts.len() as int] is Some {
                values[parts.len() as int]->0@
            } else {
                Seq::<char>::empty()
            },
        },
{
    assert(parts.push(x).drop_last() =~= parts);
}

} // verus!
