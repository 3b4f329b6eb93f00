//! Settings of the exporter: where it listens, which collectors run, how
//! often they run, and how they come from the process environment.
use crate::text::{
    chars_eq, chars_of, decimal_chars, decimal_digits, opt_chars, parse_u16, parse_u64,
    parse_unsigned, push_chars,
};
use vstd::prelude::*;

verus! {

/// The deployment the exporter runs in.
#[derive(Debug, Clone, Copy, PartialEq, Eq, Structural)]
pub enum Environment {
    Development,
    Production,
}

/// The exporter's settings.
#[derive(Debug, Clone)]
pub struct Config {
    pub host: String,
    pub port: u16,
    pub environment: Environment,
    pub host_proc: String,
    pub enable_docker_metrics: bool,
    pub enable_raspi_metrics: bool,
    pub enable_node_metrics: bool,
    pub metrics_interval_sec: u64,
}

/// The raw values of the environment variables that configure the exporter;
/// `None` where a variable is unset (or not valid Unicode).
#[derive(Debug, Clone)]
pub struct EnvSettings {
    /// `ENVIRONMENT`
    pub environment: Option<String>,
    /// `SERVER_HOST`
    pub server_host: Option<String>,
    /// `SERVER_PORT`
    pub server_port: Option<String>,
    /// `HOST_PROC`
    pub host_proc: Option<String>,
    /// `ENABLE_DOCKER_METRICS`
    pub enable_docker_metrics: Option<String>,
    /// `ENABLE_RASPI_METRICS`
    pub enable_raspi_metrics: Option<String>,
    /// `ENABLE_NODE_METRICS`
    pub enable_node_metrics: Option<String>,
    /// `METRICS_INTERVAL_SEC`
    pub metrics_interval_sec: Option<String>,
}

/// Host the server listens on when `SERVER_HOST` is unset.
pub open spec fn default_host() -> Seq<char> {
    "127.0.0.1"@
}

/// Port the server listens on when `SERVER_PORT` is unset or not a port.
pub const DEFAULT_PORT: u16 = 8080;

/// Seconds between two collections when `METRICS_INTERVAL_SEC` is unset or
/// not a number.
pub const DEFAULT_INTERVAL_SEC: u64 = 15;

/// Root of the proc file system when `HOST_PROC` is unset.
pub open spec fn default_host_proc() -> Seq<char> {
    "/proc"@
}

/// What `str::to_lowercase` gives for a text (Unicode lower-case mapping).
pub uninterp spec fn lowercase(s: Seq<char>) -> Seq<char>;

/// Every character of `s` is ASCII.
pub open spec fn all_ascii(s: Seq<char>) -> bool {
    forall|i: int| 0 <= i < s.len() ==> (#[trigger] s[i]) < '\u{80}'
}

/// `s` with the ASCII capitals `A` to `Z` turned into `a` to `z`.
pub open spec fn ascii_lower(s: Seq<char>) -> Seq<char> {
    s.map_values(|c: char| if 'A' <= c && c <= 'Z' { ((c as int) + 32) as char } else { c })
}

/// `str::to_lowercase`: the contract claims that the result is a function
/// of the text's characters, named `lowercase`, and that on ASCII text it
/// turns the capitals `A` to `Z` into `a` to `z` and keeps every other
/// character (the Unicode lower-case mapping of ASCII).
#[verifier::external_body]
fn to_lowercase(s: &str) -> (r: String)
    ensures
        r@ == lowercase(s@),
        all_ascii(s@) ==> r@ == ascii_lower(s@),
{
    s.to_lowercase()
}

/// The deployment named by `ENVIRONMENT`: production unless the value is
/// exactly `development`, and development when it is unset.
pub open spec fn environment_of(value: Option<Seq<char>>) -> Environment {
    match value {
        Some(v) => if v == "development"@ {
            Environment::Development
        } else {
            Environment::Production
        },
        None => Environment::Development,
    }
}

/// Whether a collector switch is on: on when unset, off for `0` and for any
/// spelling of `false` in upper or lower case.
pub open spec fn flag_enabled(value: Option<Seq<char>>) -> bool {
    match value {
        Some(v) => v != "0"@ && lowercase(v) != "false"@,
        None => true,
    }
}

/// Whether an ASCII switch value turns its collector on: unless it is `0`
/// or `false` in any mix of upper and lower case.
pub open spec fn ascii_flag(v: Seq<char>) -> bool {
    v != "0"@ && ascii_lower(v) != "false"@
}

/// The port named by `SERVER_PORT`, or 8080 when it is unset or not a port.
pub open spec fn port_of(value: Option<Seq<char>>) -> u16 {
    match value {
        Some(v) => match parse_unsigned(v, u16::MAX as nat) {
            Some(p) => p as u16,
            None => DEFAULT_PORT,
        },
        None => DEFAULT_PORT,
    }
}

/// The interval named by `METRICS_INTERVAL_SEC`, or 15 when it is unset or
/// not a number.
pub open spec fn interval_of(value: Option<Seq<char>>) -> u64 {
    match value {
        Some(v) => match parse_unsigned(v, u64::MAX as nat) {
            Some(p) => p as u64,
            None => DEFAULT_INTERVAL_SEC,
        },
        None => DEFAULT_INTERVAL_SEC,
    }
}

/// A text, or a default text when it is absent.
pub open spec fn text_or(value: Option<Seq<char>>, default: Seq<char>) -> Seq<char> {
    match value {
        Some(v) => v,
        None => default,
    }
}

/// `"http://" + host + ":" + port`, the port in decimal.
pub open spec fn url_of(host: Seq<char>, port: u16) -> Seq<char> {
    "http://"@ + host + ":"@ + decimal_digits(port as nat)
}

fn environment_from(value: &Option<String>) -> (e: Environment)
    ensures
        e == environment_of(opt_chars(*value)),
{
    match value {
        Some(v) => {
            let chars = chars_of(v.as_str());
            if chars_eq(&chars, &chars_of("development")) {
                Environment::Development
            } else {
                Environment::Production
            }
        },
        None => Environment::Development,
    }
}

fn flag_from(value: &Option<String>) -> (b: bool)
    ensures
        b == flag_enabled(opt_chars(*value)),
        opt_chars(*value) matches Some(v) ==> (all_ascii(v) ==> b == ascii_flag(v)),
{
    match value {
        Some(v) => {
            let chars = chars_of(v.as_str());
            if chars_eq(&chars, &chars_of("0")) {
                return false;
            }
            let lower = to_lowercase(v.as_str());
            !chars_eq(&chars_of(lower.as_str()), &chars_of("false"))
        },
        None => true,
    }
}

fn text_from(value: &Option<String>, default: &str) -> (s: String)
    ensures
        s@ == text_or(opt_chars(*value), default@),
{
    match value {
        Some(v) => v.clone(),
        None => default.to_owned(),
    }
}

impl Config {
    /// The settings that the environment variables in `env` give: each one
    /// parsed as its variable's description says, and its default where it
    /// is unset or does not parse.
    pub fn new(env: &EnvSettings) -> (c: Config)
        ensures
            c.environment == environment_of(opt_chars(env.environment)),
            c.host@ == text_or(opt_chars(env.server_host), default_host()),
            c.port == port_of(opt_chars(env.server_port)),
            c.host_proc@ == text_or(opt_chars(env.host_proc), default_host_proc()),
            c.enable_docker_metrics == flag_enabled(opt_chars(env.enable_docker_metrics)),
            opt_chars(env.enable_docker_metrics) matches Some(v) ==> (all_ascii(v)
                ==> c.enable_docker_metrics == ascii_flag(v)),
            c.enable_raspi_metrics == flag_enabled(opt_chars(env.enable_raspi_metrics)),
            opt_chars(env.enable_raspi_metrics) matches Some(v) ==> (all_ascii(v)
                ==> c.enable_raspi_metrics == ascii_flag(v)),
            c.enable_node_metrics == flag_enabled(opt_chars(env.enable_node_metrics)),
            opt_chars(env.enable_node_metrics) matches Some(v) ==> (all_ascii(v)
                ==> c.enable_node_metrics == ascii_flag(v)),
            c.metrics_interval_sec == interval_of(opt_chars(env.metrics_interval_sec)),
    {
        let port = match &env.server_port {
            Some(v) => match parse_u16(&chars_of(v.as_str())) {
                Some(p) => p,
                None => DEFAULT_PORT,
            },
            None => DEFAULT_PORT,
        };
        let interval = match &env.metrics_interval_sec {
            Some(v) => match parse_u64(&chars_of(v.as_str())) {
                Some(p) => p,
                None => DEFAULT_INTERVAL_SEC,
            },
            None => DEFAULT_INTERVAL_SEC,
        };
        Config {
            host: text_from(&env.server_host, "127.0.0.1"),
            port,
            environment: environment_from(&env.environment),
            host_proc: text_from(&env.host_proc, "/proc"),
            enable_docker_metrics: flag_from(&env.enable_docker_metrics),
            enable_raspi_metrics: flag_from(&env.enable_raspi_metrics),
            enable_node_metrics: flag_from(&env.enable_node_metrics),
            metrics_interval_sec: interval,
        }
    }

    /// The address of the server: `http://<host>:<port>`.
    pub fn server_url(&self) -> (url: String)
        ensures
            url@ == url_of(self.host@, self.port),
    {
        let mut url = "http://".to_owned();
        push_chars(&mut url, &chars_of(self.host.as_str()));
        push_chars(&mut url, &chars_of(":"));
        push_chars(&mut url, &decimal_chars(self.port as u64));
        url
    }
}

/// A collector of the exporter.
#[derive(Debug, Clone, Copy, PartialEq, Eq, Structural)]
pub enum Collector {
    Docker,
    Raspi,
    Node,
}

/// The collectors that the switches of `c` turn on, in the order their
/// metrics are registered: Docker, Raspberry Pi, host.
pub open spec fn collectors_of(c: Config) -> Seq<Collector> {
    (if c.enable_docker_metrics {
        seq![Collector::Docker]
    } else {
        seq![]
    }) + (if c.enable_raspi_metrics {
        seq![Collector::Raspi]
    } else {
        seq![]
    }) + (if c.enable_node_metrics {
        seq![Collector::Node]
    } else {
        seq![]
    })
}

impl Config {
    /// The collectors to register and start: those whose switch is on.
    pub fn enabled_collectors(&self) -> (r: Vec<Collector>)
        ensures
            r@ == collectors_of(*self),
    {
        let mut r: Vec<Collector> = Vec::new();
        if self.enable_docker_metrics {
            r.push(Collector::Docker);
        }
        if self.enable_raspi_metrics {
            r.push(Collector::Raspi);
        }
        if self.enable_node_metrics {
            r.push(Collector::Node);
        }
        assert(r@ =~= collectors_of(*self));
        r
    }
}

impl Default for Config {
    /// The settings of an empty environment.
    fn default() -> (c: Config)
        ensures
            c.environment == Environment::Development,
            c.host@ == default_host(),
            c.port == DEFAULT_PORT,
            c.host_proc@ == default_host_proc(),
            c.enable_docker_metrics,
            c.enable_raspi_metrics,
            c.enable_node_metrics,
            c.metrics_interval_sec == DEFAULT_INTERVAL_SEC,
    {
        Config {
            host: "127.0.0.1".to_owned(),
            port: DEFAULT_PORT,
            environment: Environment::Development,
            host_proc: "/proc".to_owned(),
            enable_docker_metrics: true,
            enable_raspi_metrics: true,
            enable_node_metrics: true,
            metrics_interval_sec: DEFAULT_INTERVAL_SEC,
        }
    }
}

/// An environment that sets none of the variables gives the default
/// settings.
pub proof fn lemma_unset_environment_gives_defaults()
    ensures
        environment_of(None) == Environment::Development,
        text_or(None, default_host()) == default_host(),
        port_of(None) == DEFAULT_PORT,
        text_or(None, default_host_proc()) == default_host_proc(),
        flag_enabled(None),
        interval_of(None) == DEFAULT_INTERVAL_SEC,
{
}

/// The port written in the server's address reads back as that port when
/// given as `SERVER_PORT`.
pub proof fn lemma_port_round_trip(port: u16)
    ensures
        port_of(Some(decimal_digits(port as nat))) == port,
{
    crate::text::lemma_parse_decimal_digits(port as nat, u16::MAX as nat);
}

} // verus!
