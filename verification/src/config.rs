//! Configuration: what the file may say, the defaults for what it leaves out,
//! and what is derived from it.

use crate::boundary::base64_encode;
use crate::boundary::base64_standard;
use crate::text::{
    chars_of, decimal, find_char, first_index, is_digit, law_decimal_reads_back,
    law_end_is_stripped, law_prefixes_are_stripped, lemma_decimal_digits, lemma_first_index,
    occurs_at, parse_unsigned, skip_prefixes, strip_prefixes, strip_trailing, text_of,
    trailing_start, unsigned_value,
};
use vstd::prelude::*;
use vstd::utf8::encode_utf8;

verus! {

/// How an upstream is picked for a request.
#[derive(Debug, Clone, Copy, PartialEq, Eq, Structural)]
pub enum BalanceMode {
    /// Weighted round-robin over online upstreams (default)
    RoundRobin,
    /// Pick the online upstream with the best (lowest) combined score
    Best,
    /// Pick the online upstream with the highest priority (lowest number)
    Priority,
}

impl Default for BalanceMode {
    fn default() -> (r: Self)
        ensures
            r == BalanceMode::RoundRobin,
    {
        BalanceMode::RoundRobin
    }
}

/// How the listed domains are treated.
#[derive(Debug, Clone, Copy, PartialEq, Eq, Structural)]
pub enum DomainPolicyMode {
    /// Always use upstream proxy (default)
    Off,
    /// Listed domains go direct, others use upstream proxy
    Blacklist,
    /// Listed domains use upstream proxy, others go direct
    Whitelist,
}

impl Default for DomainPolicyMode {
    fn default() -> (r: Self)
        ensures
            r == DomainPolicyMode::Off,
    {
        DomainPolicyMode::Off
    }
}

/// Domain-based direct/proxy routing policy.
#[derive(Debug)]
pub struct DomainPolicyConfig {
    pub mode: DomainPolicyMode,
    pub domains: Vec<String>,
}

impl Clone for DomainPolicyConfig {
    fn clone(&self) -> (r: Self)
        ensures
            r.mode == self.mode,
            r.domains@ == self.domains@,
    {
        DomainPolicyConfig { mode: self.mode, domains: self.domains.clone() }
    }
}

impl Default for DomainPolicyConfig {
    fn default() -> (r: Self)
        ensures
            r.mode == DomainPolicyMode::Off,
            r.domains@ == Seq::<String>::empty(),
    {
        DomainPolicyConfig { mode: DomainPolicyMode::Off, domains: Vec::new() }
    }
}

/// Active health-check parameters.
#[derive(Debug, Clone, Copy, PartialEq, Eq, Structural)]
pub struct HealthCheckConfig {
    /// Seconds between successive active-probe rounds
    pub interval_secs: u64,
    /// TCP-connect timeout for each probe (seconds)
    pub timeout_secs: u64,
}

impl Default for HealthCheckConfig {
    fn default() -> (r: Self)
        ensures
            r.interval_secs == 30,
            r.timeout_secs == 5,
    {
        HealthCheckConfig {
            interval_secs: default_hc_interval(),
            timeout_secs: default_hc_timeout(),
        }
    }
}

/// Resource limits; 0 means unlimited.
#[derive(Debug, Clone, Copy, PartialEq, Eq, Structural)]
pub struct LimitsConfig {
    /// Maximum number of concurrent client connections
    pub max_connections: u64,
    /// Time allowed for one request (seconds)
    pub request_timeout_secs: u64,
    /// Time allowed for open connections to finish at shutdown (seconds)
    pub shutdown_timeout_secs: u64,
}

impl Default for LimitsConfig {
    fn default() -> (r: Self)
        ensures
            r.max_connections == 0,
            r.request_timeout_secs == 0,
            r.shutdown_timeout_secs == 30,
    {
        LimitsConfig {
            max_connections: 0,
            request_timeout_secs: 0,
            shutdown_timeout_secs: default_shutdown_timeout(),
        }
    }
}

pub fn default_reload_interval() -> (r: u64)
    ensures
        r == 60,
{
    60
}

pub fn default_hc_interval() -> (r: u64)
    ensures
        r == 30,
{
    30
}

pub fn default_hc_timeout() -> (r: u64)
    ensures
        r == 5,
{
    5
}

pub fn default_shutdown_timeout() -> (r: u64)
    ensures
        r == 30,
{
    30
}

pub fn default_weight() -> (r: u32)
    ensures
        r == 1,
{
    1
}

pub fn default_priority() -> (r: u32)
    ensures
        r == 100,
{
    100
}

/// Why a configuration cannot be used.
#[derive(Debug)]
pub enum ConfigError {
    /// The upstream URL holds no host name.
    InvalidUpstreamUrl(String),
}

impl ConfigError {
    /// The message for the log.
    pub fn message(&self) -> (r: String)
        ensures
            r@ == "Invalid upstream URL: "@ + self->0@,
    {
        let mut r = String::new();
        match self {
            ConfigError::InvalidUpstreamUrl(url) => {
                r.push_str("Invalid upstream URL: ");
                r.push_str(url.as_str());
            },
        }
        r
    }
}

/// One upstream proxy.
#[derive(Debug)]
pub struct UpstreamConfig {
    /// Proxy URL, e.g. "http://1.2.3.4:8080"
    pub url: String,
    /// Relative weight for round_robin selection (default: 1)
    pub weight: u32,
    /// Priority for priority-mode selection (lower value = higher priority)
    pub priority: u32,
    /// Optional HTTP proxy Basic-Auth username
    pub username: Option<String>,
    /// Optional HTTP proxy Basic-Auth password
    pub password: Option<String>,
}

impl Clone for UpstreamConfig {
    fn clone(&self) -> (r: Self)
        ensures
            r == *self,
    {
        UpstreamConfig {
            url: self.url.clone(),
            weight: self.weight,
            priority: self.priority,
            username: clone_text(&self.username),
            password: clone_text(&self.password),
        }
    }
}

fn clone_text(t: &Option<String>) -> (r: Option<String>)
    ensures
        r == *t,
{
    match t {
        Some(s) => Some(s.clone()),
        None => None,
    }
}

/// The whole configuration.
#[derive(Debug)]
pub struct Config {
    /// Local listen address, e.g. "127.0.0.1:8080"
    pub listen: String,
    /// Address of the admin server, if there is one
    pub admin_listen: Option<String>,
    /// Load-balancing mode
    pub mode: BalanceMode,
    /// How often to re-read the config file (seconds). 0 = disabled.
    pub reload_interval_secs: u64,
    /// Active health-check parameters
    pub health_check: HealthCheckConfig,
    /// Domain-based direct/proxy routing policy
    pub domain_policy: DomainPolicyConfig,
    /// Resource limits
    pub limits: LimitsConfig,
    /// Whether every request is logged
    pub access_log: bool,
    /// Upstream proxy list
    pub upstream: Vec<UpstreamConfig>,
}

impl Clone for Config {
    fn clone(&self) -> (r: Self)
        ensures
            r.listen == self.listen,
            r.admin_listen == self.admin_listen,
            r.mode == self.mode,
            r.reload_interval_secs == self.reload_interval_secs,
            r.health_check == self.health_check,
            r.domain_policy.mode == self.domain_policy.mode,
            r.domain_policy.domains@ == self.domain_policy.domains@,
            r.limits == self.limits,
            r.access_log == self.access_log,
            r.upstream@ == self.upstream@,
    {
        Config {
            listen: self.listen.clone(),
            admin_listen: clone_text(&self.admin_listen),
            mode: self.mode,
            reload_interval_secs: self.reload_interval_secs,
            health_check: self.health_check,
            domain_policy: self.domain_policy.clone(),
            limits: self.limits,
            access_log: self.access_log,
            upstream: self.upstream.clone(),
        }
    }
}

/// The host and port that `authority` names: the host is what stands before the
/// first colon and may not be empty; the port is the number behind that colon,
/// or `default_port` where there is no such number.
pub open spec fn host_and_port(authority: Seq<char>, default_port: u16) -> Option<
    (Seq<char>, u16),
> {
    let colon = first_index(authority, ':');
    if colon == 0 {
        None
    } else if colon < authority.len() {
        match unsigned_value(authority.skip(colon + 1), u16::MAX as nat) {
            Some(port) => Some((authority.take(colon), port as u16)),
            None => Some((authority.take(colon), default_port)),
        }
    } else {
        Some((authority, default_port))
    }
}

/// Splits `authority` into host and port.
pub fn split_host_port(authority: &str, default_port: u16) -> (r: Option<(String, u16)>)
    ensures
        match r {
            Some((host, port)) => host_and_port(authority@, default_port) == Some((host@, port)),
            None => host_and_port(authority@, default_port) is None,
        },
{
    let cs = chars_of(authority);
    let colon = find_char(cs.as_slice(), 0, ':');
    assert(cs@.skip(0) == authority@);
    if colon == 0 {
        return None;
    }
    let host = text_of(cs.as_slice(), 0, colon);
    assert(host@ == authority@.take(colon as int));
    if colon < cs.len() {
        match parse_unsigned(cs.as_slice(), colon + 1, 65535) {
            Some(port) => Some((host, port as u16)),
            None => Some((host, default_port)),
        }
    } else {
        assert(authority@.take(colon as int) == authority@);
        Some((host, default_port))
    }
}

/// What is left of an upstream URL without its schemes and trailing slashes.
pub open spec fn url_authority(url: Seq<char>) -> Seq<char> {
    strip_trailing(strip_prefixes(strip_prefixes(url, "http://"@), "https://"@), '/')
}

pub const DEFAULT_UPSTREAM_PORT: u16 = 8080;

/// The `Proxy-Authorization` value for Base64-encoded credentials.
pub fn basic_auth_value(encoded: &str) -> (r: String)
    ensures
        r@ == "Basic "@ + encoded@,
{
    let mut r = String::new();
    r.push_str("Basic ");
    r.push_str(encoded);
    r
}

/// The user name and the password, joined by a colon.
pub open spec fn credentials(username: Seq<char>, password: Seq<char>) -> Seq<char> {
    username + ":"@ + password
}

impl UpstreamConfig {
    /// The `Proxy-Authorization` value, in which Base64 hides user name and password.
    pub open spec fn auth_header(&self) -> Option<Seq<char>> {
        match (self.username, self.password) {
            (Some(u), Some(p)) => Some(
                "Basic "@ + base64_standard(encode_utf8(credentials(u@, p@))),
            ),
            _ => None,
        }
    }

    /// Returns the `Proxy-Authorization: Basic ...` header value, if auth is configured.
    pub fn proxy_auth_header(&self) -> (r: Option<String>)
        ensures
            match r {
                Some(h) => self.auth_header() == Some(h@),
                None => self.auth_header() is None,
            },
            r matches Some(h) ==> forall|i: int|
                0 <= i < h@.len() ==> #[trigger] h@[i] != '\r' && h@[i] != '\n',
    {
        proof {
            reveal_strlit("Basic ");
        }
        match (&self.username, &self.password) {
            (Some(u), Some(p)) => {
                let mut plain = String::new();
                plain.push_str(u.as_str());
                plain.push_str(":");
                plain.push_str(p.as_str());
                assert(plain@ == credentials(u@, p@));
                Some(basic_auth_value(base64_encode(plain.as_str().as_bytes()).as_str()))
            },
            _ => None,
        }
    }

    /// The host and port of the upstream URL.
    pub open spec fn address(&self) -> Option<(Seq<char>, u16)> {
        host_and_port(url_authority(self.url@), DEFAULT_UPSTREAM_PORT)
    }

    /// Parse `host` and `port` from the upstream URL.
    pub fn host_port(&self) -> (r: Result<(String, u16), ConfigError>)
        ensures
            match r {
                Ok((host, port)) => self.address() == Some((host@, port)),
                Err(e) => self.address() is None && e == ConfigError::InvalidUpstreamUrl(self.url),
            },
    {
        proof {
            reveal_strlit("http://");
            reveal_strlit("https://");
        }
        let cs = chars_of(self.url.as_str());
        let http = chars_of("http://");
        let https = chars_of("https://");
        let i = skip_prefixes(cs.as_slice(), 0, http.as_slice());
        let j = skip_prefixes(cs.as_slice(), i, https.as_slice());
        let end = trailing_start(cs.as_slice(), j, '/');
        assert(cs@.skip(0) == self.url@);
        let authority = text_of(cs.as_slice(), j, end);
        match split_host_port(authority.as_str(), DEFAULT_UPSTREAM_PORT) {
            Some(pair) => Ok(pair),
            None => Err(ConfigError::InvalidUpstreamUrl(self.url.clone())),
        }
    }
}

impl Config {
    /// Checks that every upstream URL is valid, and else names the first one that
    /// is not.
    pub fn validate(&self) -> (r: Result<(), ConfigError>)
        ensures
            match r {
                Ok(_) => forall|i: int|
                    0 <= i < self.upstream@.len() ==> (
                    #[trigger] self.upstream@[i]).address() is Some,
                Err(e) => exists|i: int|
                    {
                        &&& 0 <= i < self.upstream@.len()
                        &&& (#[trigger] self.upstream@[i]).address() is None
                        &&& e == ConfigError::InvalidUpstreamUrl(self.upstream@[i].url)
                        &&& forall|j: int|
                            0 <= j < i ==> (#[trigger] self.upstream@[j]).address() is Some
                    },
            },
    {
        let mut i: usize = 0;
        while i < self.upstream.len()
            invariant
                i <= self.upstream@.len(),
                forall|j: int|
                    0 <= j < i ==> (#[trigger] self.upstream@[j]).address() is Some,
            decreases self.upstream@.len() - i,
        {
            match self.upstream[i].host_port() {
                Ok(_) => {},
                Err(e) => return Err(e),
            }
            i += 1;
        }
        Ok(())
    }
}

/// What a configuration file says of one upstream.
#[derive(Debug)]
pub struct UpstreamDraft {
    pub url: String,
    pub weight: Option<u32>,
    pub priority: Option<u32>,
    pub username: Option<String>,
    pub password: Option<String>,
}

/// What a configuration file says of the health checks.
#[derive(Debug, Clone, Copy, PartialEq, Eq, Structural)]
pub struct HealthCheckDraft {
    pub interval_secs: Option<u64>,
    pub timeout_secs: Option<u64>,
}

/// What a configuration file says of the limits.
#[derive(Debug, Clone, Copy, PartialEq, Eq, Structural)]
pub struct LimitsDraft {
    pub max_connections: Option<u64>,
    pub request_timeout_secs: Option<u64>,
    pub shutdown_timeout_secs: Option<u64>,
}

/// What a configuration file says of the domain policy.
#[derive(Debug)]
pub struct DomainPolicyDraft {
    pub mode: Option<DomainPolicyMode>,
    pub domains: Option<Vec<String>>,
}

/// What a configuration file says; everything but the listen address may be left
/// out.
#[derive(Debug)]
pub struct ConfigDraft {
    pub listen: String,
    pub admin_listen: Option<String>,
    pub mode: Option<BalanceMode>,
    pub reload_interval_secs: Option<u64>,
    pub health_check: Option<HealthCheckDraft>,
    pub domain_policy: Option<DomainPolicyDraft>,
    pub limits: Option<LimitsDraft>,
    pub access_log: Option<bool>,
    pub upstream: Option<Vec<UpstreamDraft>>,
}

/// What is said, or else the default.
pub open spec fn or_default<T>(said: Option<T>, default: T) -> T {
    match said {
        Some(v) => v,
        None => default,
    }
}

fn number_or(said: Option<u64>, default: u64) -> (r: u64)
    ensures
        r == or_default(said, default),
{
    match said {
        Some(v) => v,
        None => default,
    }
}

impl UpstreamDraft {
    /// The upstream with the defaults filled in.
    pub open spec fn completed(self) -> UpstreamConfig {
        UpstreamConfig {
            url: self.url,
            weight: or_default(self.weight, 1),
            priority: or_default(self.priority, 100),
            username: self.username,
            password: self.password,
        }
    }

    pub fn complete(&self) -> (r: UpstreamConfig)
        ensures
            r == self.completed(),
    {
        UpstreamConfig {
            url: self.url.clone(),
            weight: match self.weight {
                Some(w) => w,
                None => default_weight(),
            },
            priority: match self.priority {
                Some(p) => p,
                None => default_priority(),
            },
            username: clone_text(&self.username),
            password: clone_text(&self.password),
        }
    }
}

impl HealthCheckDraft {
    /// The parameters with the defaults filled in.
    pub open spec fn completed(self) -> HealthCheckConfig {
        HealthCheckConfig {
            interval_secs: or_default(self.interval_secs, 30),
            timeout_secs: or_default(self.timeout_secs, 5),
        }
    }

    pub fn complete(&self) -> (r: HealthCheckConfig)
        ensures
            r == self.completed(),
    {
        HealthCheckConfig {
            interval_secs: number_or(self.interval_secs, default_hc_interval()),
            timeout_secs: number_or(self.timeout_secs, default_hc_timeout()),
        }
    }
}

impl LimitsDraft {
    /// The limits with the defaults filled in.
    pub open spec fn completed(self) -> LimitsConfig {
        LimitsConfig {
            max_connections: or_default(self.max_connections, 0),
            request_timeout_secs: or_default(self.request_timeout_secs, 0),
            shutdown_timeout_secs: or_default(self.shutdown_timeout_secs, 30),
        }
    }

    pub fn complete(&self) -> (r: LimitsConfig)
        ensures
            r == self.completed(),
    {
        LimitsConfig {
            max_connections: number_or(self.max_connections, 0),
            request_timeout_secs: number_or(self.request_timeout_secs, 0),
            shutdown_timeout_secs: number_or(
                self.shutdown_timeout_secs,
                default_shutdown_timeout(),
            ),
        }
    }
}

impl DomainPolicyDraft {
    pub fn complete(self) -> (r: DomainPolicyConfig)
        ensures
            r.mode == or_default(self.mode, DomainPolicyMode::Off),
            self.domains matches Some(d) ==> r.domains == d,
            self.domains is None ==> r.domains@ == Seq::<String>::empty(),
    {
        let mode = match self.mode {
            Some(m) => m,
            None => DomainPolicyMode::default(),
        };
        let domains = match self.domains {
            Some(d) => d,
            None => Vec::new(),
        };
        DomainPolicyConfig { mode, domains }
    }
}

fn complete_upstreams(drafts: &[UpstreamDraft]) -> (r: Vec<UpstreamConfig>)
    ensures
        r@ == Seq::new(drafts@.len(), |i: int| drafts@[i].completed()),
{
    let mut r: Vec<UpstreamConfig> = Vec::new();
    let mut i: usize = 0;
    while i < drafts.len()
        invariant
            i <= drafts@.len(),
            r@.len() == i,
            forall|k: int| 0 <= k < i ==> #[trigger] r@[k] == drafts@[k].completed(),
        decreases drafts@.len() - i,
    {
        r.push(drafts[i].complete());
        i += 1;
    }
    r
}

impl ConfigDraft {
    /// The upstreams with the defaults filled in.
    pub open spec fn upstreams(self) -> Seq<UpstreamConfig> {
        match self.upstream {
            Some(drafts) => Seq::new(drafts@.len(), |i: int| drafts@[i].completed()),
            None => Seq::empty(),
        }
    }

    /// The configuration with the defaults filled in for what is not said.
    pub fn complete(self) -> (r: Config)
        ensures
            r.listen == self.listen,
            r.admin_listen == self.admin_listen,
            r.mode == or_default(self.mode, BalanceMode::RoundRobin),
            r.reload_interval_secs == or_default(self.reload_interval_secs, 60),
            r.health_check == (match self.health_check {
                Some(h) => h.completed(),
                None => HealthCheckConfig { interval_secs: 30, timeout_secs: 5 },
            }),
            r.domain_policy.mode == (match self.domain_policy {
                Some(d) => or_default(d.mode, DomainPolicyMode::Off),
                None => DomainPolicyMode::Off,
            }),
            r.domain_policy.domains@ == (match self.domain_policy {
                Some(d) => match d.domains {
                    Some(domains) => domains@,
                    None => Seq::empty(),
                },
                None => Seq::empty(),
            }),
            r.limits == (match self.limits {
                Some(l) => l.completed(),
                None => LimitsConfig {
                    max_connections: 0,
                    request_timeout_secs: 0,
                    shutdown_timeout_secs: 30,
                },
            }),
            r.access_log == or_default(self.access_log, false),
            r.upstream@ == self.upstreams(),
    {
        let mode = match self.mode {
            Some(m) => m,
            None => BalanceMode::default(),
        };
        let reload_interval_secs: u64 = number_or(
            self.reload_interval_secs,
            default_reload_interval(),
        );
        let health_check = match &self.health_check {
            Some(h) => h.complete(),
            None => HealthCheckConfig::default(),
        };
        let limits = match &self.limits {
            Some(l) => l.complete(),
            None => LimitsConfig::default(),
        };
        let access_log = match self.access_log {
            Some(b) => b,
            None => false,
        };
        let upstream = match &self.upstream {
            Some(drafts) => complete_upstreams(drafts.as_slice()),
            None => Vec::new(),
        };
        let domain_policy = match self.domain_policy {
            Some(d) => d.complete(),
            None => DomainPolicyConfig::default(),
        };
        Config {
            listen: self.listen,
            admin_listen: self.admin_listen,
            mode,
            reload_interval_secs,
            health_check,
            domain_policy,
            limits,
            access_log,
            upstream,
        }
    }
}

/// Host and port of an authority: the host is what stands before the first colon,
/// and there is none without a host. The port is the number behind the colon; where
/// no port number stands there, the default.
pub proof fn law_host_and_port(authority: Seq<char>, default_port: u16, host: Seq<char>)
    requires
        forall|i: int| 0 <= i < host.len() ==> #[trigger] host[i] != ':',
    ensures
        host.len() > 0 ==> host_and_port(host, default_port) == Some((host, default_port)),
        host.len() == 0 ==> host_and_port(host, default_port) is None,
        host.len() == 0 ==> host_and_port(host + seq![':'] + authority, default_port) is None,
        host.len() > 0 ==> host_and_port(host + seq![':'] + authority, default_port) == (
        match unsigned_value(authority, 65535) {
            Some(port) => Some((host, port as u16)),
            None => Some((host, default_port)),
        }),
{
    let n = host.len() as int;
    let whole = host + seq![':'] + authority;
    assert(whole[n] == ':');
    assert forall|j: int| 0 <= j < n implies whole[j] != ':' by {
        assert(whole[j] == host[j]);
    }
    lemma_first_index(whole, ':', n);
    lemma_first_index(host, ':', n);
    assert(whole.take(n) == host);
    assert(whole.skip(n + 1) == authority);
}

proof fn lemma_stripped_slashes(a: Seq<char>, slashes: nat)
    requires
        a.len() > 0,
        a.last() != '/',
    ensures
        strip_trailing(a + Seq::new(slashes, |i: int| '/'), '/') == a,
    decreases slashes,
{
    let tail = Seq::new(slashes, |i: int| '/');
    if slashes == 0 {
        assert(a + tail == a);
    } else {
        let fewer = Seq::new((slashes - 1) as nat, |i: int| '/');
        assert(a + tail == (a + fewer).push('/'));
        law_end_is_stripped(a + fewer, '/');
        lemma_stripped_slashes(a, (slashes - 1) as nat);
    }
}

/// The address of an upstream is what its URL names: scheme and trailing slashes
/// aside, the host, and the port behind a colon, or 8080 where there is none.
pub proof fn law_upstream_url(c: UpstreamConfig, host: Seq<char>, port: u16, slashes: nat)
    requires
        host.len() > 0,
        forall|i: int| 0 <= i < host.len() ==> #[trigger] host[i] != ':' && host[i] != '/',
    ensures
        ({
            let tail = Seq::new(slashes, |i: int| '/');
            let named = host + seq![':'] + decimal(port as nat);
            &&& c.url@ == "http://"@ + named + tail ==> c.address() == Some((host, port))
            &&& c.url@ == "https://"@ + named + tail ==> c.address() == Some((host, port))
            &&& c.url@ == named ==> c.address() == Some((host, port))
            &&& c.url@ == "http://"@ + host + tail ==> c.address() == Some((host, 8080u16))
            &&& c.url@ == "https://"@ + host + tail ==> c.address() == Some((host, 8080u16))
            &&& c.url@ == host ==> c.address() == Some((host, 8080u16))
        }),
{
    let named = host + seq![':'] + decimal(port as nat);
    lemma_decimal_digits(port as nat);
    assert forall|i: int| 0 <= i < named.len() implies #[trigger] named[i] != '/' by {
        if i > host.len() {
            assert(is_digit(decimal(port as nat)[i - host.len() - 1]));
        }
    }
    assert(named.last() == decimal(port as nat).last());
    assert(is_digit(decimal(port as nat)[decimal(port as nat).len() - 1]));
    assert(host[host.len() - 1] != ':');
    lemma_named_url(named, slashes);
    lemma_named_url(host, slashes);
    lemma_named_url(named, 0);
    lemma_named_url(host, 0);
    let none = Seq::new(0, |i: int| '/');
    assert(named + none == named);
    assert(host + none == host);
    law_host_and_port(decimal(port as nat), 8080, host);
    law_decimal_reads_back(port as nat, 65535);
}

proof fn lemma_named_url(a: Seq<char>, slashes: nat)
    requires
        a.len() > 0,
        forall|i: int| 0 <= i < a.len() ==> #[trigger] a[i] != '/',
        a.last() != ':',
    ensures
        url_authority("http://"@ + a + Seq::new(slashes, |i: int| '/')) == a,
        url_authority("https://"@ + a + Seq::new(slashes, |i: int| '/')) == a,
        slashes == 0 ==> url_authority(a + Seq::new(slashes, |i: int| '/')) == a,
{
    let tail = Seq::new(slashes, |i: int| '/');
    let rest = a + tail;
    reveal_strlit("http://");
    reveal_strlit("https://");
    lemma_no_scheme(a, slashes);
    assert(a[a.len() - 1] != '/');
    lemma_stripped_slashes(a, slashes);
    assert("http://"@ + a + tail == "http://"@ + rest);
    assert("https://"@ + a + tail == "https://"@ + rest);
    law_prefixes_are_stripped(rest, "http://"@);
    law_prefixes_are_stripped(rest, "https://"@);
    let s = "https://"@ + rest;
    assert(!occurs_at(s, "http://"@, 0)) by {
        if occurs_at(s, "http://"@, 0) {
            assert(s.subrange(0, 7)[4] == ':');
        }
    }
    law_prefixes_are_stripped(s, "http://"@);
}

proof fn lemma_no_scheme(a: Seq<char>, slashes: nat)
    requires
        a.len() > 0,
        forall|i: int| 0 <= i < a.len() ==> #[trigger] a[i] != '/',
        a.last() != ':',
    ensures
        !occurs_at(a + Seq::new(slashes, |i: int| '/'), "http://"@, 0),
        !occurs_at(a + Seq::new(slashes, |i: int| '/'), "https://"@, 0),
{
    let rest = a + Seq::new(slashes, |i: int| '/');
    reveal_strlit("http://");
    reveal_strlit("https://");
    if occurs_at(rest, "http://"@, 0) {
        let piece = rest.subrange(0, 7);
        assert(piece[5] == '/' && piece[4] == ':');
    }
    if occurs_at(rest, "https://"@, 0) {
        let piece = rest.subrange(0, 8);
        assert(piece[6] == '/' && piece[5] == ':');
    }
}

/// An upstream has credentials just if it has a user name and a password. What is
/// encoded is the user name, a colon and the password, and the scheme is `Basic`.
pub proof fn law_credentials(c: UpstreamConfig)
    ensures
        c.username is None || c.password is None ==> c.auth_header() is None,
        c.username matches Some(u) ==> (c.password matches Some(p) ==> (
        c.auth_header() matches Some(h) && {
            &&& h.take(6) == "Basic "@
            &&& h.skip(6) == base64_standard(encode_utf8(u@ + seq![':'] + p@))
        })),
{
    reveal_strlit("Basic ");
    reveal_strlit(":");
    match (c.username, c.password) {
        (Some(u), Some(p)) => {
            let h = c.auth_header()->0;
            assert(":"@ =~= seq![':']);
            assert(h.take(6) =~= "Basic "@);
            assert(h.skip(6) =~= base64_standard(encode_utf8(credentials(u@, p@))));
        },
        _ => {},
    }
}

/// What a configuration file says is taken as it says it.
pub proof fn law_what_is_said_holds(d: ConfigDraft, r: Config)
    requires
        call_ensures(ConfigDraft::complete, (d,), r),
    ensures
        r.listen == d.listen,
        r.admin_listen == d.admin_listen,
        d.mode matches Some(mode) ==> r.mode == mode,
        d.reload_interval_secs matches Some(secs) ==> r.reload_interval_secs == secs,
        d.access_log matches Some(log) ==> r.access_log == log,
        d.health_check matches Some(h) ==> {
            &&& h.interval_secs matches Some(secs) ==> r.health_check.interval_secs == secs
            &&& h.timeout_secs matches Some(secs) ==> r.health_check.timeout_secs == secs
        },
        d.limits matches Some(l) ==> {
            &&& l.max_connections matches Some(n) ==> r.limits.max_connections == n
            &&& l.request_timeout_secs matches Some(secs) ==> r.limits.request_timeout_secs == secs
            &&& l.shutdown_timeout_secs matches Some(secs) ==> r.limits.shutdown_timeout_secs
                == secs
        },
        d.domain_policy matches Some(policy) ==> {
            &&& policy.mode matches Some(mode) ==> r.domain_policy.mode == mode
            &&& policy.domains matches Some(domains) ==> r.domain_policy.domains@ == domains@
        },
        d.upstream matches Some(drafts) ==> r.upstream@.len() == drafts@.len() && forall|i: int|
            0 <= i < drafts@.len() ==> {
                &&& (#[trigger] r.upstream@[i]).url == drafts@[i].url
                &&& r.upstream@[i].username == drafts@[i].username
                &&& r.upstream@[i].password == drafts@[i].password
                &&& drafts@[i].weight matches Some(weight) ==> r.upstream@[i].weight == weight
                &&& drafts@[i].priority matches Some(priority) ==> r.upstream@[i].priority
                    == priority
            },
{
}

/// What a configuration file does not say is: round-robin, a look at the file every
/// 60 seconds, no access log, probes every 30 seconds that wait 5 seconds, no limits
/// but 30 seconds at shutdown, no domain policy, no upstreams; and of an upstream,
/// weight 1 and priority 100.
pub proof fn law_what_is_not_said(d: ConfigDraft, r: Config)
    requires
        call_ensures(ConfigDraft::complete, (d,), r),
    ensures
        d.mode is None ==> r.mode == BalanceMode::RoundRobin,
        d.reload_interval_secs is None ==> r.reload_interval_secs == 60,
        d.access_log is None ==> !r.access_log,
        d.health_check is None ==> r.health_check.interval_secs == 30
            && r.health_check.timeout_secs == 5,
        d.health_check matches Some(h) ==> {
            &&& h.interval_secs is None ==> r.health_check.interval_secs == 30
            &&& h.timeout_secs is None ==> r.health_check.timeout_secs == 5
        },
        d.limits is None ==> r.limits.max_connections == 0 && r.limits.request_timeout_secs == 0
            && r.limits.shutdown_timeout_secs == 30,
        d.limits matches Some(l) ==> {
            &&& l.max_connections is None ==> r.limits.max_connections == 0
            &&& l.request_timeout_secs is None ==> r.limits.request_timeout_secs == 0
            &&& l.shutdown_timeout_secs is None ==> r.limits.shutdown_timeout_secs == 30
        },
        d.domain_policy is None ==> r.domain_policy.mode == DomainPolicyMode::Off
            && r.domain_policy.domains@.len() == 0,
        d.domain_policy matches Some(policy) ==> {
            &&& policy.mode is None ==> r.domain_policy.mode == DomainPolicyMode::Off
            &&& policy.domains is None ==> r.domain_policy.domains@.len() == 0
        },
        d.upstream is None ==> r.upstream@.len() == 0,
        d.upstream matches Some(drafts) ==> forall|i: int|
            0 <= i < drafts@.len() ==> {
                &&& drafts@[i].weight is None ==> (#[trigger] r.upstream@[i]).weight == 1
                &&& drafts@[i].priority is None ==> r.upstream@[i].priority == 100
            },
{
}

/// A configuration is refused just if an upstream URL names no host, and then the
/// first such URL is named.
pub proof fn law_validation(c: Config, r: Result<(), ConfigError>, i: int)
    requires
        call_ensures(Config::validate, (&c,), r),
        0 <= i < c.upstream@.len(),
        c.upstream@[i].address() is None,
        forall|j: int| 0 <= j < i ==> (#[trigger] c.upstream@[j]).address() is Some,
    ensures
        r matches Err(ConfigError::InvalidUpstreamUrl(url)) && url == c.upstream@[i].url,
{
}

/// A configuration all of whose upstream URLs name a host is accepted.
pub proof fn law_valid_configuration(c: Config, r: Result<(), ConfigError>)
    requires
        call_ensures(Config::validate, (&c,), r),
        forall|i: int| 0 <= i < c.upstream@.len() ==> (#[trigger] c.upstream@[i]).address() is Some,
    ensures
        r is Ok,
{
}

/// Scheme and trailing slashes are no part of what a URL names, and everything else
/// is.
pub proof fn law_schemes_and_slashes(c: UpstreamConfig, a: Seq<char>)
    requires
        a.len() > 0,
        a.last() != '/',
        !occurs_at(a, "http://"@, 0),
        !occurs_at(a, "https://"@, 0),
        c.url@ == a || c.url@ == "http://"@ + a || c.url@ == "https://"@ + a || c.url@ == a.push('/'),
        !occurs_at(a.push('/'), "http://"@, 0),
        !occurs_at(a.push('/'), "https://"@, 0),
    ensures
        c.address() == host_and_port(a, 8080),
{
    reveal_strlit("http://");
    reveal_strlit("https://");
    law_prefixes_are_stripped(a, "http://"@);
    law_prefixes_are_stripped(a, "https://"@);
    law_prefixes_are_stripped(a.push('/'), "http://"@);
    law_prefixes_are_stripped(a.push('/'), "https://"@);
    law_end_is_stripped(a, '/');
    let s = "https://"@ + a;
    assert(!occurs_at(s, "http://"@, 0)) by {
        if occurs_at(s, "http://"@, 0) {
            assert(s.subrange(0, 7)[4] == ':');
        }
    }
    law_prefixes_are_stripped(s, "http://"@);
}

/// Of the running code: what is made of a URL and of credentials, and what is said of
/// a URL that names no host.
pub proof fn law_addresses_and_credentials(
    c: UpstreamConfig,
    address: Result<(String, u16), ConfigError>,
    auth: Option<String>,
    e: ConfigError,
    message: String,
)
    ensures
        call_ensures(UpstreamConfig::host_port, (&c,), address) ==> match address {
            Ok((host, port)) => c.address() == Some((host@, port)),
            Err(ConfigError::InvalidUpstreamUrl(url)) => c.address() is None && url == c.url,
        },
        call_ensures(UpstreamConfig::proxy_auth_header, (&c,), auth) ==> match auth {
            Some(h) => c.auth_header() == Some(h@),
            None => c.auth_header() is None,
        },
        call_ensures(ConfigError::message, (&e,), message) ==> match e {
            ConfigError::InvalidUpstreamUrl(url) => message@ == "Invalid upstream URL: "@ + url@,
        },
{
}

/// Of the running code: a copy of a configuration is the same in all that it says.
pub proof fn law_copies_are_the_same(
    c: Config,
    r: Config,
    u: UpstreamConfig,
    v: UpstreamConfig,
)
    ensures
        call_ensures(Config::clone, (&c,), r) ==> {
            &&& r.listen == c.listen && r.admin_listen == c.admin_listen && r.mode == c.mode
            &&& r.reload_interval_secs == c.reload_interval_secs
            &&& r.health_check == c.health_check && r.limits == c.limits
            &&& r.domain_policy.mode == c.domain_policy.mode
            &&& r.domain_policy.domains@ == c.domain_policy.domains@
            &&& r.access_log == c.access_log && r.upstream@ == c.upstream@
        },
        call_ensures(UpstreamConfig::clone, (&u,), v) ==> v == u,
{
}

} // verus!
