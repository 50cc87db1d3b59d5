//! The configuration of the forwarder: its fields and defaults, the reading
//! of a stored configuration, the listen address, `set` and live reload.

use vstd::prelude::*;

use crate::cli::SetCommand;
use crate::order::{compare_text, TextOrder};
use crate::text::{
    chars_of, is_blank, is_blank_str, decimal, digit, push_char, push_decimal, string_of, strip, strip_bounds,
    Strip,
};
use crate::urls::{parse_url, url_parse};

verus! {

pub const DEFAULT_HOST: &'static str = "127.0.0.1";

pub const DEFAULT_PORT: u16 = 1080;

pub const DEFAULT_CHECK_URL: &'static str = "https://cloudflare.com/cdn-cgi/trace";

pub const DEFAULT_MAX_LATENCY: u64 = 5000;

pub const DEFAULT_FOFA_API: &'static str = "https://fofa.info/api/v1/";

/// The settings of the forwarder.
pub struct AppConfig {
    pub host: String,
    pub port: u16,
    pub check_url: String,
    pub check_fallback_url: String,
    /// Highest latency, in milliseconds, at which an upstream passes a check.
    pub max_latency: u64,
    pub fofa_api: String,
    pub fofa_key: String,
}

impl Clone for AppConfig {
    fn clone(&self) -> (c: Self)
        ensures
            c == *self,
    {
        AppConfig {
            host: self.host.clone(),
            port: self.port,
            check_url: self.check_url.clone(),
            check_fallback_url: self.check_fallback_url.clone(),
            max_latency: self.max_latency,
            fofa_api: self.fofa_api.clone(),
            fofa_key: self.fofa_key.clone(),
        }
    }
}

/// The default settings.
pub open spec fn is_default_config(c: AppConfig) -> bool {
    &&& c.host@ == DEFAULT_HOST@
    &&& c.port == DEFAULT_PORT
    &&& c.check_url@ == DEFAULT_CHECK_URL@
    &&& c.check_fallback_url@ == Seq::<char>::empty()
    &&& c.max_latency == DEFAULT_MAX_LATENCY
    &&& c.fofa_api@ == DEFAULT_FOFA_API@
    &&& c.fofa_key@ == Seq::<char>::empty()
}

impl Default for AppConfig {
    fn default() -> (c: Self)
        ensures
            is_default_config(c),
    {
        AppConfig {
            host: DEFAULT_HOST.to_owned(),
            port: DEFAULT_PORT,
            check_url: DEFAULT_CHECK_URL.to_owned(),
            check_fallback_url: String::new(),
            max_latency: DEFAULT_MAX_LATENCY,
            fofa_api: DEFAULT_FOFA_API.to_owned(),
            fofa_key: String::new(),
        }
    }
}

/// The fields that a stored configuration may hold; `listen` is the older
/// `host:port` form of the listen address.
pub struct RawConfig {
    pub host: Option<String>,
    pub port: Option<u16>,
    pub listen: Option<String>,
    pub check_url: Option<String>,
    pub check_fallback_url: Option<String>,
    pub max_latency: Option<u64>,
    pub fofa_api: Option<String>,
    pub fofa_key: Option<String>,
}

/// The position of the last `':'` in `s`, or -1.
pub open spec fn last_colon(s: Seq<char>) -> int
    decreases s.len(),
{
    if s.len() == 0 {
        -1
    } else if s.last() == ':' {
        s.len() - 1
    } else {
        last_colon(s.drop_last())
    }
}

pub open spec fn is_digits(s: Seq<char>) -> bool {
    s.len() > 0 && forall|i: int| 0 <= i < s.len() ==> '0' <= #[trigger] s[i] <= '9'
}

/// The number that the decimal digits `s` write.
pub open spec fn digits_value(s: Seq<char>) -> nat
    decreases s.len(),
{
    if s.len() == 0 {
        0
    } else {
        digits_value(s.drop_last()) * 10 + (s.last() as nat - 48) as nat
    }
}

/// What `str::parse::<u16>` gives: an optional `+`, then decimal digits of a
/// value that fits.
pub open spec fn parse_port(s: Seq<char>) -> Option<u16> {
    let d = if s.len() > 0 && s[0] == '+' {
        s.drop_first()
    } else {
        s
    };
    if is_digits(d) && digits_value(d) <= 65535 {
        Some(digits_value(d) as u16)
    } else {
        None
    }
}

/// The host and port of a `host:port` listen address: split at the last
/// `':'`, the port parsed as a `u16`, `[` and `]` stripped from both ends of
/// the host.
pub open spec fn listen_parts(v: Seq<char>) -> Option<(Seq<char>, u16)> {
    let i = last_colon(v);
    if i < 0 {
        None
    } else {
        match parse_port(v.subrange(i + 1, v.len() as int)) {
            None => None,
            Some(p) => Some((strip(v.subrange(0, i), Strip::Bracket), p)),
        }
    }
}

/// The listen address `host:port` of a configuration.
pub open spec fn listen_text(host: Seq<char>, port: u16) -> Seq<char> {
    host + seq![':'] + decimal(port as nat)
}

fn parse_port_chars(v: &[char], from: usize, to: usize) -> (r: Option<u16>)
    requires
        from <= to <= v@.len(),
    ensures
        r == parse_port(v@.subrange(from as int, to as int)),
{
    let ghost s = v@.subrange(from as int, to as int);
    let mut i = from;
    if i < to && v[i] == '+' {
        i = i + 1;
    }
    let ghost d = v@.subrange(i as int, to as int);
    proof {
        if from < to && v@[from as int] == '+' {
            assert(d =~= s.drop_first());
        } else {
            assert(d =~= s);
        }
    }
    if i == to {
        return None;
    }
    let start = i;
    let mut acc: u32 = 0;
    while i < to
        invariant
            start <= i <= to <= v@.len(),
            d == v@.subrange(start as int, to as int),
            s == v@.subrange(from as int, to as int),
            d == (if s.len() > 0 && s[0] == '+' {
                s.drop_first()
            } else {
                s
            }),
            forall|k: int| start <= k < i ==> '0' <= #[trigger] v@[k] <= '9',
            acc == if digits_value(v@.subrange(start as int, i as int)) < 65536 {
                digits_value(v@.subrange(start as int, i as int))
            } else {
                65536
            },
        decreases to - i,
    {
        let c = v[i];
        if c < '0' || c > '9' {
            proof {
                assert(d[i - start] == c);
            }
            return None;
        }
        let dv = (c as u32) - 48;
        let next = acc * 10 + dv;
        acc = if next > 65536 {
            65536
        } else {
            next
        };
        proof {
            let t = v@.subrange(start as int, i + 1);
            assert(t.drop_last() =~= v@.subrange(start as int, i as int));
            assert(t.last() == c);
        }
        i = i + 1;
    }
    proof {
        assert(v@.subrange(start as int, i as int) =~= d);
        assert forall|k: int| 0 <= k < d.len() implies '0' <= #[trigger] d[k] <= '9' by {
            assert(d[k] == v@[start + k]);
        }
    }
    if acc <= 65535 {
        Some(acc as u16)
    } else {
        None
    }
}

/// Splits a `host:port` listen address (`parse_listen_addr`).
pub fn parse_listen_addr(value: &str) -> (r: Option<(String, u16)>)
    ensures
        match r {
            Some((h, p)) => listen_parts(value@) == Some((h@, p)),
            None => listen_parts(value@) is None,
        },
{
    let v = chars_of(value);
    let mut i = v.len();
    proof {
        assert(v@.take(i as int) =~= v@);
    }
    while i > 0 && v[i - 1] != ':'
        invariant
            i <= v@.len(),
            v@ == value@,
            last_colon(v@) == last_colon(v@.take(i as int)),
        decreases i,
    {
        proof {
            assert(v@.take(i as int).drop_last() =~= v@.take(i - 1));
        }
        i = i - 1;
    }
    if i == 0 {
        proof {
            assert(v@.take(0) =~= Seq::<char>::empty());
        }
        return None;
    }
    let colon = i - 1;
    proof {
        assert(v@.take(i as int).last() == ':');
    }
    match parse_port_chars(v.as_slice(), colon + 1, v.len()) {
        None => None,
        Some(port) => {
            let head = string_of(v.as_slice(), 0, colon);
            let hv = chars_of(head.as_str());
            let (a, b) = strip_bounds(hv.as_slice(), &Strip::Bracket);
            let host = string_of(hv.as_slice(), a, b);
            Some((host, port))
        },
    }
}

/// `c` is the configuration that the stored fields `raw` stand for: the
/// defaults, then `listen` if it parses, then each field that is present.
pub open spec fn is_config_of(raw: RawConfig, c: AppConfig) -> bool {
    &&& c.host@ == match raw.host {
        Some(h) => h@,
        None => match raw.listen {
            Some(l) => match listen_parts(l@) {
                Some((h, _)) => h,
                None => DEFAULT_HOST@,
            },
            None => DEFAULT_HOST@,
        },
    }
    &&& c.port == match raw.port {
        Some(p) => p,
        None => match raw.listen {
            Some(l) => match listen_parts(l@) {
                Some((_, p)) => p,
                None => DEFAULT_PORT,
            },
            None => DEFAULT_PORT,
        },
    }
    &&& c.check_url@ == match raw.check_url {
        Some(u) => u@,
        None => DEFAULT_CHECK_URL@,
    }
    &&& c.check_fallback_url@ == match raw.check_fallback_url {
        Some(u) => u@,
        None => Seq::<char>::empty(),
    }
    &&& c.max_latency == match raw.max_latency {
        Some(m) => m,
        None => DEFAULT_MAX_LATENCY,
    }
    &&& c.fofa_api@ == match raw.fofa_api {
        Some(u) => u@,
        None => DEFAULT_FOFA_API@,
    }
    &&& c.fofa_key@ == match raw.fofa_key {
        Some(k) => k@,
        None => Seq::<char>::empty(),
    }
}

/// The stored form of a configuration: every setting present, no `listen`.
pub open spec fn stored_form(c: AppConfig) -> RawConfig {
    RawConfig {
        host: Some(c.host),
        port: Some(c.port),
        listen: None,
        check_url: Some(c.check_url),
        check_fallback_url: Some(c.check_fallback_url),
        max_latency: Some(c.max_latency),
        fofa_api: Some(c.fofa_api),
        fofa_key: Some(c.fofa_key),
    }
}

/// Reading a stored configuration: a setting that is stored is taken as it
/// is; a setting that is missing (with no `listen` for the host and port)
/// has its default, the value `AppConfig::default` gives (`d`).
pub proof fn law_missing_settings_default(raw: RawConfig, c: AppConfig, d: AppConfig)
    requires
        is_config_of(raw, c),
        is_default_config(d),
    ensures
        raw.check_url is None ==> c.check_url@ == d.check_url@,
        raw.check_fallback_url is None ==> c.check_fallback_url@ == d.check_fallback_url@,
        raw.max_latency is None ==> c.max_latency == d.max_latency,
        raw.fofa_api is None ==> c.fofa_api@ == d.fofa_api@,
        raw.fofa_key is None ==> c.fofa_key@ == d.fofa_key@,
        raw.host is None && raw.listen is None ==> c.host@ == d.host@,
        raw.port is None && raw.listen is None ==> c.port == d.port,
        raw.check_url matches Some(u) ==> c.check_url@ == u@,
        raw.check_fallback_url matches Some(u) ==> c.check_fallback_url@ == u@,
        raw.max_latency matches Some(m) ==> c.max_latency == m,
        raw.fofa_api matches Some(u) ==> c.fofa_api@ == u@,
        raw.fofa_key matches Some(k) ==> c.fofa_key@ == k@,
        raw.host matches Some(h) ==> c.host@ == h@,
        raw.port matches Some(p) ==> c.port == p,
{
}

/// Saving a configuration and reading it back gives the same settings: the
/// stored form of `c` stands for `c` again.
pub proof fn law_saved_config_reads_back(c: AppConfig, back: AppConfig)
    requires
        is_config_of(stored_form(c), back),
    ensures
        same_settings(back, c),
{
}

/// What a stored configuration whose text is blank gives: the defaults;
/// nothing when the text must be parsed.
pub fn blank_config(content: &str) -> (r: Option<AppConfig>)
    ensures
        r is Some <==> is_blank(content@),
        r matches Some(c) ==> is_default_config(c),
{
    if is_blank_str(content) {
        Some(AppConfig::default())
    } else {
        None
    }
}

impl RawConfig {
    /// The configuration that a stored one stands for: the defaults, then
    /// `listen` if it parses, then each field that is present.
    pub fn into_app_config(self) -> (c: AppConfig)
        ensures
            is_config_of(self, c),
    {
        let mut config = AppConfig::default();
        if let Some(listen) = self.listen {
            if let Some((host, port)) = parse_listen_addr(listen.as_str()) {
                config.host = host;
                config.port = port;
            }
        }
        if let Some(host) = self.host {
            config.host = host;
        }
        if let Some(port) = self.port {
            config.port = port;
        }
        if let Some(v) = self.check_url {
            config.check_url = v;
        }
        if let Some(v) = self.check_fallback_url {
            config.check_fallback_url = v;
        }
        if let Some(v) = self.max_latency {
            config.max_latency = v;
        }
        if let Some(v) = self.fofa_api {
            config.fofa_api = v;
        }
        if let Some(v) = self.fofa_key {
            config.fofa_key = v;
        }
        config
    }
}

impl RawConfig {
    /// The stored form of `c`, as the configuration file is written.
    pub fn stored(c: &AppConfig) -> (r: RawConfig)
        ensures
            r == stored_form(*c),
    {
        RawConfig {
            host: Some(c.host.clone()),
            port: Some(c.port),
            listen: None,
            check_url: Some(c.check_url.clone()),
            check_fallback_url: Some(c.check_fallback_url.clone()),
            max_latency: Some(c.max_latency),
            fofa_api: Some(c.fofa_api.clone()),
            fofa_key: Some(c.fofa_key.clone()),
        }
    }
}

impl AppConfig {
    /// The address the forwarder listens on, `host:port`.
    pub fn listen_addr(&self) -> (s: String)
        ensures
            s@ == listen_text(self.host@, self.port),
    {
        let mut s = String::new();
        s.append(self.host.as_str());
        push_char(&mut s, ':');
        push_decimal(&mut s, self.port as u64);
        s
    }

    /// Applies one `set` command. A URL that does not parse is refused and
    /// leaves the configuration as it was; a zero latency becomes one.
    pub fn apply(&mut self, command: SetCommand) -> (r: Result<(), ConfigError>)
        ensures
            match command {
                SetCommand::Host { value } => r is Ok && *final(self) == AppConfig {
                    host: value,
                    ..*old(self)
                },
                SetCommand::Port { value } => r is Ok && *final(self) == AppConfig {
                    port: value,
                    ..*old(self)
                },
                SetCommand::CheckUrl { value } => if url_parse(value@) is Some {
                    r is Ok && *final(self) == AppConfig { check_url: value, ..*old(self) }
                } else {
                    r == Err::<(), ConfigError>(ConfigError::InvalidUrl) && *final(self) == *old(
                        self,
                    )
                },
                SetCommand::CheckFallbackUrl { value } => if url_parse(value@) is Some {
                    r is Ok && *final(self) == AppConfig {
                        check_fallback_url: value,
                        ..*old(self)
                    }
                } else {
                    r == Err::<(), ConfigError>(ConfigError::InvalidUrl) && *final(self) == *old(
                        self,
                    )
                },
                SetCommand::MaxLatency { value } => r is Ok && *final(self) == AppConfig {
                    max_latency: if value > 1 {
                        value
                    } else {
                        1
                    },
                    ..*old(self)
                },
                SetCommand::FofaApi { value } => if url_parse(value@) is Some {
                    r is Ok && *final(self) == AppConfig { fofa_api: value, ..*old(self) }
                } else {
                    r == Err::<(), ConfigError>(ConfigError::InvalidUrl) && *final(self) == *old(
                        self,
                    )
                },
                SetCommand::FofaKey { value } => r is Ok && *final(self) == AppConfig {
                    fofa_key: value,
                    ..*old(self)
                },
            },
    {
        match command {
            SetCommand::Host { value } => {
                self.host = value;
            },
            SetCommand::Port { value } => {
                self.port = value;
            },
            SetCommand::CheckUrl { value } => {
                if parse_url(value.as_str()).is_none() {
                    return Err(ConfigError::InvalidUrl);
                }
                self.check_url = value;
            },
            SetCommand::CheckFallbackUrl { value } => {
                if parse_url(value.as_str()).is_none() {
                    return Err(ConfigError::InvalidUrl);
                }
                self.check_fallback_url = value;
            },
            SetCommand::MaxLatency { value } => {
                self.max_latency = if value > 1 {
                    value
                } else {
                    1
                };
            },
            SetCommand::FofaApi { value } => {
                if parse_url(value.as_str()).is_none() {
                    return Err(ConfigError::InvalidUrl);
                }
                self.fofa_api = value;
            },
            SetCommand::FofaKey { value } => {
                self.fofa_key = value;
            },
        }
        Ok(())
    }
}

/// Why a `set` command was refused.
#[derive(Debug, Clone, Copy, PartialEq, Eq, Structural)]
pub enum ConfigError {
    /// The value is not a URL.
    InvalidUrl,
}

/// Two configurations with the same settings.
pub open spec fn same_settings(a: AppConfig, b: AppConfig) -> bool {
    &&& a.host@ == b.host@
    &&& a.port == b.port
    &&& a.check_url@ == b.check_url@
    &&& a.check_fallback_url@ == b.check_fallback_url@
    &&& a.max_latency == b.max_latency
    &&& a.fofa_api@ == b.fofa_api@
    &&& a.fofa_key@ == b.fofa_key@
}

/// What the running forwarder does with a configuration it reloaded.
#[derive(Debug, Clone, Copy, PartialEq, Eq, Structural)]
pub enum Reload {
    /// Nothing changed.
    Keep,
    /// Settings changed, the listen address did not: take the new settings.
    Update,
    /// The listen address changed: take the new settings and bind the
    /// listener to the new address.
    Rebind,
}

fn same_text(a: &str, b: &str) -> (r: bool)
    ensures
        r == (a@ == b@),
{
    match compare_text(a, b) {
        TextOrder::Same => true,
        _ => false,
    }
}

/// What the running forwarder does with the configuration `next` that it
/// reloaded while running with `current`.
pub open spec fn reload_decision(current: AppConfig, next: AppConfig) -> Reload {
    if same_settings(current, next) {
        Reload::Keep
    } else if listen_text(current.host@, current.port) != listen_text(next.host@, next.port) {
        Reload::Rebind
    } else {
        Reload::Update
    }
}

/// Live reload takes over every change: a reloaded configuration is ignored
/// only when each of its seven settings equals the running one; any other
/// change is taken over, with a new listener exactly when the listen
/// address changed.
pub proof fn law_reload_takes_every_change(current: AppConfig, next: AppConfig)
    ensures
        (reload_decision(current, next) == Reload::Keep) <==> (current.host@ == next.host@
            && current.port == next.port && current.check_url@ == next.check_url@
            && current.check_fallback_url@ == next.check_fallback_url@ && current.max_latency
            == next.max_latency && current.fofa_api@ == next.fofa_api@ && current.fofa_key@
            == next.fofa_key@),
        (reload_decision(current, next) == Reload::Rebind) <==> (listen_text(
            current.host@,
            current.port,
        ) != listen_text(next.host@, next.port)),
        current.max_latency != next.max_latency && current.host@ == next.host@ && current.port
            == next.port ==> reload_decision(current, next) == Reload::Update,
{
}

/// Decides what a reloaded configuration changes.
pub fn reload_action(current: &AppConfig, next: &AppConfig) -> (r: Reload)
    ensures
        r == reload_decision(*current, *next),
{
    let same = same_text(current.host.as_str(), next.host.as_str()) && current.port == next.port
        && same_text(current.check_url.as_str(), next.check_url.as_str()) && same_text(
        current.check_fallback_url.as_str(),
        next.check_fallback_url.as_str(),
    ) && current.max_latency == next.max_latency && same_text(
        current.fofa_api.as_str(),
        next.fofa_api.as_str(),
    ) && same_text(current.fofa_key.as_str(), next.fofa_key.as_str());
    if same {
        return Reload::Keep;
    }
    let a = current.listen_addr();
    let b = next.listen_addr();
    if same_text(a.as_str(), b.as_str()) {
        Reload::Update
    } else {
        Reload::Rebind
    }
}

proof fn lemma_decimal_digits(n: nat)
    ensures
        is_digits(decimal(n)),
        digits_value(decimal(n)) == n,
    decreases n,
{
    assert(digit(n % 10) as nat == n % 10 + 48);
    if n < 10 {
        assert(decimal(n) =~= seq![digit(n)]);
        assert(decimal(n).drop_last() =~= Seq::<char>::empty());
        assert(decimal(n).last() == digit(n));
        assert(n % 10 == n);
        assert(digits_value(decimal(n)) == digits_value(decimal(n).drop_last()) * 10 + (decimal(n).last() as nat - 48) as nat);
        assert(digits_value(Seq::<char>::empty()) == 0);
    } else {
        lemma_decimal_digits(n / 10);
        let d = decimal(n);
        assert(d.drop_last() =~= decimal(n / 10));
        assert(d.last() == digit(n % 10));
        vstd::arithmetic::div_mod::lemma_fundamental_div_mod(n as int, 10);
        assert(digits_value(d) == digits_value(d.drop_last()) * 10 + (d.last() as nat - 48) as nat);
        assert(digits_value(d) == (n / 10) * 10 + n % 10);
        assert forall|i: int| 0 <= i < d.len() implies '0' <= #[trigger] d[i] <= '9' by {
            if i < d.len() - 1 {
                assert(d[i] == decimal(n / 10)[i]);
            }
        }
    }
}

proof fn lemma_last_colon_append(t: Seq<char>, u: Seq<char>)
    requires
        forall|i: int| 0 <= i < u.len() ==> '0' <= #[trigger] u[i] <= '9',
    ensures
        last_colon(t + u) == last_colon(t),
    decreases u.len(),
{
    if u.len() == 0 {
        assert(t + u =~= t);
    } else {
        let u1 = u.drop_last();
        assert forall|i: int| 0 <= i < u1.len() implies '0' <= #[trigger] u1[i] <= '9' by {
            assert(u1[i] == u[i]);
        }
        lemma_last_colon_append(t, u1);
        assert((t + u).drop_last() =~= t + u1);
        assert((t + u).last() == u[u.len() - 1]);
    }
}

/// A listen address reads back as the host and port it was made of: the
/// port exactly, the host without enclosing brackets (which IPv6 hosts may
/// carry); `pid.lock` and `config.toml` store listen addresses this way.
pub proof fn law_listen_round_trip(host: Seq<char>, port: u16)
    ensures
        listen_parts(listen_text(host, port)) == Some((strip(host, Strip::Bracket), port)),
        (host.len() == 0 || (host[0] != '[' && host[0] != ']' && host.last() != '['
            && host.last() != ']')) ==> listen_parts(listen_text(host, port)) == Some((host, port)),
{
    let d = decimal(port as nat);
    lemma_decimal_digits(port as nat);
    let x = host + seq![':'];
    let v = listen_text(host, port);
    assert(v =~= x + d);
    lemma_last_colon_append(x, d);
    assert(x.drop_last() =~= host);
    assert(last_colon(x) == host.len());
    assert(v.subrange(host.len() as int + 1, v.len() as int) =~= d);
    assert(v.subrange(0, host.len() as int) =~= host);
    assert(d[0] != '+');
}

} // verus!
