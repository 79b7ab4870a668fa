//! The parts of the pi-switch configuration that the library's decisions read.
//!
//! Loading the configuration file is the caller's business; these types hold
//! the values as plain data. `${NAME}` references in credentials are expanded
//! here from environment pairs the caller reads.

use vstd::prelude::*;
use crate::text::owned;

verus! {

/// Which requests a failover rule applies to.
#[derive(Debug, Clone)]
pub struct RuleMatch {
    pub model_prefix: Option<String>,
    pub model_contains: Option<String>,
}

/// A failover rule: matching requests are routed along `providers` in order.
#[derive(Debug, Clone)]
pub struct FailoverRule {
    pub name: Option<String>,
    pub rule_match: RuleMatch,
    pub providers: Vec<String>,
}

/// `settings.proxy.monitor`: the upstream recovery monitor.
#[derive(Debug, Clone)]
pub struct MonitorSettings {
    pub enabled: bool,
    pub probe_interval_seconds: u64,
    pub probe_path: String,
    pub probe_timeout_ms: u64,
}

/// `settings.proxy`.
#[derive(Debug, Clone)]
pub struct ProxySettings {
    pub host: String,
    pub port: u16,
    /// Failover rules, in configuration order.
    pub rules: Vec<FailoverRule>,
    /// The legacy global failover chain.
    pub failover: Vec<String>,
    /// The legacy single target.
    pub target: Option<String>,
    pub monitor: MonitorSettings,
    /// `settings.proxy.circuitBreaker.enabled`.
    pub circuit_breaker_enabled: bool,
}

/// `settings.web`.
#[derive(Debug, Clone)]
pub struct WebSettings {
    pub host: String,
    pub port: u16,
}

#[derive(Debug, Clone)]
pub struct Settings {
    pub proxy: ProxySettings,
    pub web: WebSettings,
}

/// What the library reads of one provider profile.
#[derive(Debug, Clone)]
pub struct ProfileInfo {
    pub name: String,
    /// `api` (empty when absent).
    pub api: String,
    /// `baseUrl` (empty when absent).
    pub base_url: String,
    /// `apiKey` with `$ENV` references resolved (empty when absent).
    pub api_key: String,
    /// The provider id the configuration resolves for this profile.
    pub provider_id: String,
    /// `proxy == true`.
    pub proxy: bool,
    /// Length of the `exposedModels` array (0 when absent).
    pub exposed_count: usize,
    /// The `id`s of the `models` array, in order.
    pub model_ids: Vec<String>,
    /// The string-valued entries of `headers`, values with `$ENV` resolved.
    pub headers: Vec<(String, String)>,
}

/// The configuration: settings and profiles (in configuration order). The
/// file keeps profiles in a map, so a well-formed configuration holds no
/// profile name twice (see [`config_wf`]).
#[derive(Debug, Clone)]
pub struct PiSwitchConfig {
    pub settings: Settings,
    pub profiles: Vec<ProfileInfo>,
}

// ─── Environment references ────────────────────────────────

/// The value of `name` among environment pairs: the first pair's, empty
/// when there is none.
pub open spec fn env_lookup(env: Seq<(Seq<char>, Seq<char>)>, name: Seq<char>) -> Seq<char>
    decreases env.len(),
{
    if env.len() == 0 {
        Seq::empty()
    } else if env[0].0 == name {
        env[0].1
    } else {
        env_lookup(env.drop_first(), name)
    }
}

/// Index of the first `${` in `s` at or after `i`, or `s.len()`.
pub open spec fn ref_start(s: Seq<char>, i: int) -> int
    decreases s.len() - i,
{
    if i < 0 || i + 1 >= s.len() {
        s.len() as int
    } else if s[i] == '$' && s[i + 1] == '{' {
        i
    } else {
        ref_start(s, i + 1)
    }
}

/// Where a `${` is found: in bounds, at or after the search start, with
/// room for the `{`.
pub proof fn lemma_ref_start_bounds(s: Seq<char>, i: int)
    requires
        0 <= i,
    ensures
        i <= ref_start(s, i) || ref_start(s, i) == s.len(),
        0 <= ref_start(s, i) <= s.len(),
        ref_start(s, i) < s.len() ==> ref_start(s, i) + 1 < s.len(),
    decreases s.len() - i,
{
    if i + 1 < s.len() && !(s[i] == '$' && s[i + 1] == '{') {
        lemma_ref_start_bounds(s, i + 1);
    }
}

/// Where a character is found: in bounds, at or after the search start.
pub proof fn lemma_find_char_bounds(s: Seq<char>, c: char, i: int)
    requires
        0 <= i,
    ensures
        i <= crate::models::find_char_from(s, c, i) || crate::models::find_char_from(s, c, i) == s.len(),
        0 <= crate::models::find_char_from(s, c, i) <= s.len(),
    decreases s.len() - i,
{
    if i < s.len() && s[i] != c {
        lemma_find_char_bounds(s, c, i + 1);
    }
}

/// `s` with every `${NAME}` replaced by the value of `NAME` in `env` (empty
/// when unset); a `${` without a closing `}` is kept as it is.
pub open spec fn expand_env_spec(s: Seq<char>, env: Seq<(Seq<char>, Seq<char>)>) -> Seq<char>
    decreases s.len(),
{
    let a = ref_start(s, 0);
    if a >= s.len() {
        s
    } else {
        proof {
            lemma_ref_start_bounds(s, 0);
            lemma_find_char_bounds(s, '}', a + 2);
        }
        let b = crate::models::find_char_from(s, '}', a + 2);
        if b >= s.len() {
            s
        } else {
            s.take(a) + env_lookup(env, s.subrange(a + 2, b)) + expand_env_spec(s.skip(b + 1), env)
        }
    }
}

fn lookup_env(env: &Vec<(String, String)>, name: &Vec<char>) -> (r: String)
    ensures
        r@ == env_lookup(env.deep_view(), name@),
{
    let mut i: usize = 0;
    let ghost ev = env.deep_view();
    assert(ev.skip(0) =~= ev);
    while i < env.len()
        invariant
            ev == env.deep_view(),
            0 <= i <= env.len(),
            env_lookup(ev, name@) == env_lookup(ev.skip(i as int), name@),
        decreases env.len() - i,
    {
        let key = crate::text::chars_of(env[i].0.as_str());
        let mut same = key.len() == name.len();
        let mut j: usize = 0;
        while same && j < key.len()
            invariant
                0 <= j <= key.len(),
                same ==> key.len() == name.len(),
                same == (key.len() == name.len() && forall|k: int| 0 <= k < j ==> key@[k] == name@[k]),
            decreases key.len() - j,
        {
            if key[j] != name[j] {
                same = false;
            }
            j += 1;
        }
        if same {
            assert(key@ =~= name@);
            assert(ev.skip(i as int)[0] == ev[i as int]);
            return env[i].1.clone();
        }
        assert(ev.skip(i as int).drop_first() =~= ev.skip(i + 1));
        i += 1;
    }
    String::new()
}

/// Replace each `${NAME}` in `value` with `NAME`'s value among `env` (see
/// [`expand_env_spec`]).
pub fn expand_env(value: &str, env: &Vec<(String, String)>) -> (r: String)
    ensures
        r@ == expand_env_spec(value@, env.deep_view()),
{
    let v = crate::text::chars_of(value);
    let ghost ev = env.deep_view();
    let mut out = String::new();
    let mut i: usize = 0;
    assert(value@.skip(0) =~= value@);
    while i < v.len()
        invariant
            v@ == value@,
            ev == env.deep_view(),
            0 <= i <= v.len(),
            out@ + expand_env_spec(value@.skip(i as int), ev) == expand_env_spec(value@, ev),
        decreases v.len() - i,
    {
        let ghost rest = value@.skip(i as int);
        // find the next `${`
        let mut a = i;
        while a < v.len() && a + 1 < v.len() && !(v[a] == '$' && v[a + 1] == '{')
            invariant
                v@ == value@,
                i <= a <= v.len(),
                rest == value@.skip(i as int),
                ref_start(rest, 0) == ref_start(rest, a - i),
            decreases v.len() - a,
        {
            assert(rest[a - i] == v@[a as int] && rest[a - i + 1] == v@[a + 1]);
            a += 1;
        }
        if a >= v.len() || v.len() - a < 2 {
            assert(ref_start(rest, (a - i) as int) == rest.len());
            let tail = crate::text::string_of_range(&v, i, v.len());
            crate::text::push_all(&mut out, tail.as_str());
            assert(tail@ =~= rest);
            i = v.len();
            assert(value@.skip(i as int) =~= Seq::<char>::empty());
            assert(expand_env_spec(Seq::<char>::empty(), ev) =~= Seq::<char>::empty());
        } else {
            let mut b = a + 2;
            while b < v.len() && v[b] != '}'
                invariant
                    v@ == value@,
                    i <= a,
                    a + 2 <= b <= v.len(),
                    rest == value@.skip(i as int),
                    rest.len() == v.len() - i,
                    crate::models::find_char_from(rest, '}', a + 2 - i) == crate::models::find_char_from(
                        rest,
                        '}',
                        b - i,
                    ),
                decreases v.len() - b,
            {
                assert(rest[b - i] == v@[b as int]);
                b += 1;
            }
            if b >= v.len() {
                let tail = crate::text::string_of_range(&v, i, v.len());
                crate::text::push_all(&mut out, tail.as_str());
                assert(tail@ =~= rest);
                i = v.len();
                assert(value@.skip(i as int) =~= Seq::<char>::empty());
                assert(expand_env_spec(Seq::<char>::empty(), ev) =~= Seq::<char>::empty());
            } else {
                let head = crate::text::string_of_range(&v, i, a);
                crate::text::push_all(&mut out, head.as_str());
                let name_str = crate::text::string_of_range(&v, a + 2, b);
                let name = crate::text::chars_of(name_str.as_str());
                let val = lookup_env(env, &name);
                crate::text::push_all(&mut out, val.as_str());
                assert(head@ =~= rest.take(a - i));
                assert(name@ =~= rest.subrange(a + 2 - i, b - i));
                assert(rest.skip(b + 1 - i) =~= value@.skip(b + 1));
                i = b + 1;
            }
        }
    }
    assert(value@.skip(v.len() as int) =~= Seq::<char>::empty());
    assert(expand_env_spec(Seq::<char>::empty(), ev) =~= Seq::<char>::empty());
    assert(out@ + Seq::<char>::empty() =~= out@);
    out
}

/// No two profiles share a name (the configuration keeps them in a map).
pub open spec fn profiles_unique(ps: Seq<ProfileInfo>) -> bool {
    forall|i: int, j: int| 0 <= i < j < ps.len() ==> (#[trigger] ps[i]).name@ != (#[trigger] ps[j]).name@
}

/// A well-formed configuration: profile names are unique.
pub open spec fn config_wf(c: PiSwitchConfig) -> bool {
    profiles_unique(c.profiles@)
}

/// Default proxy listen port.
pub const DEFAULT_PROXY_PORT: u16 = 43112;

/// Default web UI listen port.
pub const DEFAULT_WEB_PORT: u16 = 43110;

/// Default monitor probe interval.
pub const DEFAULT_PROBE_INTERVAL_SECONDS: u64 = 15;

impl Default for MonitorSettings {
    /// Monitoring on, probing `/models` every 15 s with a 5 s timeout.
    fn default() -> (m: MonitorSettings)
        ensures
            m.enabled,
            m.probe_interval_seconds == DEFAULT_PROBE_INTERVAL_SECONDS,
            m.probe_path@ == "/models"@,
            m.probe_timeout_ms == 5000,
    {
        MonitorSettings {
            enabled: true,
            probe_interval_seconds: DEFAULT_PROBE_INTERVAL_SECONDS,
            probe_path: owned("/models"),
            probe_timeout_ms: 5000,
        }
    }
}

impl Default for ProxySettings {
    /// Loopback on the default proxy port, no rules, no legacy chain or
    /// target, default monitor, circuit breaker on.
    fn default() -> (p: ProxySettings)
        ensures
            p.host@ == "127.0.0.1"@,
            p.port == DEFAULT_PROXY_PORT,
            p.rules@.len() == 0,
            p.failover@.len() == 0,
            p.target is None,
            p.circuit_breaker_enabled,
            p.monitor.enabled,
            p.monitor.probe_interval_seconds == DEFAULT_PROBE_INTERVAL_SECONDS,
            p.monitor.probe_path@ == "/models"@,
            p.monitor.probe_timeout_ms == 5000,
    {
        ProxySettings {
            host: owned("127.0.0.1"),
            port: DEFAULT_PROXY_PORT,
            rules: Vec::new(),
            failover: Vec::new(),
            target: None,
            monitor: MonitorSettings::default(),
            circuit_breaker_enabled: true,
        }
    }
}

/// Whether `c` is the default configuration: no profiles, the default proxy
/// settings (loopback, default port, no rules, no legacy chain or target,
/// default monitor, breaker on) and the web UI on loopback.
pub open spec fn is_default_config(c: PiSwitchConfig) -> bool {
    &&& c.profiles@.len() == 0
    &&& c.settings.proxy.rules@.len() == 0
    &&& c.settings.proxy.failover@.len() == 0
    &&& c.settings.proxy.target is None
    &&& c.settings.proxy.host@ == "127.0.0.1"@
    &&& c.settings.proxy.port == DEFAULT_PROXY_PORT
    &&& c.settings.proxy.circuit_breaker_enabled
    &&& c.settings.proxy.monitor.enabled
    &&& c.settings.proxy.monitor.probe_interval_seconds == DEFAULT_PROBE_INTERVAL_SECONDS
    &&& c.settings.proxy.monitor.probe_path@ == "/models"@
    &&& c.settings.proxy.monitor.probe_timeout_ms == 5000
    &&& c.settings.web.host@ == "127.0.0.1"@
    &&& c.settings.web.port == DEFAULT_WEB_PORT
}

impl Default for PiSwitchConfig {
    /// No profiles, default proxy settings, web UI on loopback.
    fn default() -> (c: PiSwitchConfig)
        ensures
            is_default_config(c),
    {
        PiSwitchConfig {
            settings: Settings {
                proxy: ProxySettings::default(),
                web: WebSettings { host: owned("127.0.0.1"), port: DEFAULT_WEB_PORT },
            },
            profiles: Vec::new(),
        }
    }
}

} // verus!
