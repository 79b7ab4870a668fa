use pi_switch::config::expand_env;
use pi_switch::monitor::recovery_log_trim;
use pi_switch::monitor::{probe_url_usable, recovery_log_path};
use pi_switch::config::{FailoverRule, PiSwitchConfig, ProfileInfo, RuleMatch};
use pi_switch::monitor::{
    broken_chains, build_probe, extract_chains, is_node_broken, monitor_active,
    monitor_interval_seconds, probe_plan, CircuitEntry, CircuitStateStore,
};

fn s(x: &str) -> String {
    x.to_string()
}

fn profile(name: &str, exposed: &[&str]) -> ProfileInfo {
    ProfileInfo {
        name: s(name),
        api: s("openai-completions"),
        base_url: s("https://up.example.com/v1"),
        api_key: s("sk-test"),
        provider_id: s(name),
        proxy: false,
        exposed_count: exposed.len(),
        model_ids: vec![],
        headers: vec![],
    }
}

fn config_with(
    rules: Vec<(Vec<&str>, Vec<&str>)>,
    failover: Option<Vec<&str>>,
    target: Option<&str>,
    profiles: Vec<ProfileInfo>,
) -> PiSwitchConfig {
    let mut config = PiSwitchConfig::default();
    config.profiles = profiles;
    config.settings.proxy.rules = rules
        .into_iter()
        .map(|(m, providers)| FailoverRule {
            name: None,
            rule_match: RuleMatch {
                model_prefix: m.first().map(|s| s.to_string()),
                model_contains: m.get(1).map(|s| s.to_string()),
            },
            providers: providers.into_iter().map(|s| s.to_string()).collect(),
        })
        .collect();
    config.settings.proxy.failover = failover
        .map(|v| v.into_iter().map(String::from).collect::<Vec<_>>())
        .unwrap_or_default();
    config.settings.proxy.target = target.map(String::from);
    config
}

fn open_entry(at: u64) -> CircuitEntry {
    CircuitEntry {
        failures: 3,
        opened_at: Some(at),
        last_failure_at: Some(at),
        last_error: Some(s("HTTP 503")),
        last_success_at: None,
        affected_conversations: vec![],
    }
}

fn header<'a>(hs: &'a [(String, String)], name: &str) -> Option<&'a str> {
    hs.iter().find(|(n, _)| n == name).map(|(_, v)| v.as_str())
}

#[test]
fn extract_chains_collects_rule_chains_in_order() {
    let config = config_with(
        vec![(vec![], vec!["a", "b"]), (vec![], vec!["c"])],
        None,
        None,
        vec![],
    );
    assert_eq!(extract_chains(&config), vec![vec!["a", "b"], vec!["c"]]);
}

#[test]
fn extract_chains_falls_back_to_legacy_failover_then_target() {
    let via_failover = config_with(vec![], Some(vec!["a", "b"]), None, vec![]);
    assert_eq!(extract_chains(&via_failover), vec![vec!["a", "b"]]);

    let via_target = config_with(vec![], None, Some("a"), vec![]);
    assert_eq!(extract_chains(&via_target), vec![vec!["a"]]);

    let empty = PiSwitchConfig::default();
    assert!(extract_chains(&empty).is_empty());
}

#[test]
fn extract_chains_deduplicates_and_drops_empties() {
    let config = config_with(
        vec![(vec![], vec!["a", "b"]), (vec![], vec!["a", "b"])],
        Some(vec!["a", "b"]),
        None,
        vec![],
    );
    assert_eq!(extract_chains(&config), vec![vec!["a", "b"]]);

    let empties = config_with(vec![(vec![], vec![]), (vec![], vec!["  "])], None, None, vec![]);
    assert!(extract_chains(&empties).is_empty());
}

#[test]
fn extract_chains_adds_single_node_chains_for_routable_profiles() {
    let config = config_with(
        vec![],
        None,
        None,
        vec![profile("congee", &["gpt-x"]), profile("yiapi", &["gpt-y"])],
    );
    assert_eq!(extract_chains(&config), vec![vec!["congee"], vec!["yiapi"]]);
}

#[test]
fn extract_chains_skips_proxy_profiles_and_unexposed_profiles() {
    let mut gw = profile("gw", &["g"]);
    gw.proxy = true;
    let config = config_with(vec![], None, None, vec![gw, profile("plain", &[])]);
    assert!(extract_chains(&config).is_empty());
}

#[test]
fn extract_chains_skips_profiles_already_covered_by_a_chain() {
    let config = config_with(
        vec![(vec![], vec!["a", "b"])],
        None,
        None,
        vec![profile("a", &["m"]), profile("b", &["m"]), profile("c", &["m"])],
    );
    assert_eq!(extract_chains(&config), vec![vec!["a", "b"], vec!["c"]]);
}

#[test]
fn extract_chains_skips_covered_profiles_in_legacy_chain() {
    let config = config_with(
        vec![],
        Some(vec!["a", "b"]),
        None,
        vec![profile("a", &["m"]), profile("b", &["m"])],
    );
    assert_eq!(extract_chains(&config), vec![vec!["a", "b"]]);
}

#[test]
fn extract_chains_trims_names_and_uses_target_only_without_failover() {
    let config = config_with(
        vec![(vec!["gpt-"], vec![" a ", "", "b"])],
        Some(vec!["x"]),
        Some("t"),
        vec![],
    );
    assert_eq!(extract_chains(&config), vec![vec!["a", "b"], vec!["x"]]);
}

#[test]
fn broken_chains_only_reports_fully_open_chains() {
    let config = config_with(
        vec![(vec![], vec!["a", "b"]), (vec![], vec!["c"])],
        None,
        None,
        vec![profile("a", &["m"]), profile("b", &["m"]), profile("c", &["m"])],
    );
    let mut circuit = CircuitStateStore::new();
    circuit.providers.push((s("a"), open_entry(1000)));
    // only "a" open -> ["a","b"] not fully broken; "c" healthy
    assert!(broken_chains(&config, &circuit).is_empty());

    circuit.providers.push((s("b"), open_entry(2000)));
    let broken = broken_chains(&config, &circuit);
    assert_eq!(broken, vec![vec!["a", "b"]]);
}

#[test]
fn closed_circuits_are_not_broken() {
    let mut circuit = CircuitStateStore::new();
    let mut closed = open_entry(5);
    closed.opened_at = None;
    circuit.providers.push((s("a"), closed));
    circuit.providers.push((s("b"), open_entry(7)));
    assert!(!is_node_broken("a", &circuit));
    assert!(is_node_broken("b", &circuit));
    assert!(!is_node_broken("z", &circuit));
}

#[test]
fn build_probe_uses_bearer_auth_for_openai() {
    let probe = build_probe(&profile("p", &["m"]), "/models");
    assert_eq!(probe.url, "https://up.example.com/v1/models");
    assert_eq!(header(&probe.headers, "authorization").unwrap(), "Bearer sk-test");
    assert!(header(&probe.headers, "x-api-key").is_none());
}

#[test]
fn build_probe_uses_x_api_key_for_anthropic_and_normalizes_path() {
    let mut p = profile("p", &["m"]);
    p.api = s("anthropic-messages");
    p.api_key = s("sk-ant-1");
    let probe = build_probe(&p, "models");
    assert_eq!(probe.url, "https://up.example.com/v1/models");
    assert_eq!(header(&probe.headers, "x-api-key").unwrap(), "sk-ant-1");
    assert_eq!(header(&probe.headers, "anthropic-version").unwrap(), "2023-06-01");
    assert!(header(&probe.headers, "authorization").is_none());
}

#[test]
fn build_probe_merges_custom_headers_and_resolves_env() {
    // `${VAR}` references are resolved from the environment when the
    // profile is read; the probe receives the resolved value.
    let env = vec![(s("WATCHDOG_TEST_KEY"), s("secret-1"))];
    let mut p = profile("p", &["m"]);
    p.headers = vec![
        (s("X-Custom"), expand_env("yes", &env)),
        (s("x-extra"), expand_env("${WATCHDOG_TEST_KEY}", &env)),
    ];
    let probe = build_probe(&p, "/models");
    assert_eq!(header(&probe.headers, "x-custom").unwrap(), "yes");
    assert_eq!(header(&probe.headers, "x-extra").unwrap(), "secret-1");
}

#[test]
fn build_probe_drops_invalid_custom_headers_and_keeps_custom_anthropic_version() {
    let mut p = profile("p", &["m"]);
    p.api = s("Anthropic");
    p.headers = vec![
        (s("bad name"), s("x")),
        (s("x-ctl"), s("a\u{7f}b")),
        (s("Anthropic-Version"), s("2024-01-01")),
    ];
    let probe = build_probe(&p, "/models");
    assert_eq!(
        probe.headers,
        vec![
            (s("anthropic-version"), s("2024-01-01")),
            (s("x-api-key"), s("sk-test")),
        ]
    );
}

#[test]
fn build_probe_trims_trailing_slashes_and_skips_empty_key() {
    let mut p = profile("p", &["m"]);
    p.base_url = s("https://h.example//");
    p.api_key = s("");
    let probe = build_probe(&p, "/v1/models");
    assert_eq!(probe.url, "https://h.example/v1/models");
    assert!(probe.headers.is_empty());
}

#[test]
fn build_probe_leaves_missing_baseurl_unusable() {
    let mut p = profile("p", &[]);
    p.base_url = s("");
    p.api_key = s("k");
    let probe = build_probe(&p, "/models");
    assert!(!probe.url.starts_with("http"));
    assert!(probe.url.is_empty());
    p.base_url = s("///");
    assert!(build_probe(&p, "models").url.is_empty());
}

#[test]
fn profiles_without_base_url_are_not_planned() {
    let mut a = profile("a", &["m"]);
    a.base_url = s("");
    let config = config_with(vec![(vec![], vec!["a"])], None, None, vec![a]);
    let mut circuit = CircuitStateStore::new();
    circuit.providers.push((s("a"), open_entry(1)));
    assert!(probe_plan(&config, &circuit, "/models").is_empty());
}

#[test]
fn probe_plan_lists_each_broken_node_once() {
    let config = config_with(
        vec![(vec![], vec!["a", "b"]), (vec![], vec!["b", "a"]), (vec![], vec!["c"])],
        None,
        None,
        vec![profile("a", &["m"]), profile("c", &["m"])],
    );
    let mut circuit = CircuitStateStore::new();
    circuit.providers.push((s("a"), open_entry(1)));
    circuit.providers.push((s("b"), open_entry(2)));
    let plan = probe_plan(&config, &circuit, "/models");
    // "b" has no profile; "a" is planned once, with the first chain.
    assert_eq!(plan.len(), 1);
    assert_eq!(plan[0].name, "a");
    assert_eq!(plan[0].chain, vec!["a", "b"]);
    assert_eq!(plan[0].request.url, "https://up.example.com/v1/models");
}

#[test]
fn monitor_interval_is_at_least_one_second() {
    let mut config = PiSwitchConfig::default();
    assert_eq!(monitor_interval_seconds(Some(&config)), 15);
    config.settings.proxy.monitor.probe_interval_seconds = 0;
    assert_eq!(monitor_interval_seconds(Some(&config)), 1);
    config.settings.proxy.monitor.probe_interval_seconds = 60;
    assert_eq!(monitor_interval_seconds(Some(&config)), 60);
    assert_eq!(monitor_interval_seconds(None), 15);
}

#[test]
fn monitor_needs_both_the_monitor_and_the_breaker() {
    let mut config = PiSwitchConfig::default();
    assert!(monitor_active(&config));
    config.settings.proxy.circuit_breaker_enabled = false;
    assert!(!monitor_active(&config));
    config.settings.proxy.circuit_breaker_enabled = true;
    config.settings.proxy.monitor.enabled = false;
    assert!(!monitor_active(&config));
}

#[test]
fn recovery_log_lives_in_the_config_dir() {
    assert_eq!(recovery_log_path("/home/u/.pi-switch"), "/home/u/.pi-switch/recovery.jsonl");
    assert_eq!(recovery_log_path("/home/u/.pi-switch/"), "/home/u/.pi-switch/recovery.jsonl");
    assert_eq!(recovery_log_path(""), "recovery.jsonl");
}

#[test]
fn recovery_log_is_cut_to_its_tail_past_a_megabyte() {
    let lines: Vec<String> = (0..250).map(|i| format!("l{i}")).collect();
    assert!(recovery_log_trim(1_000_000, lines.clone()).is_none());
    let kept = recovery_log_trim(1_000_001, lines.clone()).unwrap();
    assert_eq!(kept.len(), 200);
    assert_eq!(kept[0], "l50");
    assert_eq!(kept[199], "l249");
    let few = recovery_log_trim(2_000_000, vec![s("a")]).unwrap();
    assert_eq!(few, vec![s("a")]);
}

#[test]
fn only_http_urls_are_probed() {
    assert!(probe_url_usable("https://up.example.com/v1/models"));
    assert!(probe_url_usable("http://localhost:8080/models"));
    assert!(!probe_url_usable("/models"));
    assert!(!probe_url_usable("htt"));
}

#[test]
fn legacy_target_is_a_chain_only_without_rules_or_failover() {
    let with_rules = config_with(vec![(vec![], vec!["a"])], None, Some("t"), vec![]);
    assert_eq!(extract_chains(&with_rules), vec![vec!["a"]]);
    // A routable target profile is still watched on its own.
    let routable = config_with(vec![(vec![], vec!["a"])], None, Some("t"), vec![profile("t", &["m"])]);
    assert_eq!(extract_chains(&routable), vec![vec!["a"], vec!["t"]]);
    let alone = config_with(vec![], None, Some(" t "), vec![]);
    assert_eq!(extract_chains(&alone), vec![vec!["t"]]);
}

#[test]
fn header_names_are_token_characters_lowercased() {
    let mut p = profile("p", &["m"]);
    p.api_key = s("");
    p.headers = vec![
        (s("X-Trace_ID.v2"), s("a")),
        (s("bad:name"), s("b")),
        (s(""), s("c")),
        (s("héader"), s("d")),
        ("x".repeat(65535), s("e")),
        ("y".repeat(65536), s("f")),
    ];
    let probe = build_probe(&p, "/models");
    assert_eq!(probe.headers.len(), 2);
    assert_eq!(header(&probe.headers, "x-trace_id.v2"), Some("a"));
    assert_eq!(probe.headers[1].1, "e");
}
