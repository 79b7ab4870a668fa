use pi_switch::config::{FailoverRule, PiSwitchConfig, ProfileInfo, RuleMatch};
use pi_switch::daemon::offline_daemon;
use pi_switch::tui::{backups_newest_first, profile_rows, CircuitBreakerStatus, StatsRange, UiData, UiSources, HOUR_MS};

fn s(x: &str) -> String {
    x.to_string()
}

fn profile(name: &str) -> ProfileInfo {
    ProfileInfo {
        name: s(name),
        api: s("openai-completions"),
        base_url: s("https://up.example.com/v1"),
        api_key: s("k"),
        provider_id: format!("{name}-id"),
        proxy: false,
        exposed_count: 1,
        model_ids: vec![s("m1"), s("m2")],
        headers: vec![],
    }
}

fn rule(providers: &[&str]) -> FailoverRule {
    FailoverRule {
        name: None,
        rule_match: RuleMatch { model_prefix: None, model_contains: None },
        providers: providers.iter().map(|p| s(p)).collect(),
    }
}

fn status(name: &str, state: &str, err: Option<&str>) -> CircuitBreakerStatus {
    CircuitBreakerStatus { name: s(name), state: s(state), last_error: err.map(s) }
}

#[test]
fn ranges_cycle_in_picker_order() {
    assert_eq!(StatsRange::All.next(), StatsRange::Today);
    assert_eq!(StatsRange::Today.next(), StatsRange::Last24h);
    assert_eq!(StatsRange::Last24h.next(), StatsRange::Last7d);
    assert_eq!(StatsRange::Last7d.next(), StatsRange::All);
    assert_eq!(StatsRange::All.prev(), StatsRange::Last7d);
    assert_eq!(StatsRange::Today.prev(), StatsRange::All);
    for r in [StatsRange::All, StatsRange::Today, StatsRange::Last24h, StatsRange::Last7d] {
        assert_eq!(r.next().prev(), r);
        assert_eq!(r.prev().next(), r);
        assert_eq!(r.next().next().next().next(), r);
    }
}

#[test]
fn windows_end_now() {
    let now = 10 * 24 * HOUR_MS;
    assert_eq!(StatsRange::All.window_ms(now, Some(5)), None);
    assert_eq!(StatsRange::Today.window_ms(now, Some(now - 3)), Some((now - 3, now)));
    assert_eq!(StatsRange::Today.window_ms(now, None), Some((now, now)));
    assert_eq!(StatsRange::Last24h.window_ms(now, None), Some((now - 24 * HOUR_MS, now)));
    assert_eq!(StatsRange::Last7d.window_ms(now, None), Some((now - 7 * 24 * HOUR_MS, now)));
    assert_eq!(StatsRange::Last7d.window_ms(1000, None), Some((0, 1000)));
}

#[test]
fn rows_carry_priority_and_circuit_state() {
    let mut config = PiSwitchConfig::default();
    config.profiles = vec![profile("a"), profile("b"), profile("c"), profile("d")];
    config.settings.proxy.rules = vec![rule(&["b", "a"]), rule(&["a", "c", "b"])];
    let statuses = vec![
        status("a", "open", Some("HTTP 502")),
        status("c", "half_open", None),
        status("d", "closed", Some("old")),
    ];
    let rows = profile_rows(&config, &statuses);
    assert_eq!(rows.len(), 4);
    assert_eq!(rows[0].name, "a");
    assert_eq!(rows[0].failover_priority, Some(1));
    assert!(rows[0].in_rules);
    assert!(rows[0].circuit_breaker_open);
    assert_eq!(rows[0].circuit_breaker_error.as_deref(), Some("HTTP 502"));
    assert_eq!(rows[1].failover_priority, Some(0));
    assert!(!rows[1].circuit_breaker_open);
    assert_eq!(rows[2].failover_priority, Some(2));
    assert!(rows[2].circuit_breaker_open);
    assert_eq!(rows[3].failover_priority, None);
    assert!(!rows[3].in_rules);
    assert!(!rows[3].circuit_breaker_open);
    assert_eq!(rows[3].circuit_breaker_error.as_deref(), Some("old"));
    assert_eq!(rows[0].models, vec![s("m1"), s("m2")]);
    assert_eq!(rows[0].provider_id, "a-id");
    assert_eq!(rows[0].base_url, "https://up.example.com/v1");
}

fn sources(config: Option<PiSwitchConfig>) -> UiSources {
    UiSources {
        config,
        circuit_breaker: vec![],
        daemon: Err(s("no daemon")),
        backups: vec![s("b2"), s("b1")],
        pi_default_model: Some(s("gpt-x")),
    }
}

#[test]
fn load_uses_defaults_and_offline_daemon_on_errors() {
    let d = UiData::load(sources(None));
    assert_eq!(d.stats_range, StatsRange::All);
    assert!(d.config.profiles.is_empty());
    assert!(d.profiles.is_empty());
    assert!(!d.daemon.running);
    assert_eq!(d.daemon.message, "no daemon");
    assert_eq!(d.backups, vec![s("b2"), s("b1")]);
    assert_eq!(d.pi_default_model.as_deref(), Some("gpt-x"));
}

#[test]
fn refresh_keeps_the_range_and_model_refresh_keeps_the_rest() {
    let mut config = PiSwitchConfig::default();
    config.profiles = vec![profile("a")];
    let mut d = UiData::load_with_range(StatsRange::Last7d, sources(Some(config.clone())));
    assert_eq!(d.profiles.len(), 1);
    let mut src = sources(Some(config));
    src.daemon = Ok(offline_daemon(s("fine")));
    d.refresh(src);
    assert_eq!(d.stats_range, StatsRange::Last7d);
    assert_eq!(d.daemon.message, "fine");
    d.refresh_pi_model(None);
    assert!(d.pi_default_model.is_none());
    assert_eq!(d.profiles.len(), 1);
    assert_eq!(d.stats_range, StatsRange::Last7d);
}

#[test]
fn backups_are_listed_newest_first() {
    let names = vec![
        s("config-20260101-120000.json"),
        s("config-20260301-080000.json"),
        s("config-20251231-235959.json"),
        s("config-20260301-080000.json"),
    ];
    let mut expected = names.clone();
    expected.sort();
    expected.reverse();
    assert_eq!(backups_newest_first(names), expected);
    assert!(backups_newest_first(vec![]).is_empty());
    let odd = vec![s("b"), s("ab"), s("a"), s("é"), s("")];
    let mut expected = odd.clone();
    expected.sort();
    expected.reverse();
    assert_eq!(backups_newest_first(odd), expected);
}

#[test]
fn no_two_rows_share_a_priority() {
    let mut config = PiSwitchConfig::default();
    config.profiles = vec![profile("a"), profile("b"), profile("c")];
    config.settings.proxy.rules = vec![rule(&["c", "a", "c"]), rule(&["b", "a"])];
    let rows = profile_rows(&config, &vec![]);
    let ps: Vec<Option<usize>> = rows.iter().map(|r| r.failover_priority).collect();
    assert_eq!(ps, vec![Some(1), Some(2), Some(0)]);
}
