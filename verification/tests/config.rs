use pi_switch::config::{expand_env, PiSwitchConfig, DEFAULT_PROXY_PORT, DEFAULT_WEB_PORT};

fn env(pairs: &[(&str, &str)]) -> Vec<(String, String)> {
    pairs.iter().map(|(k, v)| (k.to_string(), v.to_string())).collect()
}

#[test]
fn env_references_are_expanded() {
    let e = env(&[("WATCHDOG_TEST_KEY", "secret-1"), ("A", "x"), ("A", "shadowed")]);
    assert_eq!(expand_env("${WATCHDOG_TEST_KEY}", &e), "secret-1");
    assert_eq!(expand_env("Bearer ${A}-${A}", &e), "Bearer x-x");
    assert_eq!(expand_env("${MISSING}!", &e), "!");
    assert_eq!(expand_env("plain", &e), "plain");
    assert_eq!(expand_env("$A ${A", &e), "$A ${A");
    assert_eq!(expand_env("${}", &e), "");
    assert_eq!(expand_env("", &e), "");
}

#[test]
fn default_configuration() {
    let c = PiSwitchConfig::default();
    assert!(c.profiles.is_empty());
    assert_eq!(c.settings.proxy.host, "127.0.0.1");
    assert_eq!(c.settings.proxy.port, DEFAULT_PROXY_PORT);
    assert_eq!(c.settings.web.port, DEFAULT_WEB_PORT);
    assert!(c.settings.proxy.monitor.enabled);
    assert_eq!(c.settings.proxy.monitor.probe_path, "/models");
    assert_eq!(c.settings.proxy.monitor.probe_interval_seconds, 15);
    assert_eq!(c.settings.proxy.monitor.probe_timeout_ms, 5000);
    assert!(c.settings.proxy.circuit_breaker_enabled);
    assert!(c.settings.proxy.target.is_none());
}
