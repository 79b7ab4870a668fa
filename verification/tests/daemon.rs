use pi_switch::config::{FailoverRule, PiSwitchConfig, ProfileInfo, RuleMatch};
use pi_switch::daemon::{
    bin_candidates, log_path, pid_path, tasklist_lists_pid, BIN_FALLBACK,
    daemon_status, offline_daemon, proxy_service, service_by_name, service_defaults,
    stale_pid_result, start_existing, start_finished, start_listen_address, stop_poll,
    stop_without_pid, webui_service, DaemonInfo, StopStep, STOP_POLLS,
};

fn s(x: &str) -> String {
    x.to_string()
}

fn info() -> DaemonInfo {
    DaemonInfo { pid: 4242, host: s("127.0.0.1"), port: 43112, started_at: 1700000000000 }
}

fn profile(name: &str, exposed: usize) -> ProfileInfo {
    ProfileInfo {
        name: s(name),
        api: s("openai-completions"),
        base_url: s("https://x"),
        api_key: s(""),
        provider_id: s(name),
        proxy: false,
        exposed_count: exposed,
        model_ids: vec![],
        headers: vec![],
    }
}

#[test]
fn services_resolve_by_name() {
    let p = service_by_name("proxy").unwrap();
    assert_eq!(p.pid_file, "proxy.pid");
    assert_eq!(p.log_file, "proxy.log");
    assert_eq!(p.label, "Proxy");
    let w = service_by_name("webui").unwrap();
    assert_eq!(w.subcommand, "webui");
    assert_eq!(w.label, "WebUI");
    assert!(service_by_name("other").is_none());
    assert_eq!(proxy_service().subcommand, "proxy");
    assert_eq!(webui_service().pid_file, "webui.pid");
}

#[test]
fn status_without_pid_file() {
    let out = daemon_status(&proxy_service(), None, false, false, None);
    assert!(!out.result.running);
    assert!(out.result.pid.is_none());
    assert_eq!(out.result.message, "Proxy daemon is not running (no PID file)");
    assert!(!out.remove_pid_file);
}

#[test]
fn status_of_dead_process_cleans_up() {
    let out = daemon_status(&proxy_service(), Some(info()), false, false, None);
    assert!(!out.result.running);
    assert_eq!(out.result.pid, Some(4242));
    assert_eq!(out.result.message, "PID 4242 is not alive (cleaned up stale PID)");
    assert!(out.remove_pid_file);
}

#[test]
fn status_of_silent_port_cleans_up() {
    let out = daemon_status(&webui_service(), Some(info()), true, false, None);
    assert!(!out.result.running);
    assert_eq!(
        out.result.message,
        "WebUI daemon process exists (PID 4242) but port 127.0.0.1:43112 is not responding. Cleaned up stale PID."
    );
    assert!(out.remove_pid_file);
    assert!(out.result.host.is_none());
}

#[test]
fn status_of_running_proxy_lists_targets_and_rules() {
    let mut config = PiSwitchConfig::default();
    config.profiles = vec![profile("a", 2), profile("b", 0), profile("c", 1)];
    config.settings.proxy.rules = vec![FailoverRule {
        name: Some(s("r")),
        rule_match: RuleMatch { model_prefix: Some(s("gpt-")), model_contains: None },
        providers: vec![s("a"), s("c")],
    }];
    let out = daemon_status(&proxy_service(), Some(info()), true, true, Some(config));
    let r = out.result;
    assert!(r.running);
    assert_eq!(r.pid, Some(4242));
    assert_eq!(r.host.as_deref(), Some("127.0.0.1"));
    assert_eq!(r.port, Some(43112));
    assert_eq!(r.started_at, Some(1700000000000));
    assert_eq!(r.targets, Some(vec![s("a"), s("c")]));
    assert_eq!(r.rules.as_ref().unwrap().len(), 1);
    assert_eq!(r.message, "Proxy daemon is running (PID 4242) on http://127.0.0.1:43112");
    assert!(!out.remove_pid_file);
}

#[test]
fn status_of_running_webui_has_no_targets() {
    let mut config = PiSwitchConfig::default();
    config.profiles = vec![profile("a", 2)];
    let out = daemon_status(&webui_service(), Some(info()), true, true, Some(config));
    assert!(out.result.running);
    assert!(out.result.targets.is_none());
    assert!(out.result.rules.is_none());

    let out = daemon_status(&proxy_service(), Some(info()), true, true, None);
    assert!(out.result.targets.is_none());
    assert!(out.result.rules.is_none());
}

#[test]
fn start_reports_an_already_running_daemon() {
    let r = start_existing(&proxy_service(), info(), true, true).unwrap();
    assert!(r.running);
    assert_eq!(r.message, "Proxy daemon already running (PID 4242) on http://127.0.0.1:43112");
    assert!(r.started_at.is_none());
    assert!(start_existing(&proxy_service(), info(), true, false).is_none());
    assert!(start_existing(&proxy_service(), info(), false, true).is_none());
}

#[test]
fn start_address_falls_back_to_configured_defaults() {
    let mut config = PiSwitchConfig::default();
    config.settings.web.host = s("0.0.0.0");
    config.settings.web.port = 9000;
    let (h, p) = start_listen_address(&webui_service(), None, None, Some(&config));
    assert_eq!((h.as_str(), p), ("0.0.0.0", 9000));
    let (h, p) = start_listen_address(&webui_service(), Some(s("::1")), None, Some(&config));
    assert_eq!((h.as_str(), p), ("::1", 9000));
    let (h, p) = start_listen_address(&proxy_service(), None, Some(1234), None);
    assert_eq!((h.as_str(), p), ("127.0.0.1", 1234));
    let (h, p) = service_defaults(&proxy_service(), None);
    assert_eq!((h.as_str(), p), ("127.0.0.1", 43112));
    let (h, p) = service_defaults(&webui_service(), None);
    assert_eq!((h.as_str(), p), ("127.0.0.1", 43110));
}

#[test]
fn start_finishes_by_health() {
    let ok = start_finished(&proxy_service(), 77, s("127.0.0.1"), 43112, 5, true).unwrap();
    assert!(ok.running);
    assert_eq!(ok.pid, Some(77));
    assert_eq!(ok.started_at, Some(5));
    assert_eq!(ok.message, "Proxy daemon started (PID 77) on http://127.0.0.1:43112");
    let err = match start_finished(&webui_service(), 77, s("0.0.0.0"), 43110, 5, false) {
        Err(e) => e,
        Ok(_) => panic!("expected the health-check error"),
    };
    assert_eq!(
        err,
        "WebUI daemon started but failed health check on http://0.0.0.0:43110. Check ~/.pi-switch/webui.log for errors."
    );
}

#[test]
fn stop_steps() {
    let r = stop_without_pid(&proxy_service());
    assert_eq!(r.message, "No Proxy daemon PID file found");
    assert!(r.pid.is_none());

    match stop_poll(&proxy_service(), 9, 1, false) {
        StopStep::Stopped(d) => {
            assert_eq!(d.message, "Proxy daemon (PID 9) stopped");
            assert_eq!(d.pid, Some(9));
        }
        _ => panic!("expected stopped"),
    }
    assert!(matches!(stop_poll(&proxy_service(), 9, 1, true), StopStep::Wait));
    assert!(matches!(stop_poll(&proxy_service(), 9, STOP_POLLS - 1, true), StopStep::Wait));
    match stop_poll(&webui_service(), 9, STOP_POLLS, true) {
        StopStep::ForceKill(d) => assert_eq!(d.message, "WebUI daemon (PID 9) force killed"),
        _ => panic!("expected force kill"),
    }
}

#[test]
fn stale_and_offline_results() {
    let r = stale_pid_result(12);
    assert_eq!(r.message, "PID 12 is not alive (cleaned up stale PID)");
    assert_eq!(r.pid, Some(12));
    let r = offline_daemon(s("boom"));
    assert!(!r.running);
    assert_eq!(r.message, "boom");
}

#[test]
fn pid_and_log_files_live_in_the_config_dir() {
    assert_eq!(pid_path(&proxy_service(), "/home/u/.pi-switch"), "/home/u/.pi-switch/proxy.pid");
    assert_eq!(log_path(&webui_service(), "/home/u/.pi-switch/"), "/home/u/.pi-switch/webui.log");
}

#[test]
fn script_candidates_follow_the_lookup_order() {
    assert_eq!(
        bin_candidates(Some("/proj"), Some("/env"), Some("/usr/lib/node"), Some("/usr/lib")),
        vec![
            s("/proj/bin/pi-switch.js"),
            s("/env/bin/pi-switch.js"),
            s("/usr/lib/node/bin/pi-switch.js"),
            s("/usr/lib/bin/pi-switch.js"),
        ]
    );
    assert_eq!(bin_candidates(None, None, Some("/x/"), None), vec![s("/x/bin/pi-switch.js")]);
    assert!(bin_candidates(None, None, None, None).is_empty());
    assert_eq!(BIN_FALLBACK, "bin/pi-switch.js");
}

#[test]
fn tasklist_rows_are_matched_on_the_pid_column() {
    let out = "\"node.exe\",\"4242\",\"Console\",\"1\",\"50,000 K\"\r\n";
    assert!(tasklist_lists_pid(out, 4242));
    assert!(!tasklist_lists_pid(out, 424));
    assert!(!tasklist_lists_pid("INFO: No tasks are running which match the specified criteria.\r\n", 4242));
    assert!(tasklist_lists_pid("\"a\",\" 7 \"\n\"b\",\"8\"", 8));
    assert!(tasklist_lists_pid("\"a\",\" 7 \"", 7));
    assert!(!tasklist_lists_pid("\"a\",7", 7));
    assert!(!tasklist_lists_pid("", 0));
}
