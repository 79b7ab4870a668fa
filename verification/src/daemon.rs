//! Daemon management decisions for the background services (proxy, web UI):
//! what `start`, `stop` and `status` report and which clean-up they do, from
//! what was observed of the pid file, the process and its port.

use vstd::prelude::*;
use crate::config::{FailoverRule, PiSwitchConfig, DEFAULT_PROXY_PORT, DEFAULT_WEB_PORT};
use crate::text::{decimal, join_path, owned, path_join, push_all, push_decimal, str_eq};

verus! {

/// A daemon-managed service.
#[derive(Clone, Copy)]
pub struct Service {
    /// pid file name under the config directory
    pub pid_file: &'static str,
    /// log file name under the config directory
    pub log_file: &'static str,
    /// the CLI subcommand that runs the service
    pub subcommand: &'static str,
    /// human label used in status/result messages
    pub label: &'static str,
}

/// The proxy service.
pub open spec fn proxy_spec() -> Service {
    Service { pid_file: "proxy.pid", log_file: "proxy.log", subcommand: "proxy", label: "Proxy" }
}

/// The web UI service.
pub open spec fn webui_spec() -> Service {
    Service { pid_file: "webui.pid", log_file: "webui.log", subcommand: "webui", label: "WebUI" }
}

/// The proxy service.
pub fn proxy_service() -> (s: Service)
    ensures
        s == proxy_spec(),
{
    Service { pid_file: "proxy.pid", log_file: "proxy.log", subcommand: "proxy", label: "Proxy" }
}

/// The web UI service.
pub fn webui_service() -> (s: Service)
    ensures
        s == webui_spec(),
{
    Service { pid_file: "webui.pid", log_file: "webui.log", subcommand: "webui", label: "WebUI" }
}

/// Resolve a service by its subcommand name.
pub fn service_by_name(name: &str) -> (r: Option<Service>)
    ensures
        r == (if name@ == "proxy"@ {
            Some(proxy_spec())
        } else if name@ == "webui"@ {
            Some(webui_spec())
        } else {
            None
        }),
{
    if str_eq(name, "proxy") {
        Some(proxy_service())
    } else if str_eq(name, "webui") {
        Some(webui_service())
    } else {
        None
    }
}

/// The service's pid file under the configuration directory `config_dir`.
pub fn pid_path(service: &Service, config_dir: &str) -> (r: String)
    ensures
        r@ == join_path(config_dir@, service.pid_file@),
{
    path_join(config_dir, service.pid_file)
}

/// The service's log file under the configuration directory `config_dir`.
pub fn log_path(service: &Service, config_dir: &str) -> (r: String)
    ensures
        r@ == join_path(config_dir@, service.log_file@),
{
    path_join(config_dir, service.log_file)
}

/// `bin/pi-switch.js` under `dir`.
pub open spec fn script_under(dir: Seq<char>) -> Seq<char> {
    join_path(join_path(dir, "bin"@), "pi-switch.js"@)
}

/// Where the CLI script is looked for, in order: under the project directory
/// handed in, under `$PI_SWITCH_PROJECT_DIR`, next to the executable, and
/// next to the executable's parent directory (each only when known). The
/// first that exists is used, else `bin/pi-switch.js` relative to the
/// working directory.
pub open spec fn bin_candidates_spec(dirs: Seq<Option<Seq<char>>>) -> Seq<Seq<char>>
    decreases dirs.len(),
{
    if dirs.len() == 0 {
        Seq::empty()
    } else {
        let prev = bin_candidates_spec(dirs.drop_last());
        match dirs.last() {
            Some(d) => prev.push(script_under(d)),
            None => prev,
        }
    }
}

/// The text of an optional string.
pub open spec fn opt_view(o: Option<&str>) -> Option<Seq<char>> {
    match o {
        Some(d) => Some(d@),
        None => None,
    }
}

fn script_path(dir: &str) -> (r: String)
    ensures
        r@ == script_under(dir@),
{
    let b = path_join(dir, "bin");
    path_join(b.as_str(), "pi-switch.js")
}

/// The script locations to try (see [`bin_candidates_spec`]), from the
/// project directory, `$PI_SWITCH_PROJECT_DIR`, the executable's directory
/// and that directory's parent.
pub fn bin_candidates(
    project_dir: Option<&str>,
    env_dir: Option<&str>,
    exe_dir: Option<&str>,
    exe_parent: Option<&str>,
) -> (r: Vec<String>)
    ensures
        r.deep_view() == bin_candidates_spec(
            seq![
                opt_view(project_dir),
                opt_view(env_dir),
                opt_view(exe_dir),
                opt_view(exe_parent),
            ],
        ),
{
    let ghost dirs = seq![
        opt_view(project_dir),
        opt_view(env_dir),
        opt_view(exe_dir),
        opt_view(exe_parent),
    ];
    let mut r: Vec<String> = Vec::new();
    assert(dirs.take(0) =~= Seq::<Option<Seq<char>>>::empty());
    assert(r.deep_view() =~= bin_candidates_spec(dirs.take(0)));
    add_candidate(&mut r, project_dir, Ghost(dirs), 0);
    add_candidate(&mut r, env_dir, Ghost(dirs), 1);
    add_candidate(&mut r, exe_dir, Ghost(dirs), 2);
    add_candidate(&mut r, exe_parent, Ghost(dirs), 3);
    assert(dirs.take(4) =~= dirs);
    r
}

fn add_candidate(r: &mut Vec<String>, dir: Option<&str>, Ghost(dirs): Ghost<Seq<Option<Seq<char>>>>, k: usize)
    requires
        k < dirs.len(),
        dirs[k as int] == opt_view(dir),
        old(r).deep_view() == bin_candidates_spec(dirs.take(k as int)),
    ensures
        final(r).deep_view() == bin_candidates_spec(dirs.take(k + 1)),
{
    assert(dirs.take(k + 1).drop_last() =~= dirs.take(k as int));
    if let Some(d) = dir {
        let ghost prev = r.deep_view();
        r.push(script_path(d));
        assert(r.deep_view() =~= prev.push(script_under(d@)));
    }
}

/// Where the CLI script is assumed to be when no candidate exists.
pub const BIN_FALLBACK: &'static str = "bin/pi-switch.js";

// ─── Process table (Windows) ───────────────────────────────

/// The second comma-separated field of a CSV line, when there is one.
pub open spec fn second_field(line: Seq<char>) -> Option<Seq<char>> {
    let a = crate::models::find_char_from(line, ',', 0);
    if a >= line.len() {
        None
    } else {
        Some(line.subrange(a + 1, crate::models::find_char_from(line, ',', a + 1)))
    }
}

/// A field without its surrounding double quotes, when it has both.
pub open spec fn unquoted(f: Seq<char>) -> Option<Seq<char>> {
    if f.len() >= 2 && f[0] == '"' && f.last() == '"' {
        Some(f.subrange(1, f.len() - 1))
    } else {
        None
    }
}

/// Whether a `tasklist /FO CSV` line is the row of process `pid`: its second
/// field, quoted, holds the pid (surrounding whitespace aside).
pub open spec fn row_has_pid(line: Seq<char>, pid: u32) -> bool {
    match second_field(line) {
        Some(f) => match unquoted(f) {
            Some(inner) => crate::text::trim_spec(inner) == decimal(pid as nat),
            None => false,
        },
        None => false,
    }
}

fn find_from(v: &Vec<char>, c: char, start: usize) -> (k: usize)
    requires
        start <= v.len(),
    ensures
        k == crate::models::find_char_from(v@, c, start as int),
        start <= k <= v.len(),
{
    let mut i = start;
    while i < v.len() && v[i] != c
        invariant
            start <= i <= v.len(),
            crate::models::find_char_from(v@, c, start as int) == crate::models::find_char_from(
                v@,
                c,
                i as int,
            ),
        decreases v.len() - i,
    {
        i += 1;
    }
    i
}

fn line_has_pid(line: &Vec<char>, pid: u32) -> (r: bool)
    ensures
        r == row_has_pid(line@, pid),
{
    let a = find_from(line, ',', 0);
    if a >= line.len() {
        return false;
    }
    let b = find_from(line, ',', a + 1);
    let f = crate::text::string_of_range(line, a + 1, b);
    let fv = crate::text::chars_of(f.as_str());
    if fv.len() < 2 || fv[0] != '"' || fv[fv.len() - 1] != '"' {
        return false;
    }
    let inner = crate::text::string_of_range(&fv, 1, fv.len() - 1);
    let t = crate::text::trim(inner.as_str());
    let mut digits = String::new();
    push_decimal(&mut digits, pid as u64);
    str_eq(t.as_str(), digits.as_str())
}

/// Whether `tasklist /FI "PID eq {pid}" /NH /FO CSV` output lists process
/// `pid`: some line's second field is the quoted pid.
pub fn tasklist_lists_pid(stdout: &str, pid: u32) -> (r: bool)
    ensures
        r == exists|i: int|
            0 <= i < crate::layout::split_lines(stdout@).len() && #[trigger] row_has_pid(
                crate::layout::split_lines(stdout@)[i],
                pid,
            ),
{
    let chars = crate::text::chars_of(stdout);
    let lines = crate::layout::lines_of(&chars);
    let ghost ls = crate::layout::split_lines(stdout@);
    let mut i: usize = 0;
    while i < lines.len()
        invariant
            ls == crate::layout::split_lines(stdout@),
            lines@.len() == ls.len(),
            forall|j: int| 0 <= j < lines@.len() ==> (#[trigger] lines@[j])@ == ls[j],
            0 <= i <= lines.len(),
            forall|j: int| 0 <= j < i ==> !#[trigger] row_has_pid(ls[j], pid),
        decreases lines.len() - i,
    {
        if line_has_pid(&lines[i], pid) {
            assert(row_has_pid(crate::layout::split_lines(stdout@)[i as int], pid));
            return true;
        }
        i += 1;
    }
    false
}

/// The content of a service's pid file.
#[derive(Debug, Clone)]
pub struct DaemonInfo {
    pub pid: u32,
    pub host: String,
    pub port: u16,
    pub started_at: u64,
}

/// What a daemon operation reports.
#[derive(Debug, Clone)]
pub struct DaemonResult {
    pub running: bool,
    pub pid: Option<u32>,
    pub host: Option<String>,
    pub port: Option<u16>,
    pub targets: Option<Vec<String>>,
    pub rules: Option<Vec<FailoverRule>>,
    pub started_at: Option<u64>,
    pub message: String,
}

/// A result that reports nothing but "not running" and `message`.
pub fn offline_daemon(message: String) -> (r: DaemonResult)
    ensures
        !r.running,
        r.pid is None,
        r.host is None,
        r.port is None,
        r.targets is None,
        r.rules is None,
        r.started_at is None,
        r.message@ == message@,
{
    DaemonResult {
        running: false,
        pid: None,
        host: None,
        port: None,
        targets: None,
        rules: None,
        started_at: None,
        message,
    }
}

/// A not-running result for `pid` (no host, port, targets, rules or start time).
pub open spec fn stopped_with_pid(r: DaemonResult, pid: u32) -> bool {
    &&& !r.running
    &&& r.pid == Some(pid)
    &&& r.host is None
    &&& r.port is None
    &&& r.targets is None
    &&& r.rules is None
    &&& r.started_at is None
}

/// A result with neither pid nor anything else but the message.
pub open spec fn bare_offline(r: DaemonResult) -> bool {
    &&& !r.running
    &&& r.pid is None
    &&& r.host is None
    &&& r.port is None
    &&& r.targets is None
    &&& r.rules is None
    &&& r.started_at is None
}

/// `http://{host}:{port}`
pub open spec fn http_addr(host: Seq<char>, port: u16) -> Seq<char> {
    "http://"@ + host + ":"@ + decimal(port as nat)
}

fn push_addr(s: &mut String, host: &str, port: u16)
    ensures
        final(s)@ == old(s)@ + http_addr(host@, port),
{
    push_all(s, "http://");
    push_all(s, host);
    push_all(s, ":");
    push_decimal(s, port as u64);
    assert(final(s)@ =~= old(s)@ + http_addr(host@, port));
}

/// `PID {pid} is not alive (cleaned up stale PID)`
pub open spec fn stale_message(pid: u32) -> Seq<char> {
    "PID "@ + decimal(pid as nat) + " is not alive (cleaned up stale PID)"@
}

/// The report for a pid whose process is gone (its pid file is removed).
pub fn stale_pid_result(pid: u32) -> (r: DaemonResult)
    ensures
        stopped_with_pid(r, pid),
        r.message@ == stale_message(pid),
{
    let mut m = owned("PID ");
    push_decimal(&mut m, pid as u64);
    push_all(&mut m, " is not alive (cleaned up stale PID)");
    assert(m@ =~= stale_message(pid));
    DaemonResult {
        running: false,
        pid: Some(pid),
        host: None,
        port: None,
        targets: None,
        rules: None,
        started_at: None,
        message: m,
    }
}

/// Fallback host and port for a service: the web UI's or the proxy's
/// configured listen address, or loopback on the default port when the
/// configuration cannot be read.
pub fn service_defaults(service: &Service, config: Option<&PiSwitchConfig>) -> (r: (String, u16))
    ensures
        service.subcommand@ == "webui"@ ==> match config {
            Some(c) => r.0@ == c.settings.web.host@ && r.1 == c.settings.web.port,
            None => r.0@ == "127.0.0.1"@ && r.1 == DEFAULT_WEB_PORT,
        },
        service.subcommand@ != "webui"@ ==> match config {
            Some(c) => r.0@ == c.settings.proxy.host@ && r.1 == c.settings.proxy.port,
            None => r.0@ == "127.0.0.1"@ && r.1 == DEFAULT_PROXY_PORT,
        },
{
    if str_eq(service.subcommand, "webui") {
        match config {
            Some(c) => (c.settings.web.host.clone(), c.settings.web.port),
            None => (owned("127.0.0.1"), DEFAULT_WEB_PORT),
        }
    } else {
        match config {
            Some(c) => (c.settings.proxy.host.clone(), c.settings.proxy.port),
            None => (owned("127.0.0.1"), DEFAULT_PROXY_PORT),
        }
    }
}

// ─── Status ────────────────────────────────────────────────

/// `{label} daemon is not running (no PID file)`
pub open spec fn no_pid_status_message(label: Seq<char>) -> Seq<char> {
    label + " daemon is not running (no PID file)"@
}

/// `{label} daemon process exists (PID {pid}) but port {host}:{port} is not
/// responding. Cleaned up stale PID.`
pub open spec fn unresponsive_message(label: Seq<char>, pid: u32, host: Seq<char>, port: u16) -> Seq<
    char,
> {
    label + " daemon process exists (PID "@ + decimal(pid as nat) + ") but port "@ + host + ":"@
        + decimal(port as nat) + " is not responding. Cleaned up stale PID."@
}

/// `{label} daemon is running (PID {pid}) on http://{host}:{port}`
pub open spec fn running_message(label: Seq<char>, pid: u32, host: Seq<char>, port: u16) -> Seq<
    char,
> {
    label + " daemon is running (PID "@ + decimal(pid as nat) + ") on "@ + http_addr(host, port)
}

/// The names of the profiles that expose at least one model, in order.
pub open spec fn exposed_targets(ps: Seq<crate::config::ProfileInfo>) -> Seq<Seq<char>>
    decreases ps.len(),
{
    if ps.len() == 0 {
        Seq::empty()
    } else if ps.last().exposed_count > 0 {
        exposed_targets(ps.drop_last()).push(ps.last().name@)
    } else {
        exposed_targets(ps.drop_last())
    }
}

fn targets_of(ps: &Vec<crate::config::ProfileInfo>) -> (r: Vec<String>)
    ensures
        r.deep_view() == exposed_targets(ps@),
{
    let mut r: Vec<String> = Vec::new();
    let mut i: usize = 0;
    while i < ps.len()
        invariant
            0 <= i <= ps.len(),
            r.deep_view() == exposed_targets(ps@.take(i as int)),
        decreases ps.len() - i,
    {
        assert(ps@.take(i + 1).drop_last() =~= ps@.take(i as int));
        let ghost prev = r.deep_view();
        if ps[i].exposed_count > 0 {
            r.push(ps[i].name.clone());
            assert(r.deep_view() =~= prev.push(ps@[i as int].name@));
        }
        i += 1;
    }
    assert(ps@.take(ps.len() as int) =~= ps@);
    r
}

/// What `status` reports and whether it removes the pid file, from the pid
/// file's content, whether that process is alive, whether its port answers
/// (only asked when it is alive), and the configuration (`None` when it
/// cannot be read).
#[derive(Debug, Clone)]
pub struct StatusOutcome {
    pub result: DaemonResult,
    pub remove_pid_file: bool,
}

/// Report a service's status:
/// - no pid file: not running;
/// - process alive and port answering: running, with pid, address and start
///   time, plus (for the proxy only) the profiles exposing models and the
///   failover rules, each only when there are any;
/// - process alive but port silent, or process gone: not running, and the
///   stale pid file is removed.
pub fn daemon_status(
    service: &Service,
    info: Option<DaemonInfo>,
    alive: bool,
    healthy: bool,
    config: Option<PiSwitchConfig>,
) -> (out: StatusOutcome)
    ensures
        match info {
            None => {
                &&& bare_offline(out.result)
                &&& out.result.message@ == no_pid_status_message(service.label@)
                &&& !out.remove_pid_file
            },
            Some(i) => if !alive {
                &&& stopped_with_pid(out.result, i.pid)
                &&& out.result.message@ == stale_message(i.pid)
                &&& out.remove_pid_file
            } else if !healthy {
                &&& stopped_with_pid(out.result, i.pid)
                &&& out.result.message@ == unresponsive_message(
                    service.label@,
                    i.pid,
                    i.host@,
                    i.port,
                )
                &&& out.remove_pid_file
            } else {
                let is_proxy = service.subcommand@ == "proxy"@;
                &&& out.result.running
                &&& out.result.pid == Some(i.pid)
                &&& out.result.host.deep_view() == Some(i.host@)
                &&& out.result.port == Some(i.port)
                &&& out.result.started_at == Some(i.started_at)
                &&& out.result.message@ == running_message(service.label@, i.pid, i.host@, i.port)
                &&& !out.remove_pid_file
                &&& out.result.targets.deep_view() == (match config {
                    Some(c) => if is_proxy && exposed_targets(c.profiles@).len() > 0 {
                        Some(exposed_targets(c.profiles@))
                    } else {
                        None
                    },
                    None => None,
                })
                &&& out.result.rules == (match config {
                    Some(c) => if is_proxy && c.settings.proxy.rules@.len() > 0 {
                        Some(c.settings.proxy.rules)
                    } else {
                        None
                    },
                    None => None,
                })
            },
        },
{
    let info = match info {
        Some(i) => i,
        None => {
            let mut m = owned(service.label);
            push_all(&mut m, " daemon is not running (no PID file)");
            return StatusOutcome { result: offline_daemon(m), remove_pid_file: false };
        },
    };
    if !alive {
        return StatusOutcome { result: stale_pid_result(info.pid), remove_pid_file: true };
    }
    if !healthy {
        let mut m = owned(service.label);
        push_all(&mut m, " daemon process exists (PID ");
        push_decimal(&mut m, info.pid as u64);
        push_all(&mut m, ") but port ");
        push_all(&mut m, info.host.as_str());
        push_all(&mut m, ":");
        push_decimal(&mut m, info.port as u64);
        push_all(&mut m, " is not responding. Cleaned up stale PID.");
        assert(m@ =~= unresponsive_message(service.label@, info.pid, info.host@, info.port));
        return StatusOutcome {
            result: DaemonResult {
                running: false,
                pid: Some(info.pid),
                host: None,
                port: None,
                targets: None,
                rules: None,
                started_at: None,
                message: m,
            },
            remove_pid_file: true,
        };
    }
    let mut targets: Option<Vec<String>> = None;
    let mut rules: Option<Vec<FailoverRule>> = None;
    if str_eq(service.subcommand, "proxy") {
        if let Some(c) = config {
            let t = targets_of(&c.profiles);
            if t.len() > 0 {
                targets = Some(t);
            }
            if c.settings.proxy.rules.len() > 0 {
                rules = Some(c.settings.proxy.rules);
            }
        }
    }
    let mut m = owned(service.label);
    push_all(&mut m, " daemon is running (PID ");
    push_decimal(&mut m, info.pid as u64);
    push_all(&mut m, ") on ");
    push_addr(&mut m, info.host.as_str(), info.port);
    assert(m@ =~= running_message(service.label@, info.pid, info.host@, info.port));
    let ghost host_view = info.host@;
    StatusOutcome {
        result: DaemonResult {
            running: true,
            pid: Some(info.pid),
            host: Some(info.host),
            port: Some(info.port),
            targets,
            rules,
            started_at: Some(info.started_at),
            message: m,
        },
        remove_pid_file: false,
    }
}


// ─── Start ─────────────────────────────────────────────────

/// `{label} daemon already running (PID {pid}) on http://{host}:{port}`
pub open spec fn already_running_message(label: Seq<char>, pid: u32, host: Seq<char>, port: u16) -> Seq<
    char,
> {
    label + " daemon already running (PID "@ + decimal(pid as nat) + ") on "@ + http_addr(host, port)
}

/// `start` with a pid file present: when its process is alive and its port
/// answers, the service is already running and that is the report;
/// otherwise `None` (the stale pid file is removed and the start goes on).
pub fn start_existing(service: &Service, info: DaemonInfo, alive: bool, healthy: bool) -> (r: Option<
    DaemonResult,
>)
    ensures
        (alive && healthy) == (r is Some),
        r matches Some(d) ==> {
            &&& d.running
            &&& d.pid == Some(info.pid)
            &&& d.host.deep_view() == Some(info.host@)
            &&& d.port == Some(info.port)
            &&& d.targets is None
            &&& d.rules is None
            &&& d.started_at is None
            &&& d.message@ == already_running_message(service.label@, info.pid, info.host@, info.port)
        },
{
    if !(alive && healthy) {
        return None;
    }
    let mut m = owned(service.label);
    push_all(&mut m, " daemon already running (PID ");
    push_decimal(&mut m, info.pid as u64);
    push_all(&mut m, ") on ");
    push_addr(&mut m, info.host.as_str(), info.port);
    assert(m@ =~= already_running_message(service.label@, info.pid, info.host@, info.port));
    Some(
        DaemonResult {
            running: true,
            pid: Some(info.pid),
            host: Some(info.host),
            port: Some(info.port),
            targets: None,
            rules: None,
            started_at: None,
            message: m,
        },
    )
}

/// The address `start` listens on: the requested host and port, each
/// falling back to the service default (see [`service_defaults`]).
pub fn start_listen_address(
    service: &Service,
    host: Option<String>,
    port: Option<u16>,
    config: Option<&PiSwitchConfig>,
) -> (r: (String, u16))
    ensures
        ({
            let is_web = service.subcommand@ == "webui"@;
            let default_host = match config {
                Some(c) => if is_web {
                    c.settings.web.host@
                } else {
                    c.settings.proxy.host@
                },
                None => "127.0.0.1"@,
            };
            let default_port = match config {
                Some(c) => if is_web {
                    c.settings.web.port
                } else {
                    c.settings.proxy.port
                },
                None => if is_web {
                    DEFAULT_WEB_PORT
                } else {
                    DEFAULT_PROXY_PORT
                },
            };
            &&& r.0@ == (match host {
                Some(h) => h@,
                None => default_host,
            })
            &&& r.1 == (match port {
                Some(p) => p,
                None => default_port,
            })
        }),
{
    let (default_host, default_port) = service_defaults(service, config);
    let h = match host {
        Some(h) => h,
        None => default_host,
    };
    let p = match port {
        Some(p) => p,
        None => default_port,
    };
    (h, p)
}

/// `{label} daemon started but failed health check on http://{host}:{port}.
/// Check ~/.pi-switch/{log_file} for errors.`
pub open spec fn health_failed_message(service: Service, host: Seq<char>, port: u16) -> Seq<char> {
    service.label@ + " daemon started but failed health check on "@ + http_addr(host, port)
        + ". Check ~/.pi-switch/"@ + service.log_file@ + " for errors."@
}

/// `{label} daemon started (PID {pid}) on http://{host}:{port}`
pub open spec fn started_message(label: Seq<char>, pid: u32, host: Seq<char>, port: u16) -> Seq<
    char,
> {
    label + " daemon started (PID "@ + decimal(pid as nat) + ") on "@ + http_addr(host, port)
}

/// `start` once the process was spawned (pid `pid`, pid file written at
/// `started_at`) and its port was polled: running when the port answered,
/// else the health-check error (the pid file is removed and the process
/// killed).
pub fn start_finished(
    service: &Service,
    pid: u32,
    host: String,
    port: u16,
    started_at: u64,
    healthy: bool,
) -> (r: Result<DaemonResult, String>)
    ensures
        healthy == (r is Ok),
        r matches Ok(d) ==> {
            &&& d.running
            &&& d.pid == Some(pid)
            &&& d.host.deep_view() == Some(host@)
            &&& d.port == Some(port)
            &&& d.targets is None
            &&& d.rules is None
            &&& d.started_at == Some(started_at)
            &&& d.message@ == started_message(service.label@, pid, host@, port)
        },
        r matches Err(e) ==> e@ == health_failed_message(*service, host@, port),
{
    if !healthy {
        let mut m = owned(service.label);
        push_all(&mut m, " daemon started but failed health check on ");
        push_addr(&mut m, host.as_str(), port);
        push_all(&mut m, ". Check ~/.pi-switch/");
        push_all(&mut m, service.log_file);
        push_all(&mut m, " for errors.");
        assert(m@ =~= health_failed_message(*service, host@, port));
        return Err(m);
    }
    let mut m = owned(service.label);
    push_all(&mut m, " daemon started (PID ");
    push_decimal(&mut m, pid as u64);
    push_all(&mut m, ") on ");
    push_addr(&mut m, host.as_str(), port);
    assert(m@ =~= started_message(service.label@, pid, host@, port));
    Ok(
        DaemonResult {
            running: true,
            pid: Some(pid),
            host: Some(host),
            port: Some(port),
            targets: None,
            rules: None,
            started_at: Some(started_at),
            message: m,
        },
    )
}

// ─── Stop ──────────────────────────────────────────────────

/// How many times `stop` polls (100 ms apart) for the process to exit after
/// asking it to terminate, before killing it.
pub const STOP_POLLS: u32 = 20;

/// `No {label} daemon PID file found`
pub open spec fn no_pid_stop_message(label: Seq<char>) -> Seq<char> {
    "No "@ + label + " daemon PID file found"@
}

/// `stop` without a pid file: nothing to stop.
pub fn stop_without_pid(service: &Service) -> (r: DaemonResult)
    ensures
        bare_offline(r),
        r.message@ == no_pid_stop_message(service.label@),
{
    let mut m = owned("No ");
    push_all(&mut m, service.label);
    push_all(&mut m, " daemon PID file found");
    assert(m@ =~= no_pid_stop_message(service.label@));
    offline_daemon(m)
}

/// `{label} daemon (PID {pid}) stopped`
pub open spec fn stopped_message(label: Seq<char>, pid: u32) -> Seq<char> {
    label + " daemon (PID "@ + decimal(pid as nat) + ") stopped"@
}

/// `{label} daemon (PID {pid}) force killed`
pub open spec fn force_killed_message(label: Seq<char>, pid: u32) -> Seq<char> {
    label + " daemon (PID "@ + decimal(pid as nat) + ") force killed"@
}

/// What `stop` does after a poll of a process it asked to terminate.
#[derive(Debug, Clone)]
pub enum StopStep {
    /// The process exited: remove the pid file and report.
    Stopped(DaemonResult),
    /// Still alive: sleep and poll again.
    Wait,
    /// Still alive after the last poll: kill it, remove the pid file, report.
    ForceKill(DaemonResult),
}

fn pid_message(label: &str, pid: u32, tail: &str) -> (m: String)
    ensures
        m@ == label@ + " daemon (PID "@ + decimal(pid as nat) + ")"@ + tail@,
{
    let mut m = owned(label);
    push_all(&mut m, " daemon (PID ");
    push_decimal(&mut m, pid as u64);
    push_all(&mut m, ")");
    push_all(&mut m, tail);
    m
}

/// `stop`, after poll number `polls` (1-based) of process `pid`: stopped when
/// it is no longer alive, force-killed once the last poll still finds it
/// alive, else wait for the next poll.
pub fn stop_poll(service: &Service, pid: u32, polls: u32, alive: bool) -> (r: StopStep)
    requires
        1 <= polls <= STOP_POLLS,
    ensures
        !alive ==> (r matches StopStep::Stopped(d) && stopped_with_pid(d, pid) && d.message@
            == stopped_message(service.label@, pid)),
        alive && polls < STOP_POLLS ==> r is Wait,
        alive && polls == STOP_POLLS ==> (r matches StopStep::ForceKill(d) && stopped_with_pid(d, pid)
            && d.message@ == force_killed_message(service.label@, pid)),
{
    if !alive {
        let m = pid_message(service.label, pid, " stopped");
        proof {
            reveal_strlit(")");
            reveal_strlit(" stopped");
            reveal_strlit(") stopped");
            assert(m@ =~= stopped_message(service.label@, pid));
        }
        StopStep::Stopped(
            DaemonResult {
                running: false,
                pid: Some(pid),
                host: None,
                port: None,
                targets: None,
                rules: None,
                started_at: None,
                message: m,
            },
        )
    } else if polls < STOP_POLLS {
        StopStep::Wait
    } else {
        let m = pid_message(service.label, pid, " force killed");
        proof {
            reveal_strlit(")");
            reveal_strlit(" force killed");
            reveal_strlit(") force killed");
            assert(m@ =~= force_killed_message(service.label@, pid));
        }
        StopStep::ForceKill(
            DaemonResult {
                running: false,
                pid: Some(pid),
                host: None,
                port: None,
                targets: None,
                rules: None,
                started_at: None,
                message: m,
            },
        )
    }
}

} // verus!
