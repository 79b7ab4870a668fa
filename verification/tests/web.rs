use pi_switch::rawlog::{
    append_entry, attempt_entry, count, get, list, RawAttempt, RawClientCapture, RawEntry,
    RawLogSettings,
};
use pi_switch::web::{
    asset_path, conversation_id_valid, export_format, generate_password, needs_password,
    optional_usize, parse_usize, password_hex, rawlog_page, request_authorized, resolve_password,
    stored_password, ExportFormat, WebState,
};

fn s(x: &str) -> String {
    x.to_string()
}

#[test]
fn loopback_binds_run_open() {
    assert!(!needs_password("127.0.0.1"));
    assert!(!needs_password("localhost"));
    assert!(!needs_password("::1"));
    assert!(needs_password("0.0.0.0"));
    assert!(needs_password("192.168.1.5"));
}

#[test]
fn stored_passwords_are_trimmed_and_blank_ones_ignored() {
    assert_eq!(stored_password("  abc123\n").as_deref(), Some("abc123"));
    assert!(stored_password(" \n\t").is_none());
    assert!(stored_password("").is_none());
}

#[test]
fn passwords_are_lowercase_hex() {
    assert_eq!(password_hex(&[0x00, 0x0f, 0xa5, 0xff]), "000fa5ff");
    assert_eq!(password_hex(&[]), "");
    let pw = generate_password();
    assert_eq!(pw.len(), 24);
    assert!(pw.chars().all(|c| c.is_ascii_hexdigit() && !c.is_ascii_uppercase()));
}

#[test]
fn password_resolution() {
    assert!(resolve_password("127.0.0.1", Some("x")).is_none());
    assert_eq!(resolve_password("0.0.0.0", Some(" keep \n")), Some((s("keep"), false)));
    let (pw, fresh) = resolve_password("0.0.0.0", Some("   ")).unwrap();
    assert!(fresh);
    assert_eq!(pw.len(), 24);
    let (pw, fresh) = resolve_password("10.0.0.1", None).unwrap();
    assert!(fresh);
    assert_eq!(pw.len(), 24);
}

#[test]
fn basic_auth_checks_admin_credentials() {
    // base64("admin:secret") == "YWRtaW46c2VjcmV0"
    assert!(request_authorized(Some("Basic YWRtaW46c2VjcmV0"), Some("secret")));
    assert!(!request_authorized(Some("Basic YWRtaW46c2VjcmV0"), Some("other")));
    assert!(!request_authorized(Some("Bearer YWRtaW46c2VjcmV0"), Some("secret")));
    assert!(!request_authorized(Some("Basic !!!notbase64"), Some("secret")));
    // base64 of the bytes ff fe (not UTF-8)
    assert!(!request_authorized(Some("Basic //4="), Some("secret")));
    assert!(!request_authorized(None, Some("secret")));
    assert!(request_authorized(None, None));
    assert!(request_authorized(Some("garbage"), None));
}

#[test]
fn web_state_requires_auth_only_with_a_password() {
    let open = WebState { project_dir: None, password: None };
    assert!(!open.auth_required());
    assert!(open.authorizes(None));
    let locked = WebState { project_dir: Some(s("/srv/pi")), password: Some(s("secret")) };
    assert!(locked.auth_required());
    assert!(locked.authorizes(Some("Basic YWRtaW46c2VjcmV0")));
    assert!(!locked.authorizes(None));
}

#[test]
fn usize_parsing_matches_str_parse() {
    assert_eq!(parse_usize("42"), Some(42));
    assert_eq!(parse_usize("+7"), Some(7));
    assert_eq!(parse_usize("007"), Some(7));
    assert_eq!(parse_usize(""), None);
    assert_eq!(parse_usize("+"), None);
    assert_eq!(parse_usize("-1"), None);
    assert_eq!(parse_usize("1a"), None);
    assert_eq!(parse_usize(" 1"), None);
    assert_eq!(parse_usize(&usize::MAX.to_string()), Some(usize::MAX));
    assert_eq!(parse_usize("99999999999999999999999999"), None);
    for n in [0usize, 1, 9, 10, 12345, 1 << 40] {
        assert_eq!(parse_usize(&n.to_string()), n.to_string().parse::<usize>().ok());
    }
}

#[test]
fn rawlog_paging_defaults_and_clamps() {
    assert_eq!(rawlog_page(None, None), (50, 0));
    assert_eq!(rawlog_page(Some("0"), Some("5")), (1, 5));
    assert_eq!(rawlog_page(Some("1000"), Some("x")), (200, 0));
    assert_eq!(rawlog_page(Some("abc"), None), (50, 0));
    assert_eq!(rawlog_page(Some("25"), Some("3")), (25, 3));
    assert_eq!(optional_usize(Some("8")), Some(8));
    assert_eq!(optional_usize(Some("x")), None);
    assert_eq!(optional_usize(None), None);
}

#[test]
fn conversation_ids_must_not_be_blank() {
    assert!(conversation_id_valid("conv-a"));
    assert!(!conversation_id_valid(""));
    assert!(!conversation_id_valid("   "));
}

#[test]
fn asset_paths_default_to_index() {
    assert_eq!(asset_path("/"), "index.html");
    assert_eq!(asset_path(""), "index.html");
    assert_eq!(asset_path("//assets/app.js"), "assets/app.js");
    assert_eq!(asset_path("favicon.ico"), "favicon.ico");
}

#[test]
fn export_formats() {
    assert_eq!(export_format(Some("csv")), ExportFormat::Csv);
    assert_eq!(export_format(Some("json")), ExportFormat::Json);
    assert_eq!(export_format(Some("xml")), ExportFormat::Json);
    assert_eq!(export_format(None), ExportFormat::Json);
    assert_eq!(ExportFormat::Csv.content_type(), "text/csv");
    assert_eq!(ExportFormat::Json.content_type(), "application/json");
    assert_eq!(ExportFormat::Csv.file_name(), "pi-switch-logs.csv");
    assert_eq!(ExportFormat::Json.file_name(), "pi-switch-logs.json");
}

#[test]
fn conversation_requests_empty_id_is_rejected() {
    // `/api/stats/conversations//requests` carries an empty id.
    assert!(!conversation_id_valid(""));
}

#[test]
fn rawlogs_list_detail_and_clear_roundtrip() {
    let client = RawClientCapture::capture(
        &RawLogSettings::default(),
        s("req-seed"),
        s("2025-01-01T00:00:00Z"),
        s("/v1/chat/completions"),
        &vec![],
        "{\"model\":\"m\"}",
    )
    .unwrap();
    let attempt = RawAttempt {
        provider: s("p1"),
        url: s("https://upstream/v1/chat/completions"),
        status: Some(200),
        ok: true,
        headers: vec![],
        body: s("{\"id\":\"r1\"}"),
        body_truncated: false,
        error: None,
    };
    let mut log: Vec<RawEntry> = Vec::new();
    log = append_entry(log, attempt_entry(&client, attempt, s("seed-1"), s("2025-01-01T00:00:01Z")));

    // `?limit=10`
    let (limit, offset) = rawlog_page(Some("10"), None);
    assert_eq!(count(&log), 1);
    let entries = list(log.clone(), limit, offset);
    assert_eq!(entries.len(), 1);
    assert!(entries[0].client.body.is_none(), "list strips bodies");
    assert_eq!(entries[0].client.body_bytes, 13);
    let id = entries[0].id.clone();

    let detail = get(log.clone(), &id).unwrap();
    assert!(detail.client.body.is_some(), "detail keeps bodies");
    assert!(detail.attempt.unwrap().body.is_some());

    assert!(get(log.clone(), "does-not-exist").is_none());

    log.clear();
    assert_eq!(count(&log), 0);
}
