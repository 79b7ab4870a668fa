use pi_switch::rawlog::raw_log_path;
use pi_switch::rawlog::{
    append_entry, attempt_entry, cap_bytes, cap_str, capture_request_headers,
    capture_response_headers, count, error_entry, get, is_skippable_header, keep_latest, list,
    mask_header_value, max_body_bytes, meta_of, new_id, RawAttempt, RawClientCapture, RawEntry,
    RawLogSettings, MAX_RAW_ENTRIES,
};

fn s(x: &str) -> String {
    x.to_string()
}

fn pairs(xs: &[(&str, &str)]) -> Vec<(String, String)> {
    xs.iter().map(|(a, b)| (s(a), s(b))).collect()
}

fn lookup<'a>(hs: &'a [(String, String)], name: &str) -> Option<&'a str> {
    hs.iter().find(|(n, _)| n == name).map(|(_, v)| v.as_str())
}

fn client() -> RawClientCapture {
    RawClientCapture {
        request_id: s("r1"),
        ts: s("2026-08-13T00:00:00Z"),
        method: s("POST"),
        path: s("/v1/chat/completions"),
        headers: vec![],
        body: s("{}"),
        body_truncated: false,
    }
}

#[test]
fn cap_str_keeps_head_on_utf8_boundary() {
    let s = "héllo wörld";
    let (capped, truncated) = cap_str(s, 5);
    assert!(truncated);
    assert!(capped.len() <= 5);
    assert!(capped.is_char_boundary(capped.len()));
    assert_eq!(capped, s[..capped.len()]);
}

#[test]
fn cap_str_short_string_is_untouched() {
    let (capped, truncated) = cap_str("abc", 10);
    assert_eq!(capped, "abc");
    assert!(!truncated);
}

#[test]
fn cap_bytes_cuts_at_limit() {
    let (capped, truncated) = cap_bytes(b"abcdef", 3);
    assert_eq!(capped, b"abc");
    assert!(truncated);
    let (capped, truncated) = cap_bytes(b"abc", 3);
    assert_eq!(capped, b"abc");
    assert!(!truncated);
}

#[test]
fn cap_str_backs_off_to_the_boundary_before_a_split_character() {
    // "h" is 1 byte, "é" is 2: a cap of 2 would split "é".
    let (capped, truncated) = cap_str("héllo", 2);
    assert_eq!(capped, "h");
    assert!(truncated);
    let (capped, truncated) = cap_str("héllo", 3);
    assert_eq!(capped, "hé");
    assert!(truncated);
    let (capped, truncated) = cap_str("é", 0);
    assert_eq!(capped, "");
    assert!(truncated);
}

#[test]
fn request_headers_are_filtered_and_masked() {
    let headers = pairs(&[
        ("authorization", "Bearer super-secret"),
        ("host", "127.0.0.1:43112"),
        ("content-type", "application/json"),
        ("x-conversation-id", "conv-1"),
    ]);
    let captured = capture_request_headers(&headers);
    assert_eq!(lookup(&captured, "authorization").unwrap(), "Bearer ***");
    assert_eq!(lookup(&captured, "content-type").unwrap(), "application/json");
    assert_eq!(lookup(&captured, "x-conversation-id").unwrap(), "conv-1");
    assert!(lookup(&captured, "host").is_none());
}

#[test]
fn response_headers_drop_framing_and_keep_order() {
    let headers = pairs(&[
        ("Transfer-Encoding", "chunked"),
        ("content-type", "text/event-stream"),
        ("Proxy-Foo", "x"),
        ("set-cookie", "session=abc; Path=/"),
        ("x-request-id", "req-9"),
        ("x-api-key", "sk-ant-1"),
    ]);
    let captured = capture_response_headers(&headers);
    assert_eq!(
        captured,
        pairs(&[
            ("content-type", "text/event-stream"),
            ("set-cookie", "***"),
            ("x-request-id", "req-9"),
            ("x-api-key", "***"),
        ])
    );
}

#[test]
fn skippable_headers_are_case_insensitive() {
    assert!(is_skippable_header("Host"));
    assert!(is_skippable_header("CONTENT-LENGTH"));
    assert!(is_skippable_header("te"));
    assert!(is_skippable_header("proxy-anything"));
    assert!(!is_skippable_header("proxy"));
    assert!(!is_skippable_header("content-type"));
    assert!(!is_skippable_header("authorization"));
}

#[test]
fn secret_values_are_hidden_keeping_only_an_auth_scheme() {
    assert_eq!(mask_header_value("Authorization", "Bearer sk-1"), "Bearer ***");
    assert_eq!(mask_header_value("authorization", "  Basic   YWRtaW4="), "Basic ***");
    // A bare credential has no scheme to keep.
    assert_eq!(mask_header_value("authorization", "sk-bare"), "***");
    assert_eq!(mask_header_value("x-api-key", "sk-ant-1"), "***");
    assert_eq!(mask_header_value("X-Api-Key", "Bearer sk-ant-1"), "Bearer ***");
    assert_eq!(mask_header_value("x-api-key", "   "), "***");
    assert_eq!(mask_header_value("authorization", "Cookie a=b"), "***");
    assert_eq!(mask_header_value("cookie", "a=b c=d"), "***");
    assert_eq!(mask_header_value("set-cookie", "session=abc; Path=/"), "***");
    assert_eq!(mask_header_value("accept", "Bearer visible"), "Bearer visible");
}

#[test]
fn capture_respects_disabled_setting() {
    let headers = pairs(&[("content-type", "application/json")]);
    let settings = RawLogSettings::default();
    let capture = RawClientCapture::capture(
        &settings,
        s("id-1"),
        s("2026-01-01T00:00:00Z"),
        s("/v1/chat/completions"),
        &headers,
        "{\"model\":\"x\"}",
    );
    let capture = capture.expect("capture when enabled");
    assert_eq!(capture.path, "/v1/chat/completions");
    assert_eq!(capture.body, "{\"model\":\"x\"}");
    assert!(!capture.body_truncated);
    assert_eq!(capture.method, "POST");

    let off = RawLogSettings { enabled: false, max_body_bytes: 4096 };
    let capture = RawClientCapture::capture(
        &off,
        s("id-2"),
        s("t"),
        s("/v1/messages"),
        &headers,
        "{}",
    );
    assert!(capture.is_none());
}

#[test]
fn capture_caps_the_body_at_the_configured_size() {
    let settings = RawLogSettings { enabled: true, max_body_bytes: 0 };
    assert_eq!(max_body_bytes(&settings), 1024);
    let body = "x".repeat(1500);
    let capture = RawClientCapture::capture(&settings, s("i"), s("t"), s("/p"), &vec![], &body)
        .unwrap();
    assert_eq!(capture.body.len(), 1024);
    assert!(capture.body_truncated);
    assert_eq!(max_body_bytes(&RawLogSettings::default()), 2 * 1024 * 1024);
    assert_eq!(max_body_bytes(&RawLogSettings { enabled: true, max_body_bytes: 5000 }), 5000);
}

#[test]
fn ids_join_millis_and_counter() {
    assert_eq!(new_id(1700000000123, 7), "1700000000123-7");
    assert_eq!(new_id(0, 0), "0-0");
    assert_eq!(new_id(-5, 12), "-5-12");
}

#[test]
fn entry_roundtrip_through_file() {
    let headers = pairs(&[("authorization", "Bearer sk-test")]);
    let client = RawClientCapture::capture(
        &RawLogSettings::default(),
        s("req-1"),
        s("t0"),
        s("/v1/chat/completions"),
        &headers,
        "{\"model\":\"m\"}",
    )
    .expect("capture should be enabled by default");
    let attempt = RawAttempt {
        provider: s("p1"),
        url: s("https://upstream/v1/chat/completions"),
        status: Some(200),
        ok: true,
        headers: pairs(&[("content-type", "application/json")]),
        body: s("{\"id\":\"resp-1\"}"),
        body_truncated: false,
        error: None,
    };
    let mut log: Vec<RawEntry> = Vec::new();
    log = append_entry(log, attempt_entry(&client, attempt, s("1-0"), s("t1")));
    log = append_entry(log, error_entry(&client, "no_route", s("1-1"), s("t2")));

    assert_eq!(count(&log), 2);
    let listed = list(clone_log(&log), 10, 0);
    assert_eq!(listed.len(), 2);
    // Newest first.
    assert!(listed[0].attempt.is_none());
    assert_eq!(listed[1].attempt.as_ref().unwrap().status, Some(200));
    // Bodies stripped in list, sizes kept.
    assert!(listed[1].client.body.is_none());
    assert_eq!(listed[1].client.body_bytes, 13);
    assert_eq!(listed[1].attempt.as_ref().unwrap().body_bytes, 15);

    let full = get(clone_log(&log), &listed[1].id).unwrap();
    assert_eq!(full.client.body.as_deref(), Some("{\"model\":\"m\"}"));
    assert_eq!(lookup(&full.client.headers, "authorization"), Some("Bearer ***"));
    assert_eq!(full.attempt.as_ref().unwrap().body.as_deref(), Some("{\"id\":\"resp-1\"}"));
    assert_eq!(full.request_id, "req-1");
    assert!(full.ok);

    let failed = get(clone_log(&log), "1-1").unwrap();
    assert!(!failed.ok);
    assert_eq!(failed.error.as_deref(), Some("no_route"));
    assert!(get(clone_log(&log), "nope").is_none());
}

fn clone_log(log: &[RawEntry]) -> Vec<RawEntry> {
    log.to_vec()
}

#[test]
fn append_keeps_only_latest_ten_entries() {
    let client = client();
    let mut log: Vec<RawEntry> = Vec::new();
    for i in 0..12 {
        let e = error_entry(&client, &format!("e{i}"), format!("id-{i}"), s("t"));
        log = append_entry(log, e);
    }

    assert_eq!(count(&log), MAX_RAW_ENTRIES);
    let listed = list(clone_log(&log), 100, 0);
    assert_eq!(listed.len(), MAX_RAW_ENTRIES);
    // Newest first: e11 newest, e0/e1 were dropped.
    assert_eq!(listed[0].error.as_deref(), Some("e11"));
    assert_eq!(listed.last().unwrap().error.as_deref(), Some("e2"));
}

#[test]
fn list_pages_with_offset_and_limit() {
    let client = client();
    let mut log: Vec<RawEntry> = Vec::new();
    for i in 0..5 {
        log = append_entry(log, error_entry(&client, &format!("e{i}"), format!("{i}"), s("t")));
    }
    let page = list(clone_log(&log), 2, 1);
    let ids: Vec<&str> = page.iter().map(|e| e.id.as_str()).collect();
    assert_eq!(ids, vec!["3", "2"]);
    assert!(list(clone_log(&log), 3, 5).is_empty());
    assert_eq!(list(clone_log(&log), 10, 3).len(), 2);
    assert!(list(clone_log(&log), 0, 0).is_empty());
}

#[test]
fn get_finds_the_newest_entry_with_the_id() {
    let client = client();
    let log = vec![
        error_entry(&client, "old", s("dup"), s("t")),
        error_entry(&client, "new", s("dup"), s("t")),
    ];
    assert_eq!(get(log, "dup").unwrap().error.as_deref(), Some("new"));
}

#[test]
fn meta_of_strips_bodies_and_records_sizes() {
    let client = RawClientCapture { body: s("héllo"), ..client() };
    let e = error_entry(&client, "x", s("1"), s("t"));
    assert_eq!(e.client.body_bytes, 6);
    let m = meta_of(e);
    assert!(m.client.body.is_none());
    assert_eq!(m.client.body_bytes, 6);
    assert!(m.attempt.is_none());
}

#[test]
fn keep_latest_keeps_the_tail() {
    assert_eq!(keep_latest(vec![1, 2, 3, 4], 2), vec![3, 4]);
    assert_eq!(keep_latest(vec![1, 2], 5), vec![1, 2]);
    assert_eq!(keep_latest(vec![1, 2], 0), Vec::<i32>::new());
}

#[test]
fn raw_log_lives_in_the_state_dir() {
    assert_eq!(raw_log_path("/state"), "/state/raw-requests.log");
}

#[test]
fn the_last_append_is_what_get_returns() {
    let client = client();
    let mut log: Vec<RawEntry> = Vec::new();
    for i in 0..15 {
        log = append_entry(log, error_entry(&client, &format!("e{i}"), s("same-id"), s("t")));
        let got = get(log.clone(), "same-id").unwrap();
        assert_eq!(got.error, Some(format!("e{i}")));
        assert!(log.len() <= MAX_RAW_ENTRIES);
    }
}
