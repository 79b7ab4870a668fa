//! Raw request/response capture: body capping, header filtering and
//! masking, entry building, and the newest-first views of the capture log.
//!
//! Reading and writing the log file, and turning entries into JSON lines and
//! back, is the caller's business; entries are held as [`RawEntry`] values.

use vstd::prelude::*;
use vstd::string::StringSliceAdditionalSpecFns;
use vstd::utf8::{encode_utf8, is_char_boundary, valid_utf8};
use crate::text::{
    ascii_lower_seq, chars_of, is_white_space, is_whitespace, owned, push_all,
    push_signed_decimal, push_decimal, decimal, skip_ws_from, str_eq, string_of_range,
    to_ascii_lowercase,
};

verus! {

/// How many entries the raw log keeps at most (newest win).
pub const MAX_RAW_ENTRIES: usize = 10;

/// The raw log's file name under the state directory.
pub const RAW_LOG_FILE: &'static str = "raw-requests.log";

/// Where the raw log lives: [`RAW_LOG_FILE`] under `state_dir`.
pub fn raw_log_path(state_dir: &str) -> (r: String)
    ensures
        r@ == crate::text::join_path(state_dir@, RAW_LOG_FILE@),
{
    crate::text::path_join(state_dir, RAW_LOG_FILE)
}

/// The smallest per-body capture cap.
pub const MIN_BODY_CAP: usize = 1024;

/// `settings.proxy.rawLog`.
#[derive(Debug, Clone)]
pub struct RawLogSettings {
    pub enabled: bool,
    pub max_body_bytes: usize,
}

impl Default for RawLogSettings {
    /// Capture on, bodies capped at 2 MiB.
    fn default() -> (s: RawLogSettings)
        ensures
            s.enabled,
            s.max_body_bytes == 2 * 1024 * 1024,
    {
        RawLogSettings { enabled: true, max_body_bytes: 2 * 1024 * 1024 }
    }
}

/// Whether raw capture is enabled under `settings`.
pub fn enabled(settings: &RawLogSettings) -> (r: bool)
    ensures
        r == settings.enabled,
{
    settings.enabled
}

/// The per-body capture cap: the configured value, but at least 1 KiB so a
/// configured 0 cannot make captures useless.
pub fn max_body_bytes(settings: &RawLogSettings) -> (r: usize)
    ensures
        r == if settings.max_body_bytes < MIN_BODY_CAP {
            MIN_BODY_CAP
        } else {
            settings.max_body_bytes
        },
{
    if settings.max_body_bytes < MIN_BODY_CAP {
        MIN_BODY_CAP
    } else {
        settings.max_body_bytes
    }
}

/// A log entry id: `{millis}-{seq}`.
pub open spec fn id_spec(millis: i64, seq: u64) -> Seq<char> {
    (if millis < 0 {
        seq!['-'] + decimal((-millis) as nat)
    } else {
        decimal(millis as nat)
    }) + seq!['-'] + decimal(seq as nat)
}

/// The id for wall-clock time `millis` and per-process counter value `seq`.
pub fn new_id(millis: i64, seq: u64) -> (r: String)
    ensures
        r@ == id_spec(millis, seq),
{
    let mut r = String::new();
    push_signed_decimal(&mut r, millis);
    r.push('-');
    push_decimal(&mut r, seq);
    assert(r@ =~= id_spec(millis, seq));
    r
}

// ─── Body capping ──────────────────────────────────────────

/// The largest character boundary of `bytes` at or below `max` (0 at least).
pub open spec fn cap_point(bytes: Seq<u8>, max: int) -> int
    decreases max,
{
    if max <= 0 {
        0
    } else if is_char_boundary(bytes, max) {
        max
    } else {
        cap_point(bytes, max - 1)
    }
}

/// The cut point is a character boundary at or below `max` (and at or
/// below the length): capping keeps whole characters only.
pub proof fn lemma_cap_point(bytes: Seq<u8>, max: int)
    requires
        valid_utf8(bytes),
        0 <= max,
    ensures
        0 <= cap_point(bytes, max) <= max,
        is_char_boundary(bytes, cap_point(bytes, max)),
        cap_point(bytes, max) <= bytes.len(),
    decreases max,
{
    if max > 0 && !is_char_boundary(bytes, max) {
        lemma_cap_point(bytes, max - 1);
    }
}

/// Keep the head of `s` up to `max` bytes, cut on a character boundary.
/// Returns the capped string and whether anything was dropped.
pub fn cap_str(s: &str, max: usize) -> (r: (String, bool))
    ensures
        s.spec_bytes().len() <= max ==> r.0@ == s@ && !r.1,
        s.spec_bytes().len() > max ==> r.1 && encode_utf8(r.0@) == s.spec_bytes().subrange(
            0,
            cap_point(s.spec_bytes(), max as int),
        ),
{
    broadcast use vstd::utf8::group_utf8_lib;

    let n = s.as_bytes().len();
    if n <= max {
        return (owned(s), false);
    }
    let mut end = max;
    while end > 0 && !s.is_char_boundary(end)
        invariant
            end <= max < s.spec_bytes().len(),
            cap_point(s.spec_bytes(), max as int) == cap_point(s.spec_bytes(), end as int),
        decreases end,
    {
        end -= 1;
    }
    let (head, _) = s.split_at(end);
    (owned(head), true)
}

/// Keep the head of `bytes` up to `max` bytes. Returns the capped bytes and
/// whether anything was dropped.
pub fn cap_bytes(bytes: &[u8], max: usize) -> (r: (Vec<u8>, bool))
    ensures
        bytes@.len() <= max ==> r.0@ == bytes@ && !r.1,
        bytes@.len() > max ==> r.0@ == bytes@.take(max as int) && r.1,
{
    let n = if bytes.len() <= max {
        bytes.len()
    } else {
        max
    };
    let mut out: Vec<u8> = Vec::new();
    let mut i: usize = 0;
    while i < n
        invariant
            n <= bytes@.len(),
            0 <= i <= n,
            out@ == bytes@.take(i as int),
        decreases n - i,
    {
        out.push(bytes[i]);
        i += 1;
        assert(out@ =~= bytes@.take(i as int));
    }
    assert(bytes@.len() <= max ==> bytes@.take(n as int) =~= bytes@);
    (out, bytes.len() > max)
}

// ─── Header capture ────────────────────────────────────────

/// Hop-by-hop and framing headers, which captures skip.
pub open spec fn skippable_header(name: Seq<char>) -> bool {
    let lower = ascii_lower_seq(name);
    ||| lower == "host"@
    ||| lower == "connection"@
    ||| lower == "content-length"@
    ||| lower == "transfer-encoding"@
    ||| lower == "upgrade"@
    ||| lower == "keep-alive"@
    ||| lower == "te"@
    ||| lower == "trailer"@
    ||| lower == "proxy-authenticate"@
    ||| lower == "proxy-authorization"@
    ||| lower == "proxy-connection"@
    ||| (lower.len() >= 6 && lower.take(6) == "proxy-"@)
}

pub(crate) fn starts_with(s: &str, prefix: &str) -> (r: bool)
    ensures
        r == (s@.len() >= prefix@.len() && s@.take(prefix@.len() as int) == prefix@),
{
    let v = chars_of(s);
    let p = chars_of(prefix);
    if p.len() > v.len() {
        return false;
    }
    let mut i: usize = 0;
    while i < p.len()
        invariant
            v@ == s@,
            p@ == prefix@,
            p.len() <= v.len(),
            0 <= i <= p.len(),
            forall|j: int| 0 <= j < i ==> v@[j] == p@[j],
        decreases p.len() - i,
    {
        if v[i] != p[i] {
            assert(s@.take(prefix@.len() as int)[i as int] != prefix@[i as int]);
            return false;
        }
        i += 1;
    }
    assert(s@.take(prefix@.len() as int) =~= prefix@);
    true
}

/// Whether a header is hop-by-hop / framing (skipped in captures).
pub fn is_skippable_header(name: &str) -> (r: bool)
    ensures
        r == skippable_header(name@),
{
    let lower = to_ascii_lowercase(name);
    let l = lower.as_str();
    let r = str_eq(l, "host") || str_eq(l, "connection") || str_eq(l, "content-length") || str_eq(
        l,
        "transfer-encoding",
    ) || str_eq(l, "upgrade") || str_eq(l, "keep-alive") || str_eq(l, "te") || str_eq(
        l,
        "trailer",
    ) || str_eq(l, "proxy-authenticate") || str_eq(l, "proxy-authorization") || str_eq(
        l,
        "proxy-connection",
    ) || starts_with(l, "proxy-");
    proof {
        reveal_strlit("proxy-");
    }
    r
}

/// Index of the first whitespace character of `s` at or after `i`, or `s.len()`.
pub open spec fn next_ws_from(s: Seq<char>, i: int) -> int
    decreases s.len() - i,
{
    if i < 0 || i >= s.len() {
        s.len() as int
    } else if is_white_space(s[i]) {
        i
    } else {
        next_ws_from(s, i + 1)
    }
}

/// The first whitespace-separated word of `s` (`split_whitespace().next()`).
pub open spec fn first_word(s: Seq<char>) -> Option<Seq<char>> {
    let a = skip_ws_from(s, 0);
    if a >= s.len() {
        None
    } else {
        Some(s.subrange(a, next_ws_from(s, a)))
    }
}

/// Headers whose values would leak credentials.
pub open spec fn secret_header(name: Seq<char>) -> bool {
    let lower = ascii_lower_seq(name);
    lower == "authorization"@ || lower == "x-api-key"@ || lower == "cookie"@ || lower
        == "set-cookie"@
}

/// Whether `s` has a second whitespace-separated word.
pub open spec fn has_second_word(s: Seq<char>) -> bool {
    let a = skip_ws_from(s, 0);
    a < s.len() && skip_ws_from(s, next_ws_from(s, a)) < s.len()
}

/// Whether credentials of header `name` may carry a scheme word
/// (`authorization`, `x-api-key`).
pub open spec fn scheme_header(name: Seq<char>) -> bool {
    ascii_lower_seq(name) == "authorization"@ || ascii_lower_seq(name) == "x-api-key"@
}

/// A captured header value. Credential values never reach the log: an
/// `authorization` or `x-api-key` value made of a scheme followed by more
/// text keeps only its scheme (`{scheme} ***`, unless the scheme is `cookie`
/// in any case); every other credential value becomes `***` whole (a bare
/// key, any cookie). Other values are kept.
pub open spec fn masked_value(name: Seq<char>, value: Seq<char>) -> Seq<char> {
    if secret_header(name) {
        match first_word(value) {
            Some(w) => if scheme_header(name) && has_second_word(value)
                && ascii_lower_seq(w) != ascii_lower_seq("cookie"@) {
                w + " ***"@
            } else {
                "***"@
            },
            None => "***"@,
        }
    } else {
        value
    }
}

fn first_word_of(s: &str) -> (r: (Option<String>, bool))
    ensures
        r.0.deep_view() == first_word(s@),
        r.1 == has_second_word(s@),
{
    let v = chars_of(s);
    let mut a: usize = 0;
    while a < v.len() && is_whitespace(v[a])
        invariant
            v@ == s@,
            0 <= a <= v.len(),
            skip_ws_from(s@, 0) == skip_ws_from(s@, a as int),
        decreases v.len() - a,
    {
        a += 1;
    }
    if a >= v.len() {
        return (None, false);
    }
    let mut b = a;
    while b < v.len() && !is_whitespace(v[b])
        invariant
            v@ == s@,
            a <= b <= v.len(),
            next_ws_from(s@, a as int) == next_ws_from(s@, b as int),
        decreases v.len() - b,
    {
        b += 1;
    }
    let mut c = b;
    while c < v.len() && is_whitespace(v[c])
        invariant
            v@ == s@,
            b <= c <= v.len(),
            skip_ws_from(s@, b as int) == skip_ws_from(s@, c as int),
        decreases v.len() - c,
    {
        c += 1;
    }
    (Some(string_of_range(&v, a, b)), c < v.len())
}

/// Mask a header value that would leak credentials (see [`masked_value`]).
pub fn mask_header_value(name: &str, value: &str) -> (r: String)
    ensures
        r@ == masked_value(name@, value@),
{
    let lower = to_ascii_lowercase(name);
    let l = lower.as_str();
    if str_eq(l, "authorization") || str_eq(l, "x-api-key") || str_eq(l, "cookie") || str_eq(
        l,
        "set-cookie",
    ) {
        match first_word_of(value) {
            (Some(w), more) => {
                let wl = to_ascii_lowercase(w.as_str());
                let cl = to_ascii_lowercase("cookie");
                if (str_eq(l, "authorization") || str_eq(l, "x-api-key")) && more && !str_eq(
                    wl.as_str(),
                    cl.as_str(),
                ) {
                    let mut r = w;
                    push_all(&mut r, " ***");
                    r
                } else {
                    owned("***")
                }
            },
            (None, _) => owned("***"),
        }
    } else {
        owned(value)
    }
}

pub type HeaderPairs = Seq<(Seq<char>, Seq<char>)>;

/// Captured headers: hop-by-hop ones dropped, credentials masked, order kept.
pub open spec fn captured_headers(hs: HeaderPairs) -> HeaderPairs
    decreases hs.len(),
{
    if hs.len() == 0 {
        Seq::empty()
    } else {
        let acc = captured_headers(hs.drop_last());
        let (n, v) = hs.last();
        if skippable_header(n) {
            acc
        } else {
            acc.push((n, masked_value(n, v)))
        }
    }
}

/// Whether `w` is one word: non-empty, without whitespace.
pub open spec fn one_word(w: Seq<char>) -> bool {
    w.len() > 0 && forall|i: int| 0 <= i < w.len() ==> !is_white_space(#[trigger] w[i])
}

/// A hidden credential value: `***`, or, for `authorization` and
/// `x-api-key` only, a single scheme word followed by ` ***`.
pub open spec fn credential_hidden(name: Seq<char>, v: Seq<char>) -> bool {
    ||| v == "***"@
    ||| (scheme_header(name) && v.len() >= 5 && v.skip(v.len() - 4)
        == " ***"@ && one_word(v.take(v.len() - 4)))
}

proof fn lemma_first_word_one_word(s: Seq<char>, i: int)
    requires
        0 <= i <= s.len(),
    ensures
        i <= next_ws_from(s, i) <= s.len(),
        forall|k: int| i <= k < next_ws_from(s, i) ==> !is_white_space(#[trigger] s[k]),
    decreases s.len() - i,
{
    if i < s.len() && !is_white_space(s[i]) {
        lemma_first_word_one_word(s, i + 1);
    }
}

proof fn lemma_skip_ws_bounds(s: Seq<char>, i: int)
    requires
        0 <= i <= s.len(),
    ensures
        i <= skip_ws_from(s, i) <= s.len(),
        skip_ws_from(s, i) < s.len() ==> !is_white_space(s[skip_ws_from(s, i)]),
    decreases s.len() - i,
{
    if i < s.len() && is_white_space(s[i]) {
        lemma_skip_ws_bounds(s, i + 1);
    }
}

/// The mask never lets a credential through: a credential header's captured
/// value is `***`, or (for `authorization` and `x-api-key`) a scheme word
/// followed by ` ***` when the value had more text after that word; a bare
/// key and any cookie become `***`.
pub proof fn lemma_masked_secret_hidden(n: Seq<char>, v: Seq<char>)
    requires
        secret_header(n),
    ensures
        credential_hidden(n, masked_value(n, v)),
        !has_second_word(v) ==> masked_value(n, v) == "***"@,
        !scheme_header(n) ==> masked_value(n, v) == "***"@,
{
    reveal_strlit(" ***");
    match first_word(v) {
        Some(w) => if scheme_header(n) && has_second_word(v) && ascii_lower_seq(w)
            != ascii_lower_seq("cookie"@) {
            let a = skip_ws_from(v, 0);
            lemma_skip_ws_bounds(v, 0);
            lemma_first_word_one_word(v, a);
            let m = w + " ***"@;
            assert(m.skip(m.len() - 4) =~= " ***"@);
            assert(m.take(m.len() - 4) =~= w);
            assert forall|i: int| 0 <= i < w.len() implies !is_white_space(#[trigger] w[i]) by {
                assert(w[i] == v[a + i]);
            }
            assert(w.len() > 0) by {
                assert(!is_white_space(v[a]));
                lemma_first_word_nonempty(v, a);
            }
        },
        None => {},
    }
}

proof fn lemma_first_word_nonempty(s: Seq<char>, a: int)
    requires
        0 <= a < s.len(),
        !is_white_space(s[a]),
    ensures
        next_ws_from(s, a) > a,
{
    lemma_first_word_one_word(s, a + 1);
}

/// Captures never hold a hop-by-hop header, and the value of every
/// credential header in them is hidden (see [`credential_hidden`]).
pub proof fn lemma_captured_headers_safe(hs: HeaderPairs)
    ensures
        forall|i: int|
            0 <= i < captured_headers(hs).len() ==> !skippable_header(
                #[trigger] captured_headers(hs)[i].0,
            ),
        forall|i: int|
            0 <= i < captured_headers(hs).len() && secret_header(#[trigger] captured_headers(hs)[i].0)
                ==> credential_hidden(captured_headers(hs)[i].0, captured_headers(hs)[i].1),
    decreases hs.len(),
{
    if hs.len() > 0 {
        lemma_captured_headers_safe(hs.drop_last());
        let acc = captured_headers(hs.drop_last());
        let (n, v) = hs.last();
        if !skippable_header(n) {
            let r = acc.push((n, masked_value(n, v)));
            assert(captured_headers(hs) == r);
            if secret_header(n) {
                lemma_masked_secret_hidden(n, v);
            }
            assert forall|i: int| 0 <= i < r.len() implies !skippable_header(#[trigger] r[i].0) by {
                if i < acc.len() {
                    assert(r[i] == acc[i]);
                }
            }
            assert forall|i: int|
                0 <= i < r.len() && secret_header(#[trigger] r[i].0) implies credential_hidden(r[i].0, r[i].1) by {
                if i < acc.len() {
                    assert(r[i] == acc[i]);
                }
            }
        }
    }
}

fn capture_headers(headers: &Vec<(String, String)>) -> (r: Vec<(String, String)>)
    ensures
        r.deep_view() == captured_headers(headers.deep_view()),
{
    let ghost hs = headers.deep_view();
    let mut r: Vec<(String, String)> = Vec::new();
    let mut i: usize = 0;
    while i < headers.len()
        invariant
            hs == headers.deep_view(),
            0 <= i <= headers.len(),
            r.deep_view() == captured_headers(hs.take(i as int)),
        decreases headers.len() - i,
    {
        assert(hs.take(i + 1).drop_last() =~= hs.take(i as int));
        let (n, v) = &headers[i];
        if !is_skippable_header(n.as_str()) {
            let ghost prev = r.deep_view();
            let masked = mask_header_value(n.as_str(), v.as_str());
            r.push((n.clone(), masked));
            assert(r.deep_view() =~= prev.push((n@, masked_value(n@, v@))));
        }
        i += 1;
    }
    assert(hs.take(headers.len() as int) =~= hs);
    r
}

/// Captureable headers of a client request (name, value as text): hop-by-hop
/// filtered, secrets masked.
pub fn capture_request_headers(headers: &Vec<(String, String)>) -> (r: Vec<(String, String)>)
    ensures
        r.deep_view() == captured_headers(headers.deep_view()),
{
    capture_headers(headers)
}

/// Captureable headers of an upstream response (name, value as text):
/// hop-by-hop filtered, secrets masked.
pub fn capture_response_headers(headers: &Vec<(String, String)>) -> (r: Vec<(String, String)>)
    ensures
        r.deep_view() == captured_headers(headers.deep_view()),
{
    capture_headers(headers)
}


// ─── Capture records ───────────────────────────────────────

/// The raw client request, captured once per incoming request and copied
/// into every attempt entry of that request.
#[derive(Debug, Clone)]
pub struct RawClientCapture {
    /// Shared by every attempt entry of the same incoming request.
    pub request_id: String,
    /// When the request was received.
    pub ts: String,
    pub method: String,
    pub path: String,
    /// Hop-by-hop filtered, secrets masked.
    pub headers: Vec<(String, String)>,
    /// Raw body, capped.
    pub body: String,
    pub body_truncated: bool,
}

/// One upstream attempt: provider, URL, response metadata and raw body.
#[derive(Debug, Clone)]
pub struct RawAttempt {
    pub provider: String,
    pub url: String,
    pub status: Option<u16>,
    pub ok: bool,
    pub headers: Vec<(String, String)>,
    pub body: String,
    pub body_truncated: bool,
    pub error: Option<String>,
}

impl RawClientCapture {
    /// Capture the client request when raw logging is enabled (`None`
    /// otherwise): a `POST` of `path` with the captured headers and the body
    /// capped at the configured cap. `request_id` and `ts` are the fresh id
    /// and the receive time.
    pub fn capture(
        settings: &RawLogSettings,
        request_id: String,
        ts: String,
        path: String,
        headers: &Vec<(String, String)>,
        raw_body: &str,
    ) -> (r: Option<RawClientCapture>)
        ensures
            settings.enabled == (r is Some),
            r matches Some(c) ==> {
                let cap = if settings.max_body_bytes < MIN_BODY_CAP {
                    MIN_BODY_CAP
                } else {
                    settings.max_body_bytes
                };
                &&& c.request_id@ == request_id@
                &&& c.ts@ == ts@
                &&& c.method@ == "POST"@
                &&& c.path@ == path@
                &&& c.headers.deep_view() == captured_headers(headers.deep_view())
                &&& raw_body.spec_bytes().len() <= cap ==> c.body@ == raw_body@ && !c.body_truncated
                &&& raw_body.spec_bytes().len() > cap ==> c.body_truncated && encode_utf8(c.body@)
                    == raw_body.spec_bytes().subrange(0, cap_point(raw_body.spec_bytes(), cap as int))
            },
    {
        if !enabled(settings) {
            return None;
        }
        let (body, body_truncated) = cap_str(raw_body, max_body_bytes(settings));
        Some(
            RawClientCapture {
                request_id,
                ts,
                method: owned("POST"),
                path,
                headers: capture_request_headers(headers),
                body,
                body_truncated,
            },
        )
    }
}

/// The client part of a log entry.
#[derive(Debug, Clone)]
pub struct RawClientRecord {
    pub ts: String,
    pub method: String,
    pub path: String,
    pub headers: Vec<(String, String)>,
    /// `None` once stripped for listing.
    pub body: Option<String>,
    pub body_truncated: bool,
    /// Size of the body in bytes.
    pub body_bytes: usize,
}

/// The upstream part of a log entry.
#[derive(Debug, Clone)]
pub struct RawAttemptRecord {
    pub provider: String,
    pub url: String,
    pub status: Option<u16>,
    pub ok: bool,
    pub headers: Vec<(String, String)>,
    /// `None` once stripped for listing.
    pub body: Option<String>,
    pub body_truncated: bool,
    /// Size of the body in bytes.
    pub body_bytes: usize,
    pub error: Option<String>,
}

/// One line of the raw log.
#[derive(Debug, Clone)]
pub struct RawEntry {
    pub id: String,
    /// Shared by the attempts of one client request.
    pub request_id: String,
    pub ts: String,
    pub ok: bool,
    pub error: Option<String>,
    pub client: RawClientRecord,
    /// `None` for a request that never reached an upstream.
    pub attempt: Option<RawAttemptRecord>,
}

pub struct RawClientRecordView {
    pub ts: Seq<char>,
    pub method: Seq<char>,
    pub path: Seq<char>,
    pub headers: HeaderPairs,
    pub body: Option<Seq<char>>,
    pub body_truncated: bool,
    pub body_bytes: usize,
}

pub struct RawAttemptRecordView {
    pub provider: Seq<char>,
    pub url: Seq<char>,
    pub status: Option<u16>,
    pub ok: bool,
    pub headers: HeaderPairs,
    pub body: Option<Seq<char>>,
    pub body_truncated: bool,
    pub body_bytes: usize,
    pub error: Option<Seq<char>>,
}

pub struct RawEntryView {
    pub id: Seq<char>,
    pub request_id: Seq<char>,
    pub ts: Seq<char>,
    pub ok: bool,
    pub error: Option<Seq<char>>,
    pub client: RawClientRecordView,
    pub attempt: Option<RawAttemptRecordView>,
}

impl DeepView for RawClientRecord {
    type V = RawClientRecordView;

    open spec fn deep_view(&self) -> RawClientRecordView {
        RawClientRecordView {
            ts: self.ts@,
            method: self.method@,
            path: self.path@,
            headers: self.headers.deep_view(),
            body: self.body.deep_view(),
            body_truncated: self.body_truncated,
            body_bytes: self.body_bytes,
        }
    }
}

impl DeepView for RawAttemptRecord {
    type V = RawAttemptRecordView;

    open spec fn deep_view(&self) -> RawAttemptRecordView {
        RawAttemptRecordView {
            provider: self.provider@,
            url: self.url@,
            status: self.status,
            ok: self.ok,
            headers: self.headers.deep_view(),
            body: self.body.deep_view(),
            body_truncated: self.body_truncated,
            body_bytes: self.body_bytes,
            error: self.error.deep_view(),
        }
    }
}

impl DeepView for RawEntry {
    type V = RawEntryView;

    open spec fn deep_view(&self) -> RawEntryView {
        RawEntryView {
            id: self.id@,
            request_id: self.request_id@,
            ts: self.ts@,
            ok: self.ok,
            error: self.error.deep_view(),
            client: self.client.deep_view(),
            attempt: self.attempt.deep_view(),
        }
    }
}

/// The size in bytes of a string's UTF-8 encoding.
pub open spec fn byte_len(s: Seq<char>) -> int {
    encode_utf8(s).len() as int
}

fn utf8_len(s: &str) -> (n: usize)
    ensures
        n == byte_len(s@),
{
    s.as_bytes().len()
}

/// The client record of `client`, with its body.
pub open spec fn client_record(c: RawClientCapture) -> RawClientRecordView {
    RawClientRecordView {
        ts: c.ts@,
        method: c.method@,
        path: c.path@,
        headers: c.headers.deep_view(),
        body: Some(c.body@),
        body_truncated: c.body_truncated,
        body_bytes: byte_len(c.body@) as usize,
    }
}

fn client_record_of(c: &RawClientCapture) -> (r: RawClientRecord)
    ensures
        r.deep_view() == client_record(*c),
{
    RawClientRecord {
        ts: c.ts.clone(),
        method: c.method.clone(),
        path: c.path.clone(),
        headers: clone_pairs(&c.headers),
        body: Some(c.body.clone()),
        body_truncated: c.body_truncated,
        body_bytes: utf8_len(c.body.as_str()),
    }
}

fn clone_pairs(v: &Vec<(String, String)>) -> (r: Vec<(String, String)>)
    ensures
        r.deep_view() == v.deep_view(),
{
    let mut r: Vec<(String, String)> = Vec::new();
    let mut i: usize = 0;
    while i < v.len()
        invariant
            0 <= i <= v.len(),
            r.deep_view() == v.deep_view().take(i as int),
        decreases v.len() - i,
    {
        let ghost prev = r.deep_view();
        let a = v[i].0.clone();
        let b = v[i].1.clone();
        r.push((a, b));
        assert(v.deep_view()[i as int] == (v@[i as int].0@, v@[i as int].1@));
        assert(r.deep_view() =~= prev.push((v@[i as int].0@, v@[i as int].1@)));
        assert(r.deep_view() =~= v.deep_view().take(i + 1));
        i += 1;
    }
    assert(v.deep_view().take(v.len() as int) =~= v.deep_view());
    r
}

fn clone_opt(o: &Option<String>) -> (r: Option<String>)
    ensures
        r.deep_view() == o.deep_view(),
{
    match o {
        Some(s) => Some(s.clone()),
        None => None,
    }
}

/// The full log entry for one upstream attempt, with fresh id `id` and time
/// `ts`; its outcome is the attempt's.
pub fn attempt_entry(client: &RawClientCapture, attempt: RawAttempt, id: String, ts: String) -> (r:
    RawEntry)
    ensures
        r.deep_view() == (RawEntryView {
            id: id@,
            request_id: client.request_id@,
            ts: ts@,
            ok: attempt.ok,
            error: attempt.error.deep_view(),
            client: client_record(*client),
            attempt: Some(
                RawAttemptRecordView {
                    provider: attempt.provider@,
                    url: attempt.url@,
                    status: attempt.status,
                    ok: attempt.ok,
                    headers: attempt.headers.deep_view(),
                    body: Some(attempt.body@),
                    body_truncated: attempt.body_truncated,
                    body_bytes: byte_len(attempt.body@) as usize,
                    error: attempt.error.deep_view(),
                },
            ),
        }),
{
    let body_bytes = utf8_len(attempt.body.as_str());
    let error = clone_opt(&attempt.error);
    RawEntry {
        id,
        request_id: client.request_id.clone(),
        ts,
        ok: attempt.ok,
        error,
        client: client_record_of(client),
        attempt: Some(
            RawAttemptRecord {
                provider: attempt.provider,
                url: attempt.url,
                status: attempt.status,
                ok: attempt.ok,
                headers: attempt.headers,
                body: Some(attempt.body),
                body_truncated: attempt.body_truncated,
                body_bytes,
                error: attempt.error,
            },
        ),
    }
}

/// The log entry for a request that never reached an upstream (no route,
/// conversion failure, or no candidate answered): not ok, with `error`.
pub fn error_entry(client: &RawClientCapture, error: &str, id: String, ts: String) -> (r: RawEntry)
    ensures
        r.deep_view() == (RawEntryView {
            id: id@,
            request_id: client.request_id@,
            ts: ts@,
            ok: false,
            error: Some(error@),
            client: client_record(*client),
            attempt: None,
        }),
{
    RawEntry {
        id,
        request_id: client.request_id.clone(),
        ts,
        ok: false,
        error: Some(owned(error)),
        client: client_record_of(client),
        attempt: None,
    }
}

// ─── Log views ─────────────────────────────────────────────

/// The size recorded for a body that is stripped: its byte length, 0 when
/// there is none.
pub open spec fn stripped_size(body: Option<Seq<char>>) -> usize {
    match body {
        Some(b) => byte_len(b) as usize,
        None => 0,
    }
}

/// An entry without its bodies, each replaced by its size.
pub open spec fn stripped(e: RawEntryView) -> RawEntryView {
    RawEntryView {
        client: RawClientRecordView {
            body: None,
            body_bytes: stripped_size(e.client.body),
            ..e.client
        },
        attempt: match e.attempt {
            Some(a) => Some(
                RawAttemptRecordView { body: None, body_bytes: stripped_size(a.body), ..a },
            ),
            None => None,
        },
        ..e
    }
}

fn body_size(body: &Option<String>) -> (n: usize)
    ensures
        n == stripped_size(body.deep_view()),
{
    match body {
        Some(b) => utf8_len(b.as_str()),
        None => 0,
    }
}

/// Strip the bodies of an entry, recording each one's size.
pub fn meta_of(entry: RawEntry) -> (r: RawEntry)
    ensures
        r.deep_view() == stripped(entry.deep_view()),
{
    let mut e = entry;
    e.client.body_bytes = body_size(&e.client.body);
    e.client.body = None;
    e.attempt = match e.attempt {
        Some(a) => {
            let mut a = a;
            a.body_bytes = body_size(&a.body);
            a.body = None;
            Some(a)
        },
        None => None,
    };
    e
}

/// Number of entries in the log.
pub fn count(entries: &Vec<RawEntry>) -> (n: usize)
    ensures
        n == entries@.len(),
{
    entries.len()
}

/// The newest `max` entries (all of them when there are no more than `max`),
/// oldest first.
pub fn keep_latest<T>(entries: Vec<T>, max: usize) -> (r: Vec<T>)
    ensures
        r@ == (if entries@.len() <= max {
            entries@
        } else {
            entries@.skip(entries@.len() - max)
        }),
{
    if entries.len() <= max {
        return entries;
    }
    let mut e = entries;
    let at = e.len() - max;
    let tail = e.split_off(at);
    assert(tail@ =~= entries@.skip(entries@.len() - max));
    tail
}

/// The log after appending `entry`: the newest [`MAX_RAW_ENTRIES`] of the
/// old entries followed by `entry`, oldest first.
pub open spec fn appended<T>(entries: Seq<T>, entry: T) -> Seq<T> {
    let all = entries.push(entry);
    if all.len() <= MAX_RAW_ENTRIES {
        all
    } else {
        all.skip(all.len() - MAX_RAW_ENTRIES)
    }
}

/// Append `entry` to the log, dropping the oldest entries beyond
/// [`MAX_RAW_ENTRIES`].
pub fn append_entry(entries: Vec<RawEntry>, entry: RawEntry) -> (r: Vec<RawEntry>)
    ensures
        r@ == appended(entries@, entry),
{
    let mut all = entries;
    all.push(entry);
    keep_latest(all, MAX_RAW_ENTRIES)
}

/// However long the log was, appending leaves at most [`MAX_RAW_ENTRIES`]
/// entries, the appended one last, and the entries before it are the newest
/// of the old log in their old order.
pub proof fn lemma_append_keeps_latest<T>(entries: Seq<T>, entry: T)
    ensures
        appended(entries, entry).len() <= MAX_RAW_ENTRIES,
        appended(entries, entry).len() == if entries.len() < MAX_RAW_ENTRIES {
            entries.len() + 1int
        } else {
            MAX_RAW_ENTRIES as int
        },
        appended(entries, entry).last() == entry,
        forall|i: int|
            0 <= i < appended(entries, entry).len() - 1 ==> #[trigger] appended(entries, entry)[i]
                == entries[entries.len() - (appended(entries, entry).len() - 1) + i],
{
}

/// A read gives back the last write: after appending `entry`, looking up its
/// id finds that entry (the newest with the id), and it is listed first.
pub proof fn lemma_get_after_append(entries: Seq<RawEntry>, entry: RawEntry)
    ensures
        newest_with_id(appended(entries, entry), entry.id@, appended(entries, entry).len() as int)
            == appended(entries, entry).len() - 1,
        appended(entries, entry)[appended(entries, entry).len() - 1] == entry,
{
    lemma_append_keeps_latest(entries, entry);
}

/// What [`list`] shows of `es`: entries newest first, `limit` of them after
/// skipping `offset`, bodies stripped.
pub open spec fn listed(es: Seq<RawEntry>, limit: usize, offset: usize) -> Seq<RawEntryView> {
    let n: int = if offset >= es.len() {
        0
    } else if es.len() - offset < limit {
        es.len() - offset
    } else {
        limit as int
    };
    Seq::new(n as nat, |i: int| stripped(es[es.len() - 1 - offset - i].deep_view()))
}

/// Right after an append, the first page of the log starts with the appended
/// entry (bodies stripped).
pub proof fn lemma_list_after_append(entries: Seq<RawEntry>, entry: RawEntry, limit: usize)
    requires
        limit >= 1,
    ensures
        listed(appended(entries, entry), limit, 0).len() >= 1,
        listed(appended(entries, entry), limit, 0)[0] == stripped(entry.deep_view()),
{
    lemma_append_keeps_latest(entries, entry);
}

/// Entries newest first (the log is oldest first), `limit` of them after
/// skipping `offset`, each with its bodies stripped.
pub fn list(entries: Vec<RawEntry>, limit: usize, offset: usize) -> (r: Vec<RawEntry>)
    ensures
        r@.len() == (if offset >= entries@.len() {
            0
        } else if entries@.len() - offset < limit {
            entries@.len() - offset
        } else {
            limit as int
        }),
        forall|i: int|
            0 <= i < r@.len() ==> (#[trigger] r@[i]).deep_view() == stripped(
                entries@[entries@.len() - 1 - offset - i].deep_view(),
            ),
        r@.map_values(|e: RawEntry| e.deep_view()) == listed(entries@, limit, offset),
{
    let ghost es = entries@;
    let mut rest = entries;
    let mut skipped: usize = 0;
    while skipped < offset && rest.len() > 0
        invariant
            rest@ == es.take(es.len() - skipped),
            skipped <= offset,
            skipped <= es.len(),
        decreases offset - skipped,
    {
        rest.pop();
        skipped += 1;
        assert(rest@ =~= es.take(es.len() - skipped));
    }
    let mut out: Vec<RawEntry> = Vec::new();
    while out.len() < limit && rest.len() > 0
        invariant
            skipped <= es.len(),
            skipped == offset || rest@.len() == 0,
            skipped < offset ==> offset >= es.len(),
            rest@ == es.take(es.len() - skipped - out@.len()),
            out@.len() <= limit,
            skipped + out@.len() <= es.len(),
            forall|i: int|
                0 <= i < out@.len() ==> (#[trigger] out@[i]).deep_view() == stripped(
                    es[es.len() - 1 - skipped - i].deep_view(),
                ),
        decreases rest@.len(),
    {
        let ghost k = out@.len();
        let e = rest.pop().unwrap();
        out.push(meta_of(e));
        assert(rest@ =~= es.take(es.len() - skipped - out@.len()));
    }
    assert(out@.map_values(|e: RawEntry| e.deep_view()) =~= listed(es, limit, offset));
    out
}

/// Index of the newest entry with id `id` among the first `k` entries, or -1.
pub open spec fn newest_with_id(es: Seq<RawEntry>, id: Seq<char>, k: int) -> int
    decreases k,
{
    if k <= 0 || k > es.len() {
        -1
    } else if es[k - 1].id@ == id {
        k - 1
    } else {
        newest_with_id(es, id, k - 1)
    }
}

/// The newest entry with id `id`, with its bodies.
pub fn get(entries: Vec<RawEntry>, id: &str) -> (r: Option<RawEntry>)
    ensures
        (r is Some) == (newest_with_id(entries@, id@, entries@.len() as int) >= 0),
        r matches Some(e) ==> e.deep_view() == entries@[newest_with_id(
            entries@,
            id@,
            entries@.len() as int,
        )].deep_view(),
{
    let ghost es = entries@;
    let mut rest = entries;
    while rest.len() > 0
        invariant
            es == entries@,
            rest@ == es.take(rest@.len() as int),
            rest@.len() <= es.len(),
            newest_with_id(es, id@, es.len() as int) == newest_with_id(es, id@, rest@.len() as int),
        decreases rest@.len(),
    {
        let ghost n = rest@.len();
        let e = rest.pop().unwrap();
        assert(rest@ =~= es.take(rest@.len() as int));
        assert(e == es[n - 1]);
        if str_eq(e.id.as_str(), id) {
            assert(newest_with_id(es, id@, n as int) == n - 1);
            assert(newest_with_id(es, id@, es.len() as int) == n - 1);
            assert(e.deep_view() == es[n - 1].deep_view());
            return Some(e);
        }
    }
    None
}

} // verus!
