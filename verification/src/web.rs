//! Web UI backend decisions: when Basic auth is required and whether a
//! request carries the right credentials, password generation and reuse,
//! query-parameter parsing, and static asset paths.

use base64::Engine;
use vstd::prelude::*;
use vstd::utf8::{decode_utf8, valid_utf8};
use crate::text::{chars_of, decimal, owned, push_all, str_eq, string_of_range, trim, trim_spec};

verus! {

/// Loopback binds run without auth.
pub open spec fn is_loopback(host: Seq<char>) -> bool {
    host == "127.0.0.1"@ || host == "localhost"@ || host == "::1"@
}

/// Whether a server bound to `host` requires HTTP Basic auth (every bind but
/// loopback does).
pub fn needs_password(host: &str) -> (r: bool)
    ensures
        r == !is_loopback(host@),
{
    !(str_eq(host, "127.0.0.1") || str_eq(host, "localhost") || str_eq(host, "::1"))
}

/// A stored password is reused when, trimmed, it is not empty.
pub fn stored_password(existing: &str) -> (r: Option<String>)
    ensures
        r.deep_view() == (if trim_spec(existing@).len() > 0 {
            Some(trim_spec(existing@))
        } else {
            None
        }),
{
    let t = trim(existing);
    if t.as_str().is_empty() {
        None
    } else {
        Some(t)
    }
}

/// The lowercase hexadecimal digit for `d` (0..16).
pub open spec fn hex_digit(d: int) -> char {
    if d < 10 {
        crate::text::digit_char(d)
    } else if d == 10 {
        'a'
    } else if d == 11 {
        'b'
    } else if d == 12 {
        'c'
    } else if d == 13 {
        'd'
    } else if d == 14 {
        'e'
    } else {
        'f'
    }
}

/// Two lowercase hex digits per byte, in order (`{:02x}` each).
pub open spec fn hex_of(bytes: Seq<u8>) -> Seq<char>
    decreases bytes.len(),
{
    if bytes.len() == 0 {
        Seq::empty()
    } else {
        hex_of(bytes.drop_last()) + seq![
            hex_digit((bytes.last() / 16) as int),
            hex_digit((bytes.last() % 16) as int),
        ]
    }
}

fn hex_char(d: u8) -> (c: char)
    requires
        d < 16,
    ensures
        c == hex_digit(d as int),
{
    if d < 10 {
        crate::text::digit(d as u64)
    } else if d == 10 {
        'a'
    } else if d == 11 {
        'b'
    } else if d == 12 {
        'c'
    } else if d == 13 {
        'd'
    } else if d == 14 {
        'e'
    } else {
        'f'
    }
}

/// A password from random bytes: their lowercase hex encoding.
pub fn password_hex(bytes: &[u8]) -> (r: String)
    ensures
        r@ == hex_of(bytes@),
{
    let mut r = String::new();
    let mut i: usize = 0;
    while i < bytes.len()
        invariant
            0 <= i <= bytes.len(),
            r@ == hex_of(bytes@.take(i as int)),
        decreases bytes.len() - i,
    {
        assert(bytes@.take(i + 1).drop_last() =~= bytes@.take(i as int));
        let b = bytes[i];
        r.push(hex_char(b / 16));
        r.push(hex_char(b % 16));
        assert(r@ =~= hex_of(bytes@.take(i + 1)));
        i += 1;
    }
    assert(bytes@.take(bytes.len() as int) =~= bytes@);
    r
}

/// Whether `c` is a lowercase hexadecimal digit.
pub open spec fn is_lower_hex(c: char) -> bool {
    ('0' <= c && c <= '9') || ('a' <= c && c <= 'f')
}

/// The hex encoding of `n` bytes is `2n` lowercase hex digits.
pub proof fn lemma_hex_of(bytes: Seq<u8>)
    ensures
        hex_of(bytes).len() == 2 * bytes.len(),
        forall|i: int| 0 <= i < hex_of(bytes).len() ==> is_lower_hex(#[trigger] hex_of(bytes)[i]),
    decreases bytes.len(),
{
    if bytes.len() > 0 {
        lemma_hex_of(bytes.drop_last());
        let prev = hex_of(bytes.drop_last());
        let h = hex_of(bytes);
        assert forall|i: int| 0 <= i < h.len() implies is_lower_hex(#[trigger] h[i]) by {
            if i < prev.len() {
                assert(h[i] == prev[i]);
            }
        }
    }
}

/// How many random bytes a generated password is made of.
pub const PASSWORD_BYTES: usize = 12;

/// `rand::thread_rng().fill_bytes` on `n` zeroed bytes: `n` bytes from the
/// thread-local generator. Which bytes come is chance; only their number is
/// stated.
#[verifier::external_body]
fn random_bytes(n: usize) -> (r: Vec<u8>)
    ensures
        r@.len() == n,
{
    let mut buf = vec![0u8; n];
    rand::RngCore::fill_bytes(&mut rand::thread_rng(), &mut buf);
    buf
}

/// A fresh password: the hex encoding of [`PASSWORD_BYTES`] random bytes.
pub fn generate_password() -> (r: String)
    ensures
        exists|b: Seq<u8>| b.len() == PASSWORD_BYTES && r@ == #[trigger] hex_of(b),
{
    let bytes = random_bytes(PASSWORD_BYTES);
    let r = password_hex(bytes.as_slice());
    assert(r@ == hex_of(bytes@));
    r
}

/// The Basic-auth password for a server bound to `host`, given the content
/// of the stored password file (`None` when it cannot be read): none on
/// loopback; else the stored password when it is not blank; else a fresh one
/// (the flag says it is fresh and must be stored).
pub fn resolve_password(host: &str, stored: Option<&str>) -> (r: Option<(String, bool)>)
    ensures
        is_loopback(host@) <==> r is None,
        r matches Some((pw, fresh)) ==> {
            let reused = match stored {
                Some(s) => trim_spec(s@).len() > 0,
                None => false,
            };
            &&& fresh == !reused
            &&& reused ==> pw@ == trim_spec(stored->0@)
            &&& fresh ==> exists|b: Seq<u8>| b.len() == PASSWORD_BYTES && pw@ == #[trigger] hex_of(b)
        },
{
    if !needs_password(host) {
        return None;
    }
    if let Some(s) = stored {
        if let Some(pw) = stored_password(s) {
            return Some((pw, false));
        }
    }
    Some((generate_password(), true))
}

/// What the web server is run with.
#[derive(Debug, Clone)]
pub struct WebState {
    /// The project directory (parent of `bin/`), handed to daemon starts.
    pub project_dir: Option<String>,
    /// When set, HTTP Basic auth (user `admin`) is required.
    pub password: Option<String>,
}

impl WebState {
    /// Whether the server requires auth.
    pub fn auth_required(&self) -> (r: bool)
        ensures
            r == self.password is Some,
    {
        self.password.is_some()
    }

    /// Whether a request with `Authorization` header `header` may pass (see
    /// [`request_authorized`]).
    pub fn authorizes(&self, header: Option<&str>) -> (r: bool)
        ensures
            r == match self.password {
                None => true,
                Some(pw) => match header {
                    Some(h) => basic_auth_matches(h@, pw@),
                    None => false,
                },
            },
    {
        match &self.password {
            None => true,
            Some(pw) => request_authorized(header, Some(pw.as_str())),
        }
    }
}

/// What `base64::engine::general_purpose::STANDARD.decode` makes of the
/// bytes of `s`: the decoded bytes, or `None` when it rejects the input.
pub uninterp spec fn base64_standard_decode(s: Seq<char>) -> Option<Seq<u8>>;

/// `base64::engine::general_purpose::STANDARD.decode(s)`; its result is
/// named, not described.
#[verifier::external_body]
fn decode_base64(s: &str) -> (r: Option<Vec<u8>>)
    ensures
        match r {
            Some(v) => base64_standard_decode(s@) == Some(v@),
            None => base64_standard_decode(s@) is None,
        },
{
    match base64::engine::general_purpose::STANDARD.decode(s) {
        Ok(v) => Some(v),
        Err(_) => None,
    }
}

/// `String::from_utf8`: the text the bytes encode when they are valid UTF-8.
#[verifier::external_body]
fn utf8_string(bytes: Vec<u8>) -> (r: Option<String>)
    ensures
        valid_utf8(bytes@) == (r is Some),
        r matches Some(s) ==> s@ == decode_utf8(bytes@),
{
    match String::from_utf8(bytes) {
        Ok(s) => Some(s),
        Err(_) => None,
    }
}

/// Whether an `Authorization` header value carries `admin:{password}`:
/// `Basic ` followed by standard base64 of those credentials (as UTF-8).
pub open spec fn basic_auth_matches(header: Seq<char>, password: Seq<char>) -> bool {
    &&& header.len() >= 6
    &&& header.take(6) == "Basic "@
    &&& base64_standard_decode(header.skip(6)) matches Some(bytes)
    &&& valid_utf8(bytes)
    &&& decode_utf8(bytes) == "admin:"@ + password
}

/// Whether a request may pass: no password set, or its `Authorization`
/// header (as text; `None` when absent or not visible ASCII) matches.
pub fn request_authorized(header: Option<&str>, password: Option<&str>) -> (r: bool)
    ensures
        r == match password {
            None => true,
            Some(pw) => match header {
                Some(h) => basic_auth_matches(h@, pw@),
                None => false,
            },
        },
{
    let pw = match password {
        None => return true,
        Some(p) => p,
    };
    let h = match header {
        None => return false,
        Some(h) => h,
    };
    let v = chars_of(h);
    proof {
        reveal_strlit("Basic ");
    }
    if v.len() < 6 || v[0] != 'B' || v[1] != 'a' || v[2] != 's' || v[3] != 'i' || v[4] != 'c'
        || v[5] != ' ' {
        proof {
            if h@.len() >= 6 && h@.take(6) == "Basic "@ {
                assert(h@.take(6)[0] == 'B');
                assert(h@.take(6)[1] == 'a');
                assert(h@.take(6)[2] == 's');
                assert(h@.take(6)[3] == 'i');
                assert(h@.take(6)[4] == 'c');
                assert(h@.take(6)[5] == ' ');
            }
        }
        return false;
    }
    assert(h@.take(6) =~= "Basic "@);
    let rest = string_of_range(&v, 6, v.len());
    assert(rest@ =~= h@.skip(6));
    let bytes = match decode_base64(rest.as_str()) {
        Some(b) => b,
        None => return false,
    };
    let text = match utf8_string(bytes) {
        Some(t) => t,
        None => return false,
    };
    let mut expected = owned("admin:");
    push_all(&mut expected, pw);
    str_eq(text.as_str(), expected.as_str())
}

// ─── Query parameters ──────────────────────────────────────

/// The value of decimal digits `ds` (most significant first).
pub open spec fn digits_value(ds: Seq<char>) -> int
    decreases ds.len(),
{
    if ds.len() == 0 {
        0
    } else {
        digits_value(ds.drop_last()) * 10 + (ds.last() as int - '0' as int)
    }
}

/// Whether every character is an ASCII digit.
pub open spec fn all_digits(ds: Seq<char>) -> bool {
    forall|i: int| 0 <= i < ds.len() ==> '0' <= #[trigger] ds[i] && ds[i] <= '9'
}

/// What `str::parse::<usize>` accepts: an optional `+` then at least one
/// ASCII digit, with a value that fits in a `usize`.
pub open spec fn parse_usize_spec(s: Seq<char>) -> Option<usize> {
    let ds = if s.len() > 0 && s[0] == '+' {
        s.skip(1)
    } else {
        s
    };
    if ds.len() > 0 && all_digits(ds) && digits_value(ds) <= usize::MAX {
        Some(digits_value(ds) as usize)
    } else {
        None
    }
}

proof fn lemma_digits_value_monotone(ds: Seq<char>, k: int)
    requires
        0 <= k <= ds.len(),
        all_digits(ds),
    ensures
        0 <= digits_value(ds.take(k)) <= digits_value(ds),
    decreases ds.len(),
{
    if k < ds.len() {
        lemma_digits_value_monotone(ds.drop_last(), k);
        assert(ds.drop_last().take(k) =~= ds.take(k));
        assert(all_digits(ds.drop_last()));
        lemma_digits_value_monotone(ds.drop_last(), ds.len() - 1);
        assert(ds.drop_last().take(ds.len() - 1) =~= ds.drop_last());
    } else {
        assert(ds.take(k) =~= ds);
        if ds.len() > 0 {
            assert(all_digits(ds.drop_last()));
            lemma_digits_value_monotone(ds.drop_last(), ds.len() - 1);
            assert(ds.drop_last().take(ds.len() - 1) =~= ds.drop_last());
        }
    }
}

/// The digit character for `d` stands for `d`.
spec fn digit_value_of(d: int) -> bool {
    crate::text::digit_char(d) as int - '0' as int == d
}

proof fn lemma_decimal_digits(n: nat)
    ensures
        decimal(n).len() > 0,
        all_digits(decimal(n)),
        digits_value(decimal(n)) == n,
    decreases n,
{
    if n >= 10 {
        lemma_decimal_digits(n / 10);
        let d = decimal(n);
        assert(d.drop_last() =~= decimal(n / 10));
        assert forall|i: int| 0 <= i < d.len() implies '0' <= #[trigger] d[i] && d[i] <= '9' by {
            if i < d.len() - 1 {
                assert(d[i] == decimal(n / 10)[i]);
            }
        }
        let r = (n % 10) as int;
        assert(digit_value_of(r));
        assert(d.last() == crate::text::digit_char(r));
        assert(n == (n / 10) * 10 + n % 10);
        assert(digits_value(d) == digits_value(d.drop_last()) * 10 + (d.last() as int - '0' as int));
    } else {
        assert(digit_value_of(n as int));
        assert(decimal(n).drop_last() =~= Seq::<char>::empty());
        assert(digits_value(Seq::<char>::empty()) == 0);
    }
}

/// Parsing what `{}` prints of a `usize` gives the number back.
pub proof fn lemma_parse_usize_of_decimal(n: usize)
    ensures
        parse_usize_spec(decimal(n as nat)) == Some(n),
{
    lemma_decimal_digits(n as nat);
    assert('0' <= decimal(n as nat)[0] && decimal(n as nat)[0] <= '9');
}

/// `str::parse::<usize>` (see [`parse_usize_spec`]).
pub fn parse_usize(s: &str) -> (r: Option<usize>)
    ensures
        r == parse_usize_spec(s@),
{
    let v = chars_of(s);
    let start: usize = if v.len() > 0 && v[0] == '+' {
        1
    } else {
        0
    };
    let ghost ds = if s@.len() > 0 && s@[0] == '+' {
        s@.skip(1)
    } else {
        s@
    };
    assert(ds =~= v@.skip(start as int));
    if start >= v.len() {
        return None;
    }
    let mut acc: usize = 0;
    let mut i: usize = start;
    while i < v.len()
        invariant
            v@ == s@,
            start <= i <= v.len(),
            ds == v@.skip(start as int),
            ds == (if s@.len() > 0 && s@[0] == '+' {
                s@.skip(1)
            } else {
                s@
            }),
            start < v.len(),
            acc == digits_value(ds.take(i - start)),
            all_digits(ds.take(i - start)),
        decreases v.len() - i,
    {
        let c = v[i];
        let k = i - start;
        assert(ds.take(k + 1).drop_last() =~= ds.take(k as int));
        assert(ds[k as int] == c);
        if c < '0' || c > '9' {
            assert(!all_digits(ds));
            return None;
        }
        let d = (c as u32 - '0' as u32) as usize;
        if acc > (usize::MAX - d) / 10 {
            proof {
                assert(digits_value(ds.take(k + 1)) == acc * 10 + d);
                assert(acc * 10 + d > usize::MAX) by (nonlinear_arith)
                    requires
                        acc > (usize::MAX - d) / 10,
                        d <= 9,
                ;
                if all_digits(ds) {
                    lemma_digits_value_monotone(ds, k + 1);
                }
            }
            return None;
        }
        assert(acc * 10 + d <= usize::MAX) by (nonlinear_arith)
            requires
                acc <= (usize::MAX - d) / 10,
                d <= 9,
        ;
        acc = acc * 10 + d;
        assert(all_digits(ds.take(k + 1)));
        i += 1;
    }
    assert(ds.take(v.len() - start) =~= ds);
    Some(acc)
}

/// The raw-log page a query asks for: `limit` (default 50, clamped to
/// 1..=200) and `offset` (default 0); unparseable values count as absent.
pub fn rawlog_page(limit: Option<&str>, offset: Option<&str>) -> (r: (usize, usize))
    ensures
        ({
            let l = match limit {
                Some(s) => match parse_usize_spec(s@) {
                    Some(n) => n,
                    None => 50,
                },
                None => 50,
            };
            r.0 == (if l < 1 {
                1
            } else if l > 200 {
                200
            } else {
                l
            })
        }),
        r.1 == match offset {
            Some(s) => match parse_usize_spec(s@) {
                Some(n) => n,
                None => 0,
            },
            None => 0,
        },
{
    let l: usize = match limit {
        Some(s) => match parse_usize(s) {
            Some(n) => n,
            None => 50,
        },
        None => 50,
    };
    let l = if l < 1 {
        1
    } else if l > 200 {
        200
    } else {
        l
    };
    let o: usize = match offset {
        Some(s) => match parse_usize(s) {
            Some(n) => n,
            None => 0,
        },
        None => 0,
    };
    (l, o)
}

/// Optional paging: a parameter that is absent or does not parse is `None`.
pub fn optional_usize(param: Option<&str>) -> (r: Option<usize>)
    ensures
        r == match param {
            Some(s) => parse_usize_spec(s@),
            None => None,
        },
{
    match param {
        Some(s) => parse_usize(s),
        None => None,
    }
}

/// A conversation id is usable unless it is blank.
pub fn conversation_id_valid(id: &str) -> (r: bool)
    ensures
        r == (trim_spec(id@).len() > 0),
{
    !trim(id).as_str().is_empty()
}

/// `s` without leading `/`s.
pub open spec fn trim_start_slashes(s: Seq<char>) -> Seq<char>
    decreases s.len(),
{
    if s.len() > 0 && s[0] == '/' {
        trim_start_slashes(s.drop_first())
    } else {
        s
    }
}

/// The embedded asset a URI path names: the path without leading slashes,
/// `index.html` for the root.
pub open spec fn asset_path_spec(uri_path: Seq<char>) -> Seq<char> {
    let p = trim_start_slashes(uri_path);
    if p.len() == 0 {
        "index.html"@
    } else {
        p
    }
}

/// The embedded asset a URI path names.
pub fn asset_path(uri_path: &str) -> (r: String)
    ensures
        r@ == asset_path_spec(uri_path@),
{
    let v = chars_of(uri_path);
    let mut a: usize = 0;
    assert(uri_path@.skip(0) =~= uri_path@);
    while a < v.len() && v[a] == '/'
        invariant
            v@ == uri_path@,
            0 <= a <= v.len(),
            trim_start_slashes(uri_path@) == trim_start_slashes(uri_path@.skip(a as int)),
        decreases v.len() - a,
    {
        assert(uri_path@.skip(a as int).drop_first() =~= uri_path@.skip(a + 1));
        a += 1;
    }
    assert(trim_start_slashes(uri_path@.skip(a as int)) == uri_path@.skip(a as int));
    if a == v.len() {
        owned("index.html")
    } else {
        let r = string_of_range(&v, a, v.len());
        assert(r@ =~= uri_path@.skip(a as int));
        r
    }
}

/// The log export formats.
#[derive(Clone, Copy, Debug, PartialEq, Eq, Structural)]
pub enum ExportFormat {
    Csv,
    Json,
}

/// The export format a `format` parameter asks for: `csv`, else JSON.
pub fn export_format(format: Option<&str>) -> (r: ExportFormat)
    ensures
        r == (match format {
            Some(f) => if f@ == "csv"@ {
                ExportFormat::Csv
            } else {
                ExportFormat::Json
            },
            None => ExportFormat::Json,
        }),
{
    match format {
        Some(f) => if str_eq(f, "csv") {
            ExportFormat::Csv
        } else {
            ExportFormat::Json
        },
        None => ExportFormat::Json,
    }
}

impl ExportFormat {
    /// The content type of an export.
    pub fn content_type(self) -> (r: &'static str)
        ensures
            r@ == (match self {
                ExportFormat::Csv => "text/csv"@,
                ExportFormat::Json => "application/json"@,
            }),
    {
        match self {
            ExportFormat::Csv => "text/csv",
            ExportFormat::Json => "application/json",
        }
    }

    /// The download file name of an export.
    pub fn file_name(self) -> (r: &'static str)
        ensures
            r@ == (match self {
                ExportFormat::Csv => "pi-switch-logs.csv"@,
                ExportFormat::Json => "pi-switch-logs.json"@,
            }),
    {
        match self {
            ExportFormat::Csv => "pi-switch-logs.csv",
            ExportFormat::Json => "pi-switch-logs.json",
        }
    }
}

} // verus!
