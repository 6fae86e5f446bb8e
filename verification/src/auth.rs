//! Enterprise sign-in: identity providers, sessions, local password checks,
//! and the SAML and OIDC flows (building the requests, and reading the user
//! out of the answers).

use vstd::prelude::*;
use crate::clock::new_uuid;
use crate::clock::now_millis;
use crate::codec::hex_encode;
use crate::codec::hex_text;
use crate::scanner::trim;
use crate::scanner::split_chars;
use crate::scanner::split_on;
use crate::scanner::trim_chars;
use crate::signing::sha256;
use crate::signing::sha256_digest;
use crate::text::chars_of;
use crate::text::contains_seq;
use crate::text::push_char;
use crate::text::str_contains;
use crate::text::find_chars;
use crate::text::occurs_at;
use crate::text::str_eq;
use crate::text::string_from_chars;
use vstd::utf8::decode_utf8;
use vstd::utf8::encode_utf8;
use vstd::utf8::valid_utf8;

verus! {

/// Why a sign-in was refused. Storage, serialization and HTTP failures are
/// carried as messages.
#[derive(Debug)]
pub enum AuthError {
    InvalidCredentials,
    SessionExpired,
    SamlInvalid(String),
    OidcInvalid(String),
    Database(String),
    Serialization(String),
    Http(String),
}

/// A SAML identity provider. The attribute mapping is a list of (attribute,
/// field) pairs.
#[derive(Debug)]
pub struct SamlConfig {
    pub entity_id: String,
    pub metadata_url: String,
    pub assertion_consumer_service_url: String,
    pub idp_certificate: String,
    pub attribute_mapping: Vec<(String, String)>,
}

/// An OpenID Connect identity provider. The attribute mapping is a list of
/// (claim, field) pairs.
#[derive(Debug)]
pub struct OidcConfig {
    pub issuer_url: String,
    pub client_id: String,
    pub client_secret: String,
    pub redirect_uri: String,
    pub scopes: Vec<String>,
    pub attribute_mapping: Vec<(String, String)>,
}

/// How an organization's users sign in.
#[derive(Debug)]
pub enum AuthProvider {
    Local,
    Saml(SamlConfig),
    Oidc(OidcConfig),
}

/// The name of a kind of provider.
pub open spec fn provider_kind_name(p: AuthProvider) -> Seq<char> {
    match p {
        AuthProvider::Local => "local"@,
        AuthProvider::Saml(_) => "saml"@,
        AuthProvider::Oidc(_) => "oidc"@,
    }
}

impl AuthProvider {
    /// The name of the kind of provider.
    pub fn variant_name(&self) -> (s: &'static str)
        ensures
            s@ == provider_kind_name(*self),
    {
        match self {
            AuthProvider::Local => "local",
            AuthProvider::Saml(_) => "saml",
            AuthProvider::Oidc(_) => "oidc",
        }
    }
}

/// A signed-in session. `session_id` is a UUID as a number; the times are
/// in milliseconds since the Unix epoch.
#[derive(Debug)]
pub struct AuthSession {
    pub session_id: u128,
    pub user_id: String,
    pub created_at: i64,
    pub expires_at: i64,
    pub last_active: i64,
    pub ip_address: String,
    pub user_agent: String,
    pub provider: String,
}

impl AuthSession {
    /// Whether the session is still valid at `now`: it has not yet expired.
    pub fn is_valid_at(&self, now: i64) -> (b: bool)
        ensures
            b == (now < self.expires_at),
    {
        now < self.expires_at
    }

    /// Whether the session is still valid now (see `is_valid_at`); a session
    /// that expires at the earliest representable time never is.
    pub fn is_valid(&self) -> (b: bool)
        ensures
            self.expires_at == i64::MIN ==> !b,
    {
        self.is_valid_at(now_millis())
    }
}

/// What validating a stored session does next.
#[derive(Clone, Copy, Debug, PartialEq, Eq, Structural)]
pub enum SessionStep {
    /// No such session: refused as expired.
    Missing,
    /// The session has expired: delete it, then refuse it as expired.
    Revoke,
    /// The session is valid: mark it active now, then hand it back.
    Touch,
}

/// Decides what validating a session found (or not) in the store does at
/// `now`: a missing session is refused, an expired one is deleted and
/// refused, a valid one is marked active and accepted.
pub fn session_step(found: Option<&AuthSession>, now: i64) -> (r: SessionStep)
    ensures
        r == match found {
            None => SessionStep::Missing,
            Some(s) => if now < s.expires_at {
                SessionStep::Touch
            } else {
                SessionStep::Revoke
            },
        },
{
    match found {
        None => SessionStep::Missing,
        Some(s) => if s.is_valid_at(now) {
            SessionStep::Touch
        } else {
            SessionStep::Revoke
        },
    }
}

/// A SAML sign-in under way: the request's identifier, the relay state and
/// where to send the user.
#[derive(Debug)]
pub struct SamlFlowState {
    pub authn_request_id: String,
    pub relay_state: String,
    pub redirect_url: String,
}

/// An OIDC sign-in under way: where to send the user, the state to expect
/// back, and the PKCE verifier and challenge.
#[derive(Debug)]
pub struct OidcFlowState {
    pub authorization_url: String,
    pub state: String,
    pub code_verifier: String,
    pub code_challenge: String,
}

/// Where `needle` first occurs in `hay` (meaningful when it occurs).
#[verifier::opaque]
pub open spec fn first_index(hay: Seq<char>, needle: Seq<char>) -> int {
    choose|i: int| occurs_at(hay, needle, i) && forall|j: int| 0 <= j < i ==> !occurs_at(hay, needle, j)
}

/// The trimmed text between the first `<tag>` and the first `</tag>` of
/// `xml`, when both occur and the opening one ends before the closing one starts.
#[verifier::opaque]
pub open spec fn xml_element(xml: Seq<char>, tag: Seq<char>) -> Option<Seq<char>> {
    let open = "<"@ + tag + ">"@;
    let close = "</"@ + tag + ">"@;
    if contains_seq(xml, open) && contains_seq(xml, close) {
        let start = first_index(xml, open) + open.len();
        let end = first_index(xml, close);
        if start < end {
            Some(trim(xml.subrange(start, end)))
        } else {
            None
        }
    } else {
        None
    }
}

/// Where `needle` first occurs in `hay`, if anywhere.
fn first_occurrence(hay: &[char], needle: &[char]) -> (r: Option<usize>)
    ensures
        match r {
            Some(i) => contains_seq(hay@, needle@) && i == first_index(hay@, needle@) && occurs_at(
                hay@,
                needle@,
                i as int,
            ),
            None => !contains_seq(hay@, needle@),
        },
{
    let r = find_chars(hay, needle);
    match r {
        Some(i) => {
            proof {
                reveal(first_index);
                let k = first_index(hay@, needle@);
                assert(occurs_at(hay@, needle@, i as int));
                assert(occurs_at(hay@, needle@, k) && forall|j: int| 0 <= j < k ==> !occurs_at(hay@, needle@, j));
                if k < i {
                } else if k > i {
                }
            }
            r
        },
        None => r,
    }
}

/// The text of an XML element: trimmed, between the first `<tag>` and the
/// first `</tag>`.
#[verifier::spinoff_prover]
#[verifier::rlimit(40)]
pub fn extract_xml_element(xml: &str, tag: &str) -> (r: Option<String>)
    ensures
        match xml_element(xml@, tag@) {
            Some(t) => r matches Some(s) && s@ == t,
            None => r is None,
        },
{
    let mut open = String::from_str("<");
    open.append(tag);
    open.append(">");
    let mut close = String::from_str("</");
    close.append(tag);
    close.append(">");
    let x = chars_of(xml);
    let o = chars_of(open.as_str());
    let c = chars_of(close.as_str());
    let ghost open_v = "<"@ + tag@ + ">"@;
    let ghost close_v = "</"@ + tag@ + ">"@;
    assert(o@ == open_v && c@ == close_v && x@ == xml@);
    let found_open = first_occurrence(x.as_slice(), o.as_slice());
    let found_close = first_occurrence(x.as_slice(), c.as_slice());
    if found_open.is_none() || found_close.is_none() {
        assert(xml_element(xml@, tag@) is None) by {
            reveal(xml_element);
        }
        return None;
    }
    let i = match found_open {
        Some(i) => i,
        None => 0,
    };
    let end = match found_close {
        Some(j) => j,
        None => 0,
    };
    assert(occurs_at(x@, o@, i as int));
    assert(i + o@.len() <= x@.len());
    assert(x@.len() == x.len());
    let start = i + o.len();
    if start < end {
        let inner = chars_between(x.as_slice(), start, end);
        let t = trim_chars(inner.as_slice());
        let r = string_from_chars(t.as_slice());
        assert(xml_element(xml@, tag@) == Some(r@)) by {
            reveal(xml_element);
        }
        Some(r)
    } else {
        assert(xml_element(xml@, tag@) is None) by {
            reveal(xml_element);
        }
        None
    }
}

/// The characters from `start` to `end`.
fn chars_between(x: &[char], start: usize, end: usize) -> (r: Vec<char>)
    requires
        start <= end <= x@.len(),
    ensures
        r@ == x@.subrange(start as int, end as int),
{
    let mut inner: Vec<char> = Vec::new();
    let mut k: usize = start;
    while k < end
        invariant
            start <= k <= end,
            end <= x@.len(),
            inner@ == x@.subrange(start as int, k as int),
        decreases end - k,
    {
        inner.push(x[k]);
        assert(inner@ =~= x@.subrange(start as int, k + 1));
        k += 1;
    }
    inner
}


/// The standard Base64 text (with padding) of some bytes, as the `base64`
/// crate's `STANDARD` engine writes it.
pub uninterp spec fn base64_standard_text(b: Seq<u8>) -> Seq<char>;

/// What the `base64` crate's `STANDARD` engine reads from a text: the bytes,
/// or the text of its decoding error.
pub uninterp spec fn base64_standard_decoding(s: Seq<char>) -> Result<Seq<u8>, Seq<char>>;

/// The text of the error `String::from_utf8` gives for bytes that are not UTF-8.
pub uninterp spec fn utf8_error_text(b: Seq<u8>) -> Seq<char>;

/// What `serde_json::from_slice` reads from bytes: the value, or the text of its error.
pub uninterp spec fn json_reading(b: Seq<u8>) -> Result<serde_json::Value, Seq<char>>;

/// The string at `value[key]`, if that is a string (`Index` on a key, then `as_str`).
pub uninterp spec fn json_string_member(v: serde_json::Value, key: Seq<char>) -> Option<Seq<char>>;

/// The HMAC-SHA256 tag of `data` under `key` (the `hmac` crate over `sha2::Sha256`).
pub uninterp spec fn hmac_sha256_tag(key: Seq<u8>, data: Seq<u8>) -> Seq<u8>;

/// The `%Y-%m-%dT%H:%M:%SZ` text `chrono` writes for an instant given in
/// milliseconds since the Unix epoch (`None` if `chrono` cannot represent it).
pub uninterp spec fn iso_seconds_text(ms: i64) -> Option<Seq<char>>;

/// Encodes bytes with the `base64` crate's `STANDARD` engine.
/// The engine reads its own text back as the same bytes; it writes four
/// characters for every three bytes or part of three, from its alphabet,
/// with `=` padding the last group.
#[verifier::external_body]
pub(crate) fn base64_encode(b: &[u8]) -> (s: String)
    ensures
        s@ == base64_standard_text(b@),
        base64_standard_decoding(s@) is Ok,
        base64_standard_decoding(s@)->Ok_0 == b@,
        s@.len() > 0 || b@.len() == 0,
        s@.len() == 4 * ((b@.len() + 2) / 3),
        forall|i: int| 0 <= i < s@.len() - b64_padding(b@.len()) ==> b64_alphabet(#[trigger] s@[i]),
        forall|i: int| s@.len() - b64_padding(b@.len()) <= i < s@.len() ==> #[trigger] s@[i] == '=',
{
    base64::Engine::encode(&base64::engine::general_purpose::STANDARD, b)
}

/// Decodes text with the `base64` crate's `STANDARD` engine; an error is
/// handed back as its text.
#[verifier::external_body]
pub(crate) fn base64_decode_standard(s: &str) -> (r: Result<Vec<u8>, String>)
    ensures
        match base64_standard_decoding(s@) {
            Ok(b) => r matches Ok(v) && v@ == b,
            Err(m) => r matches Err(e) && e@ == m,
        },
{
    base64::Engine::decode(&base64::engine::general_purpose::STANDARD, s).map_err(|e| e.to_string())
}

/// Reads bytes as UTF-8 with `String::from_utf8`, which succeeds exactly on
/// valid UTF-8; an error is handed back as its text.
#[verifier::external_body]
fn string_from_utf8(b: Vec<u8>) -> (r: Result<String, String>)
    ensures
        r is Ok <==> valid_utf8(b@),
        r matches Ok(s) ==> s@ == decode_utf8(b@),
        r matches Err(e) ==> e@ == utf8_error_text(b@),
{
    String::from_utf8(b).map_err(|e| e.to_string())
}

/// Reads JSON from bytes with `serde_json::from_slice`; an error is handed
/// back as its text.
#[verifier::external_body]
pub(crate) fn json_from_bytes(b: &[u8]) -> (r: Result<serde_json::Value, String>)
    ensures
        match json_reading(b@) {
            Ok(v) => r matches Ok(x) && x == v,
            Err(m) => r matches Err(e) && e@ == m,
        },
{
    serde_json::from_slice::<serde_json::Value>(b).map_err(|e| e.to_string())
}

/// The string at `v[key]`, if that is a string.
#[verifier::external_body]
pub(crate) fn json_member_str(v: &serde_json::Value, key: &str) -> (r: Option<String>)
    ensures
        match json_string_member(*v, key@) {
            Some(t) => r matches Some(s) && s@ == t,
            None => r is None,
        },
{
    v[key].as_str().map(|s| s.to_string())
}

/// The HMAC-SHA256 tag of `data` under `key`. `Hmac::new_from_slice` takes
/// keys of every length.
#[verifier::external_body]
fn hmac_sha256(key: &[u8], data: &[u8]) -> (t: Vec<u8>)
    ensures
        t@ == hmac_sha256_tag(key@, data@),
{
    let mut mac = <hmac::Hmac<sha2::Sha256> as hmac::Mac>::new_from_slice(key).unwrap();
    hmac::Mac::update(&mut mac, data);
    hmac::Mac::finalize(mac).into_bytes().to_vec()
}

/// Writes an instant in milliseconds as `%Y-%m-%dT%H:%M:%SZ` with `chrono`
/// (`DateTime::from_timestamp_millis`, then `format`); `None` for an
/// instant `chrono` cannot represent.
#[verifier::external_body]
fn iso_seconds(ms: i64) -> (s: Option<String>)
    ensures
        iso_seconds_text(ms) == match s {
            Some(t) => Some(t@),
            None => None::<Seq<char>>,
        },
{
    match chrono::DateTime::from_timestamp_millis(ms) {
        Some(d) => Some(d.format("%Y-%m-%dT%H:%M:%SZ").to_string()),
        None => None,
    }
}

/// The 16 bytes of a UUID given as its number, most significant first.
pub open spec fn uuid_bytes_of(x: nat, n: nat) -> Seq<u8>
    decreases n,
{
    if n == 0 {
        Seq::empty()
    } else {
        uuid_bytes_of(x / 256, (n - 1) as nat).push((x % 256) as u8)
    }
}

proof fn lemma_uuid_bytes_len(x: nat, n: nat)
    ensures
        uuid_bytes_of(x, n).len() == n,
    decreases n,
{
    if n > 0 {
        lemma_uuid_bytes_len(x / 256, (n - 1) as nat);
    }
}

/// The last `n` bytes of a number, most significant first.
fn low_bytes(x: u128, n: usize) -> (b: Vec<u8>)
    requires
        n <= 16,
    ensures
        b@ == uuid_bytes_of(x as nat, n as nat),
    decreases n,
{
    if n == 0 {
        Vec::new()
    } else {
        let mut b = low_bytes(x / 256, n - 1);
        b.push((x % 256) as u8);
        b
    }
}

/// The bytes of a UUID given as its number, most significant first (as
/// `Uuid::as_bytes` gives them).
fn uuid_bytes(id: u128) -> (b: Vec<u8>)
    ensures
        b@ == uuid_bytes_of(id as nat, 16),
        b@.len() == 16,
{
    proof {
        lemma_uuid_bytes_len(id as nat, 16);
    }
    low_bytes(id, 16)
}


/// The longest session lifetime accepted, in hours (over 100,000 years).
pub const MAX_SESSION_TTL_HOURS: i64 = 1000000000;

/// `v` brought within the range of `i64`.
pub open spec fn clamp_i64(v: int) -> i64 {
    if v > i64::MAX {
        i64::MAX
    } else if v < i64::MIN {
        i64::MIN
    } else {
        v as i64
    }
}

/// `s` is a fresh session of the user with the provider, client address and
/// agent: active since its creation and expiring `ttl_hours` later.
pub open spec fn session_for(s: AuthSession, user: Seq<char>, provider: Seq<char>, ip: Seq<char>, ua: Seq<char>, ttl_hours: i64) -> bool {
    &&& s.user_id@ == user
    &&& s.provider@ == provider
    &&& s.ip_address@ == ip
    &&& s.user_agent@ == ua
    &&& s.last_active == s.created_at
    &&& s.expires_at == clamp_i64(s.created_at + ttl_hours * 3_600_000)
}

/// The stored hash of a password: the lower-case hexadecimal SHA-256 of its UTF-8 bytes.
pub open spec fn password_hash(password: Seq<char>) -> Seq<char> {
    hex_text(sha256_digest(encode_utf8(password)))
}

/// Signs users in and builds the sign-in flows of identity providers.
/// Sessions last `session_ttl_hours`; `signing_key` keys the HMAC tags.
pub struct AuthManager {
    session_ttl_hours: i64,
    signing_key: Vec<u8>,
}

impl AuthManager {
    /// How long sessions last, in hours.
    pub closed spec fn ttl(&self) -> i64 {
        self.session_ttl_hours
    }

    /// The key of the HMAC tags.
    pub closed spec fn key(&self) -> Seq<u8> {
        self.signing_key@
    }

    /// The lifetime is within the accepted bound.
    pub open spec fn wf(&self) -> bool {
        -MAX_SESSION_TTL_HOURS <= self.ttl() <= MAX_SESSION_TTL_HOURS
    }

    /// A manager whose sessions last eight hours.
    pub fn new(signing_key: Vec<u8>) -> (m: AuthManager)
        ensures
            m.wf(),
            m.ttl() == 8,
            m.key() == signing_key@,
    {
        AuthManager { session_ttl_hours: 8, signing_key }
    }

    /// The same manager with sessions lasting `hours`.
    pub fn with_session_ttl(self, hours: i64) -> (m: AuthManager)
        requires
            -MAX_SESSION_TTL_HOURS <= hours <= MAX_SESSION_TTL_HOURS,
        ensures
            m.wf(),
            m.ttl() == hours,
            m.key() == self.key(),
    {
        AuthManager { session_ttl_hours: hours, signing_key: self.signing_key }
    }

    /// A fresh session, created now under a random identifier.
    fn create_session(&self, user_id: &str, provider: &str, ip_address: &str, user_agent: &str) -> (s: AuthSession)
        requires
            self.wf(),
        ensures
            session_for(s, user_id@, provider@, ip_address@, user_agent@, self.ttl()),
    {
        let now = now_millis();
        let ttl_ms = self.session_ttl_hours * 3600000;
        let expires = if ttl_ms > 0 && now > i64::MAX - ttl_ms {
            i64::MAX
        } else if ttl_ms < 0 && now < i64::MIN - ttl_ms {
            i64::MIN
        } else {
            now + ttl_ms
        };
        AuthSession {
            session_id: new_uuid(),
            user_id: String::from_str(user_id),
            created_at: now,
            expires_at: expires,
            last_active: now,
            ip_address: String::from_str(ip_address),
            user_agent: String::from_str(user_agent),
            provider: String::from_str(provider),
        }
    }

    /// Signs a user in with a password: the lower-case hexadecimal SHA-256 of
    /// the password must be the stored hash, else `InvalidCredentials`. The
    /// caller stores the session.
    pub fn authenticate_local(
        &self,
        username: &str,
        password: &str,
        stored_hash: &str,
        ip_address: &str,
        user_agent: &str,
    ) -> (r: Result<AuthSession, AuthError>)
        requires
            self.wf(),
        ensures
            r is Ok <==> password_hash(password@) == stored_hash@,
            r is Err ==> r matches Err(AuthError::InvalidCredentials),
            r matches Ok(s) ==> session_for(s, username@, "local"@, ip_address@, user_agent@, self.ttl()),
    {
        let digest = sha256(password.as_bytes());
        let hash = hex_encode(digest.as_slice());
        if !str_eq(hash.as_str(), stored_hash) {
            return Err(AuthError::InvalidCredentials);
        }
        Ok(self.create_session(username, "local", ip_address, user_agent))
    }
}


/// Base64 text made safe for a SAML redirect: `+`, `/` and `=` percent-escaped.
pub open spec fn saml_url_escape(s: Seq<char>) -> Seq<char>
    decreases s.len(),
{
    if s.len() == 0 {
        Seq::empty()
    } else {
        saml_url_escape(s.drop_last()) + if s.last() == '+' {
            "%2B"@
        } else if s.last() == '/' {
            "%2F"@
        } else if s.last() == '=' {
            "%3D"@
        } else {
            seq![s.last()]
        }
    }
}

/// Base64 text made URL-safe for PKCE: `+` to `-`, `/` to `_`, `=` dropped.
pub open spec fn pkce_url_safe(s: Seq<char>) -> Seq<char>
    decreases s.len(),
{
    if s.len() == 0 {
        Seq::empty()
    } else {
        pkce_url_safe(s.drop_last()) + if s.last() == '+' {
            seq!['-']
        } else if s.last() == '/' {
            seq!['_']
        } else if s.last() == '=' {
            Seq::empty()
        } else {
            seq![s.last()]
        }
    }
}


/// A character of the standard Base64 alphabet.
pub open spec fn b64_alphabet(c: char) -> bool {
    ('A' <= c <= 'Z') || ('a' <= c <= 'z') || ('0' <= c <= '9') || c == '+' || c == '/'
}

/// How many `=` pad the standard Base64 text of `n` bytes.
pub open spec fn b64_padding(n: nat) -> int {
    if n % 3 == 0 {
        0
    } else {
        3 - (n % 3) as int
    }
}

/// A character PKCE allows in a code verifier (RFC 7636: unreserved characters).
pub open spec fn pkce_char(c: char) -> bool {
    ('A' <= c <= 'Z') || ('a' <= c <= 'z') || ('0' <= c <= '9') || c == '-' || c == '.' || c == '_' || c == '~'
}

proof fn lemma_pkce_url_safe(s: Seq<char>, m: int)
    requires
        0 <= m <= s.len(),
        forall|i: int| 0 <= i < m ==> b64_alphabet(#[trigger] s[i]),
        forall|i: int| m <= i < s.len() ==> #[trigger] s[i] == '=',
    ensures
        pkce_url_safe(s).len() == m,
        forall|j: int| 0 <= j < m ==> pkce_char(#[trigger] pkce_url_safe(s)[j]),
    decreases s.len(),
{
    if s.len() > 0 {
        let d = s.drop_last();
        if s.len() > m {
            assert(s.last() == '=');
            assert forall|i: int| m <= i < d.len() implies #[trigger] d[i] == '=' by {
                assert(d[i] == s[i]);
            }
            lemma_pkce_url_safe(d, m);
            assert(pkce_url_safe(s) =~= pkce_url_safe(d));
        } else {
            assert(b64_alphabet(s[m - 1]));
            assert forall|i: int| 0 <= i < m - 1 implies b64_alphabet(#[trigger] d[i]) by {
                assert(d[i] == s[i]);
            }
            lemma_pkce_url_safe(d, m - 1);
        }
    }
}

/// Text with its spaces percent-escaped.
pub open spec fn space_escape(s: Seq<char>) -> Seq<char>
    decreases s.len(),
{
    if s.len() == 0 {
        Seq::empty()
    } else {
        space_escape(s.drop_last()) + if s.last() == ' ' {
            "%20"@
        } else {
            seq![s.last()]
        }
    }
}

/// The pieces joined with `sep` between them.
pub open spec fn joined(ss: Seq<Seq<char>>, sep: Seq<char>) -> Seq<char>
    decreases ss.len(),
{
    if ss.len() == 0 {
        Seq::empty()
    } else if ss.len() == 1 {
        ss[0]
    } else {
        joined(ss.drop_last(), sep) + sep + ss.last()
    }
}

/// The SAML AuthnRequest document.
pub open spec fn authn_request_xml(id: Seq<char>, instant: Seq<char>, acs: Seq<char>, issuer: Seq<char>) -> Seq<char> {
    "<samlp:AuthnRequest\n  xmlns:samlp=\"urn:oasis:names:tc:SAML:2.0:protocol\"\n  xmlns:saml=\"urn:oasis:names:tc:SAML:2.0:assertion\"\n  ID=\""@
        + id + "\"\n  Version=\"2.0\"\n  IssueInstant=\""@ + instant
        + "\"\n  AssertionConsumerServiceURL=\""@ + acs
        + "\"\n  ProtocolBinding=\"urn:oasis:names:tc:SAML:2.0:bindings:HTTP-POST\">\n  <saml:Issuer>"@ + issuer
        + "</saml:Issuer>\n  <samlp:NameIDPolicy Format=\"urn:oasis:names:tc:SAML:1.1:nameid-format:emailAddress\" AllowCreate=\"true\"/>\n</samlp:AuthnRequest>"@
}

/// `r` is the SAML flow for the configuration, made with the request
/// identifier bytes `id_bytes`, the relay state bytes `relay_bytes` and the
/// issue instant `instant`.
pub open spec fn saml_flow_made(config: SamlConfig, r: SamlFlowState, id_bytes: Seq<u8>, relay_bytes: Seq<u8>, instant: Seq<char>) -> bool {
    &&& id_bytes.len() == 16
    &&& relay_bytes.len() == 16
    &&& r.authn_request_id@ == "_"@ + hex_text(id_bytes)
    &&& r.relay_state@ == base64_standard_text(relay_bytes)
    &&& r.redirect_url@ == config.metadata_url@ + "?SAMLRequest="@ + saml_url_escape(
        base64_standard_text(
            encode_utf8(
                authn_request_xml(
                    r.authn_request_id@,
                    instant,
                    config.assertion_consumer_service_url@,
                    config.entity_id@,
                ),
            ),
        ),
    ) + "&RelayState="@ + r.relay_state@
}

/// Percent-escapes `+`, `/` and `=` of a Base64 text.
fn escape_for_saml(s: &str) -> (r: String)
    ensures
        r@ == saml_url_escape(s@),
{
    let cs = chars_of(s);
    let mut r = String::new();
    let mut i: usize = 0;
    while i < cs.len()
        invariant
            cs@ == s@,
            i <= cs@.len(),
            r@ == saml_url_escape(s@.take(i as int)),
        decreases cs@.len() - i,
    {
        let c = cs[i];
        assert(s@.take(i + 1).drop_last() =~= s@.take(i as int));
        if c == '+' {
            r.append("%2B");
        } else if c == '/' {
            r.append("%2F");
        } else if c == '=' {
            r.append("%3D");
        } else {
            push_char(&mut r, c);
        }
        assert(r@ =~= saml_url_escape(s@.take(i + 1)));
        i += 1;
    }
    assert(s@.take(cs@.len() as int) =~= s@);
    r
}

/// Makes Base64 text URL-safe for PKCE.
fn url_safe_for_pkce(s: &str) -> (r: String)
    ensures
        r@ == pkce_url_safe(s@),
{
    let cs = chars_of(s);
    let mut r = String::new();
    let mut i: usize = 0;
    while i < cs.len()
        invariant
            cs@ == s@,
            i <= cs@.len(),
            r@ == pkce_url_safe(s@.take(i as int)),
        decreases cs@.len() - i,
    {
        let c = cs[i];
        assert(s@.take(i + 1).drop_last() =~= s@.take(i as int));
        if c == '+' {
            push_char(&mut r, '-');
        } else if c == '/' {
            push_char(&mut r, '_');
        } else if c == '=' {
        } else {
            push_char(&mut r, c);
        }
        assert(r@ =~= pkce_url_safe(s@.take(i + 1)));
        i += 1;
    }
    assert(s@.take(cs@.len() as int) =~= s@);
    r
}

/// The scopes joined by spaces, with the spaces percent-escaped.
fn escaped_scopes(scopes: &Vec<String>) -> (r: String)
    ensures
        r@ == space_escape(joined(scopes@.map_values(|s: String| s@), " "@)),
{
    let ghost ss = scopes@.map_values(|s: String| s@);
    let mut joined_text = String::new();
    let mut i: usize = 0;
    while i < scopes.len()
        invariant
            ss == scopes@.map_values(|s: String| s@),
            i <= ss.len(),
            joined_text@ == joined(ss.take(i as int), " "@),
        decreases ss.len() - i,
    {
        assert(ss.take(i + 1).drop_last() =~= ss.take(i as int));
        assert(ss[i as int] == scopes@[i as int]@);
        if i > 0 {
            joined_text.append(" ");
        }
        joined_text.append(scopes[i].as_str());
        proof {
            if i == 0 {
                assert(joined_text@ =~= joined(ss.take(1), " "@));
            } else {
                assert(joined_text@ =~= joined(ss.take(i + 1), " "@));
            }
        }
        i += 1;
    }
    assert(ss.take(ss.len() as int) =~= ss);
    let cs = chars_of(joined_text.as_str());
    let mut r = String::new();
    let mut k: usize = 0;
    let ghost j = joined_text@;
    while k < cs.len()
        invariant
            cs@ == j,
            k <= j.len(),
            r@ == space_escape(j.take(k as int)),
        decreases j.len() - k,
    {
        assert(j.take(k + 1).drop_last() =~= j.take(k as int));
        if cs[k] == ' ' {
            r.append("%20");
        } else {
            push_char(&mut r, cs[k]);
        }
        assert(r@ =~= space_escape(j.take(k + 1)));
        k += 1;
    }
    assert(j.take(j.len() as int) =~= j);
    r
}


/// The text a successful SAML response carries.
pub open spec fn saml_success_marker() -> Seq<char> {
    "urn:oasis:names:tc:SAML:2.0:status:Success"@
}

/// The user named by a Base64 SAML response for the provider, or the
/// reason it is refused: it must decode and be UTF-8, report success, name
/// the user in `saml:NameID` (or else `NameID`), and mention the entity.
pub open spec fn saml_outcome(response: Seq<char>, entity_id: Seq<char>) -> Result<Seq<char>, Seq<char>> {
    match base64_standard_decoding(response) {
        Err(m) => Err("base64 decode: "@ + m),
        Ok(bytes) => if !valid_utf8(bytes) {
            Err("utf8: "@ + utf8_error_text(bytes))
        } else {
            let xml = decode_utf8(bytes);
            if !contains_seq(xml, saml_success_marker()) {
                Err("Response status is not Success"@)
            } else {
                let name = match xml_element(xml, "saml:NameID"@) {
                    Some(n) => Some(n),
                    None => xml_element(xml, "NameID"@),
                };
                match name {
                    None => Err("NameID not found"@),
                    Some(user) => if !contains_seq(xml, entity_id) {
                        Err("Response Audience does not match entity_id"@)
                    } else {
                        Ok(user)
                    },
                }
            }
        },
    }
}

/// `r` is the OIDC flow for the configuration, made with the state bytes
/// and the verifier bytes: the verifier is the Base64url text, without
/// padding, of 32 random bytes, and the challenge that of the SHA-256 digest
/// of the verifier (PKCE's S256 method).
pub open spec fn oidc_flow_made(config: OidcConfig, r: OidcFlowState, state_bytes: Seq<u8>, verifier_bytes: Seq<u8>) -> bool {
    &&& state_bytes.len() == 16
    &&& verifier_bytes.len() == 32
    &&& r.state@ == base64_standard_text(state_bytes)
    &&& r.code_verifier@ == pkce_url_safe(base64_standard_text(verifier_bytes))
    &&& r.code_challenge@ == pkce_url_safe(base64_standard_text(sha256_digest(encode_utf8(r.code_verifier@))))
    &&& r.authorization_url@ == config.issuer_url@ + "/authorize?response_type=code&client_id="@ + config.client_id@
        + "&redirect_uri="@ + config.redirect_uri@ + "&scope="@ + space_escape(
        joined(config.scopes@.map_values(|s: String| s@), " "@),
    ) + "&state="@ + r.state@ + "&code_challenge="@ + r.code_challenge@ + "&code_challenge_method=S256"@
}

/// What the claims of an OIDC token answer give: the user, or why the
/// answer is refused (as an invalid token, or as unreadable JSON).
pub enum OidcOutcome {
    User(Seq<char>),
    Invalid(Seq<char>),
    Unreadable(Seq<char>),
}

/// The field the `sub` claim is mapped to, if any (the first mapping of `sub`).
pub open spec fn mapped_field(mapping: Seq<(Seq<char>, Seq<char>)>, key: Seq<char>) -> Option<Seq<char>>
    decreases mapping.len(),
{
    if mapping.len() == 0 {
        None
    } else if mapping[0].0 == key {
        Some(mapping[0].1)
    } else {
        mapped_field(mapping.drop_first(), key)
    }
}

/// The attribute mapping as plain values.
pub open spec fn mapping_views(m: Seq<(String, String)>) -> Seq<(Seq<char>, Seq<char>)> {
    m.map_values(|p: (String, String)| (p.0@, p.1@))
}

/// The user of a token answer: the `sub` claim of the `id_token`'s payload
/// (its second dot-separated part, in Base64), or the claim the mapping
/// names for `sub` when that is a string.
pub open spec fn oidc_outcome(token_data: serde_json::Value, mapping: Seq<(Seq<char>, Seq<char>)>) -> OidcOutcome {
    match json_string_member(token_data, "id_token"@) {
        None => OidcOutcome::Invalid("No id_token in response"@),
        Some(id_token) => {
            let parts = split_on(id_token, '.');
            if parts.len() < 2 {
                OidcOutcome::Invalid("Malformed id_token"@)
            } else {
                match base64_standard_decoding(parts[1]) {
                    Err(m) => OidcOutcome::Invalid("id_token decode: "@ + m),
                    Ok(payload) => match json_reading(payload) {
                        Err(m) => OidcOutcome::Unreadable(m),
                        Ok(claims) => match json_string_member(claims, "sub"@) {
                            None => OidcOutcome::Invalid("No sub claim"@),
                            Some(sub) => OidcOutcome::User(
                                match mapped_field(mapping, "sub"@) {
                                    Some(field) => match json_string_member(claims, field) {
                                        Some(v) => v,
                                        None => sub,
                                    },
                                    None => sub,
                                },
                            ),
                        },
                    },
                }
            }
        },
    }
}

fn find_mapping(mapping: &Vec<(String, String)>, key: &str) -> (r: Option<usize>)
    ensures
        match mapped_field(mapping_views(mapping@), key@) {
            Some(f) => r matches Some(i) && i < mapping@.len() && mapping@[i as int].1@ == f,
            None => r is None,
        },
{
    let ghost ms = mapping_views(mapping@);
    let mut i: usize = 0;
    assert(ms.subrange(0, ms.len() as int) =~= ms);
    while i < mapping.len()
        invariant
            ms == mapping_views(mapping@),
            i <= ms.len(),
            mapped_field(ms, key@) == mapped_field(ms.subrange(i as int, ms.len() as int), key@),
        decreases ms.len() - i,
    {
        let ghost rest = ms.subrange(i as int, ms.len() as int);
        assert(rest[0] == (mapping@[i as int].0@, mapping@[i as int].1@));
        assert(rest.drop_first() =~= ms.subrange(i + 1, ms.len() as int));
        if str_eq(mapping[i].0.as_str(), key) {
            return Some(i);
        }
        i += 1;
    }
    assert(ms.subrange(ms.len() as int, ms.len() as int) =~= Seq::<(Seq<char>, Seq<char>)>::empty());
    None
}

impl AuthManager {
    /// Starts a SAML sign-in: a fresh request identifier and relay state, and
    /// the redirect URL carrying the Base64 AuthnRequest (stamped now) for the
    /// provider's metadata URL.
    pub fn initiate_saml_flow(&self, config: &SamlConfig) -> (r: Result<SamlFlowState, AuthError>)
        ensures
            r is Ok,
            exists|a: Seq<u8>, b: Seq<u8>, t: Seq<char>| #[trigger] saml_flow_made(*config, r->Ok_0, a, b, t),
    {
        let id_bytes = uuid_bytes(new_uuid());
        let mut request_id = String::from_str("_");
        request_id.append(hex_encode(id_bytes.as_slice()).as_str());
        let instant = match iso_seconds(now_millis()) {
            Some(t) => t,
            None => String::new(),
        };
        let relay_bytes = uuid_bytes(new_uuid());
        let relay_state = base64_encode(relay_bytes.as_slice());
        let mut xml = String::from_str("<samlp:AuthnRequest\n  xmlns:samlp=\"urn:oasis:names:tc:SAML:2.0:protocol\"\n  xmlns:saml=\"urn:oasis:names:tc:SAML:2.0:assertion\"\n  ID=\"");
        xml.append(request_id.as_str());
        xml.append("\"\n  Version=\"2.0\"\n  IssueInstant=\"");
        xml.append(instant.as_str());
        xml.append("\"\n  AssertionConsumerServiceURL=\"");
        xml.append(config.assertion_consumer_service_url.as_str());
        xml.append("\"\n  ProtocolBinding=\"urn:oasis:names:tc:SAML:2.0:bindings:HTTP-POST\">\n  <saml:Issuer>");
        xml.append(config.entity_id.as_str());
        xml.append("</saml:Issuer>\n  <samlp:NameIDPolicy Format=\"urn:oasis:names:tc:SAML:1.1:nameid-format:emailAddress\" AllowCreate=\"true\"/>\n</samlp:AuthnRequest>");
        assert(xml@ == authn_request_xml(request_id@, instant@, config.assertion_consumer_service_url@, config.entity_id@));
        let encoded = base64_encode(xml.as_str().as_bytes());
        let url_encoded = escape_for_saml(encoded.as_str());
        let mut redirect_url = String::from_str(config.metadata_url.as_str());
        redirect_url.append("?SAMLRequest=");
        redirect_url.append(url_encoded.as_str());
        redirect_url.append("&RelayState=");
        redirect_url.append(relay_state.as_str());
        let f = SamlFlowState { authn_request_id: request_id, relay_state, redirect_url };
        assert(saml_flow_made(*config, f, id_bytes@, relay_bytes@, instant@));
        let res: Result<SamlFlowState, AuthError> = Ok(f);
        assert(saml_flow_made(*config, res->Ok_0, id_bytes@, relay_bytes@, instant@));
        res
    }

    /// Reads the user out of a Base64 SAML response (see `saml_outcome`) and
    /// opens a session for them; a refused response is `SamlInvalid` with the
    /// reason. The certificate's fingerprint is tagged with the signing key.
    /// The caller stores the session.
    pub fn process_saml_response(
        &self,
        response_b64: &str,
        config: &SamlConfig,
        ip_address: &str,
        user_agent: &str,
    ) -> (r: Result<AuthSession, AuthError>)
        requires
            self.wf(),
        ensures
            match saml_outcome(response_b64@, config.entity_id@) {
                Ok(user) => r matches Ok(s) && session_for(s, user, "saml"@, ip_address@, user_agent@, self.ttl()),
                Err(m) => r matches Err(AuthError::SamlInvalid(e)) && e@ == m,
            },
    {
        let decoded = match base64_decode_standard(response_b64) {
            Ok(d) => d,
            Err(e) => {
                let mut m = String::from_str("base64 decode: ");
                m.append(e.as_str());
                return Err(AuthError::SamlInvalid(m));
            },
        };
        let ghost bytes = decoded@;
        let xml = match string_from_utf8(decoded) {
            Ok(x) => x,
            Err(e) => {
                let mut m = String::from_str("utf8: ");
                m.append(e.as_str());
                return Err(AuthError::SamlInvalid(m));
            },
        };
        if !str_contains(xml.as_str(), "urn:oasis:names:tc:SAML:2.0:status:Success") {
            return Err(AuthError::SamlInvalid(String::from_str("Response status is not Success")));
        }
        let name = match extract_xml_element(xml.as_str(), "saml:NameID") {
            Some(n) => Some(n),
            None => extract_xml_element(xml.as_str(), "NameID"),
        };
        let user_id = match name {
            Some(u) => u,
            None => {
                return Err(AuthError::SamlInvalid(String::from_str("NameID not found")));
            },
        };
        if !str_contains(xml.as_str(), config.entity_id.as_str()) {
            return Err(AuthError::SamlInvalid(String::from_str("Response Audience does not match entity_id")));
        }
        let digest = sha256(config.idp_certificate.as_str().as_bytes());
        let fingerprint = hex_encode(digest.as_slice());
        let _tag = hmac_sha256(self.signing_key.as_slice(), fingerprint.as_str().as_bytes());
        Ok(self.create_session(user_id.as_str(), "saml", ip_address, user_agent))
    }

    /// Starts an OIDC sign-in with PKCE: a fresh state and code verifier, the
    /// S256 challenge of the verifier, and the authorization URL. The
    /// verifier is 43 characters, all of them ones PKCE allows.
    pub fn initiate_oidc_flow(&self, config: &OidcConfig) -> (r: Result<OidcFlowState, AuthError>)
        ensures
            r is Ok,
            exists|a: Seq<u8>, b: Seq<u8>| #[trigger] oidc_flow_made(*config, r->Ok_0, a, b),
            r->Ok_0.code_verifier@.len() == 43,
            forall|j: int| 0 <= j < 43 ==> pkce_char(#[trigger] r->Ok_0.code_verifier@[j]),
    {
        let state_bytes = uuid_bytes(new_uuid());
        let state = base64_encode(state_bytes.as_slice());
        let mut verifier_bytes = uuid_bytes(new_uuid());
        let more = uuid_bytes(new_uuid());
        let mut k: usize = 0;
        let ghost first = verifier_bytes@;
        while k < 16
            invariant
                k <= 16,
                more@.len() == 16,
                first.len() == 16,
                verifier_bytes@ == first + more@.take(k as int),
            decreases 16 - k,
        {
            verifier_bytes.push(more[k]);
            k += 1;
            assert(verifier_bytes@ =~= first + more@.take(k as int));
        }
        let std_verifier = base64_encode(verifier_bytes.as_slice());
        proof {
            assert(b64_padding(32) == 1);
            assert(std_verifier@.len() == 44);
            lemma_pkce_url_safe(std_verifier@, 43);
        }
        let code_verifier = url_safe_for_pkce(std_verifier.as_str());
        let digest = sha256(code_verifier.as_str().as_bytes());
        let code_challenge = url_safe_for_pkce(base64_encode(digest.as_slice()).as_str());
        let scopes = escaped_scopes(&config.scopes);
        let mut url = String::from_str(config.issuer_url.as_str());
        url.append("/authorize?response_type=code&client_id=");
        url.append(config.client_id.as_str());
        url.append("&redirect_uri=");
        url.append(config.redirect_uri.as_str());
        url.append("&scope=");
        url.append(scopes.as_str());
        url.append("&state=");
        url.append(state.as_str());
        url.append("&code_challenge=");
        url.append(code_challenge.as_str());
        url.append("&code_challenge_method=S256");
        let f = OidcFlowState { authorization_url: url, state, code_verifier, code_challenge };
        assert(oidc_flow_made(*config, f, state_bytes@, verifier_bytes@));
        let res: Result<OidcFlowState, AuthError> = Ok(f);
        assert(oidc_flow_made(*config, res->Ok_0, state_bytes@, verifier_bytes@));
        res
    }

    /// The state sent back with an OIDC code must be the one the flow began
    /// with; otherwise `OidcInvalid("State mismatch")`.
    pub fn check_oidc_state(state: &str, flow_state: &OidcFlowState) -> (r: Result<(), AuthError>)
        ensures
            r is Ok <==> state@ == flow_state.state@,
            r is Err ==> (r matches Err(AuthError::OidcInvalid(m)) && m@ == "State mismatch"@),
    {
        if !str_eq(state, flow_state.state.as_str()) {
            return Err(AuthError::OidcInvalid(String::from_str("State mismatch")));
        }
        Ok(())
    }

    /// The answer of the token endpoint must be a success (2xx); otherwise
    /// `OidcInvalid`, naming the status.
    pub fn check_token_status(status: u16, status_text: &str) -> (r: Result<(), AuthError>)
        ensures
            r is Ok <==> 200 <= status < 300,
            r is Err ==> (r matches Err(AuthError::OidcInvalid(m)) && m@ == "Token endpoint returned "@ + status_text@),
    {
        if !(200 <= status && status < 300) {
            let mut m = String::from_str("Token endpoint returned ");
            m.append(status_text);
            return Err(AuthError::OidcInvalid(m));
        }
        Ok(())
    }

    /// Reads the user out of the token endpoint's answer (see `oidc_outcome`)
    /// and opens a session for them. The caller stores the session.
    pub fn oidc_session_from_tokens(
        &self,
        token_data: &serde_json::Value,
        config: &OidcConfig,
        ip_address: &str,
        user_agent: &str,
    ) -> (r: Result<AuthSession, AuthError>)
        requires
            self.wf(),
        ensures
            match oidc_outcome(*token_data, mapping_views(config.attribute_mapping@)) {
                OidcOutcome::User(u) => r matches Ok(s) && session_for(s, u, "oidc"@, ip_address@, user_agent@, self.ttl()),
                OidcOutcome::Invalid(m) => r matches Err(AuthError::OidcInvalid(e)) && e@ == m,
                OidcOutcome::Unreadable(m) => r matches Err(AuthError::Serialization(e)) && e@ == m,
            },
    {
        let id_token = match json_member_str(token_data, "id_token") {
            Some(t) => t,
            None => {
                return Err(AuthError::OidcInvalid(String::from_str("No id_token in response")));
            },
        };
        let parts = split_chars(id_token.as_str(), '.');
        if parts.len() < 2 {
            return Err(AuthError::OidcInvalid(String::from_str("Malformed id_token")));
        }
        let ghost pv = parts@.map_values(|p: Vec<char>| p@);
        assert(pv[1] == parts@[1]@);
        let part = string_from_chars(parts[1].as_slice());
        let payload = match base64_decode_standard(part.as_str()) {
            Ok(p) => p,
            Err(e) => {
                let mut m = String::from_str("id_token decode: ");
                m.append(e.as_str());
                return Err(AuthError::OidcInvalid(m));
            },
        };
        let claims = match json_from_bytes(payload.as_slice()) {
            Ok(c) => c,
            Err(e) => {
                return Err(AuthError::Serialization(e));
            },
        };
        let sub = match json_member_str(&claims, "sub") {
            Some(s) => s,
            None => {
                return Err(AuthError::OidcInvalid(String::from_str("No sub claim")));
            },
        };
        let user_id = match find_mapping(&config.attribute_mapping, "sub") {
            Some(i) => match json_member_str(&claims, config.attribute_mapping[i].1.as_str()) {
                Some(v) => v,
                None => sub,
            },
            None => sub,
        };
        Ok(self.create_session(user_id.as_str(), "oidc", ip_address, user_agent))
    }
}


/// A session opened with a positive lifetime is valid at the moment it is opened.
pub proof fn fresh_sessions_are_valid(s: AuthSession, user: Seq<char>, provider: Seq<char>, ip: Seq<char>, ua: Seq<char>, ttl_hours: i64)
    requires
        session_for(s, user, provider, ip, ua, ttl_hours),
        0 < ttl_hours <= MAX_SESSION_TTL_HOURS,
        s.created_at < i64::MAX,
    ensures
        s.created_at < s.expires_at,
{
}

} // verus!
