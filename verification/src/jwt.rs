//! Signed session tokens.
//!
//! A session token is a compact three-part token: a fixed header, the
//! claims as JSON, each unpadded base64url, and an HMAC-SHA-512 tag
//! over the first two parts, all joined by dots. The claims carry the
//! subject id, a token version, the issuing service, and issue and
//! expiry times; tokens are valid for thirty days from issuance.
//!
//! The cryptographic tag comes from the `jsonwebtoken` crate; every
//! other step — framing, base64, claims serialization and parsing — is
//! verified here, so verification accepts exactly the tokens this
//! module signs.

use vstd::prelude::*;
use vstd::string::StringSliceAdditionalSpecFns;

use crate::b64::{b64_decode, b64_encode, lemma_b64_decode_of_encode, lemma_b64_encode_chars,
    spec_b64_decode, spec_b64_encode};
use crate::errors::{AppError, ErrorKind};
use crate::num::{i64_to_dec_string, lemma_dec_is_digits, lemma_parse_of_dec, parse_dec_i64,
    spec_i64_dec, spec_parse_i64, is_digit};
use crate::time::now_unix_millis;

verus! {

broadcast use vstd::string::is_ascii_spec_bytes;

/// The applications that may sign tokens.
#[derive(Clone, Copy, Debug, PartialEq, Eq, Structural)]
pub enum Service {
    LOCALHOST,
}

impl Service {
    /// Resolves the calling service from the service header's value:
    /// absent means the caller did not identify itself; any present
    /// value maps to the one known service.
    pub fn from_headers(header: Option<&str>) -> (r: Result<Service, AppError>)
        ensures
            match r {
                Ok(s) => header is Some && s is LOCALHOST,
                Err(e) => header is None && e.kind == ErrorKind::BadRequest,
            },
    {
        match header {
            Option::None => Err(AppError::bad_request("missing service header")),
            Option::Some(_) => Ok(Service::LOCALHOST),
        }
    }
}

/// The mathematical shape of session claims.
pub struct ClaimsView {
    pub user_id: Seq<char>,
    pub token_version: int,
    pub issuer: Service,
    pub exp: int,
    pub iat: int,
}

/// The signed payload of a session token. Never persisted; `exp` and
/// `iat` are Unix seconds.
#[derive(Debug)]
pub struct Claims {
    pub user_id: String,
    pub token_version: u32,
    pub issuer: Service,
    pub exp: i64,
    pub iat: i64,
}

impl View for Claims {
    type V = ClaimsView;

    open spec fn view(&self) -> ClaimsView {
        ClaimsView {
            user_id: self.user_id@,
            token_version: self.token_version as int,
            issuer: self.issuer,
            exp: self.exp as int,
            iat: self.iat as int,
        }
    }
}

impl Clone for Claims {
    /// A copy that keeps the view.
    fn clone(&self) -> (r: Claims)
        ensures
            r@ == self@,
    {
        Claims {
            user_id: self.user_id.clone(),
            token_version: self.token_version,
            issuer: self.issuer,
            exp: self.exp,
            iat: self.iat,
        }
    }
}

/// How long a session token stays valid, in seconds: thirty days.
pub const SESSION_TTL_SECONDS: i64 = 2592000;

/// Whether `c` may appear in a subject id on the token wire: printable
/// ASCII, no quote, no backslash, so the claims JSON needs no escaping.
pub open spec fn is_token_safe_char(c: char) -> bool {
    32 <= c as u32 <= 126 && c as u32 != 34 && c as u32 != 92
}

/// Well-formed claims: a wire-safe subject id and fields in their
/// machine ranges.
pub open spec fn wf_claims(c: ClaimsView) -> bool {
    &&& forall|i: int| 0 <= i < c.user_id.len() ==> is_token_safe_char(#[trigger] c.user_id[i])
    &&& 0 <= c.token_version <= u32::MAX
    &&& i64::MIN <= c.exp <= i64::MAX
    &&& i64::MIN <= c.iat <= i64::MAX
}

/// The claims as JSON, in fixed field order with no spaces: exactly
/// what serializing the claims record produces.
pub open spec fn claims_json(c: ClaimsView) -> Seq<char> {
    "{\"user_id\":\""@ + c.user_id + "\",\"token_version\":"@ + spec_i64_dec(c.token_version)
        + ",\"issuer\":\"LOCALHOST\",\"exp\":"@ + spec_i64_dec(c.exp) + ",\"iat\":"@
        + spec_i64_dec(c.iat) + "}"@
}

/// The fixed token header, as JSON.
pub open spec fn header_json() -> Seq<char> {
    "{\"alg\":\"HS512\"}"@
}

/// The byte codes of an ASCII character string.
pub open spec fn chars_to_bytes(s: Seq<char>) -> Seq<u8> {
    s.map_values(|c: char| c as u8)
}

/// The signing input of a token: both base64url parts joined by a dot.
pub open spec fn spec_message(c: ClaimsView) -> Seq<char> {
    spec_b64_encode(chars_to_bytes(header_json())) + seq!['.'] + spec_b64_encode(
        chars_to_bytes(claims_json(c)),
    )
}

/// What the tag of a message under a secret is. Relied on below; see
/// `hmac_sha512_b64`.
pub uninterp spec fn hs512_signature(secret: Seq<u8>, message: Seq<u8>) -> Seq<char>;

/// A whole session token: the signing input, a dot, and the tag.
pub open spec fn spec_token(c: ClaimsView, secret: Seq<u8>) -> Seq<char> {
    spec_message(c) + seq!['.'] + hs512_signature(secret, chars_to_bytes(spec_message(c)))
}

/// Relies on `jsonwebtoken::crypto::sign` with `Algorithm::HS512` and a
/// key from `EncodingKey::from_secret`: the unpadded base64url
/// HMAC-SHA-512 tag of the message under the secret, a function of the
/// two arguments alone. HMAC accepts keys of any length and the HS512
/// signer cannot fail on a secret-family key, so the call returns Ok
/// (this crate enables only jsonwebtoken's rust-crypto provider and
/// never installs another).
#[verifier::external_body]
fn hmac_sha512_b64(secret: &[u8], message: &[u8]) -> (r: Result<String, AppError>)
    ensures
        r is Ok,
        r matches Ok(t) ==> t@ == hs512_signature(secret@, message@),
{
    jsonwebtoken::crypto::sign(
        message,
        &jsonwebtoken::EncodingKey::from_secret(secret),
        jsonwebtoken::Algorithm::HS512,
    ).map_err(|_| AppError::internal_server_error("signing failed"))
}

/// Serializes claims as JSON.
pub fn claims_json_string(c: &Claims) -> (r: String)
    ensures
        r@ == claims_json(c@),
{
    let mut s = "{\"user_id\":\"".to_owned();
    s.append(c.user_id.as_str());
    s.append("\",\"token_version\":");
    s.append(i64_to_dec_string(c.token_version as i64).as_str());
    s.append(",\"issuer\":\"LOCALHOST\",\"exp\":");
    s.append(i64_to_dec_string(c.exp).as_str());
    s.append(",\"iat\":");
    s.append(i64_to_dec_string(c.iat).as_str());
    s.append("}");
    proof {
        assert(s@ =~= claims_json(c@));
    }
    s
}

/// An ASCII code bound carries over to the character ordering.
proof fn lemma_char_code_ascii(c: char)
    requires
        c as u32 <= 127,
    ensures
        '\0' <= c <= '\u{7f}',
{
}

/// Decimal renderings are ASCII: digits and at most a minus sign.
proof fn lemma_dec_ascii(n: int)
    ensures
        vstd::utf8::is_ascii_chars(spec_i64_dec(n)),
{
    if n >= 0 {
        lemma_dec_is_digits(n as nat);
        assert forall|i: int| 0 <= i < spec_i64_dec(n).len() implies '\0'
            <= #[trigger] spec_i64_dec(n)[i] <= '\u{7f}' by {
            assert(spec_i64_dec(n)[i] == crate::num::spec_u64_dec(n as nat)[i]);
            assert(is_digit(crate::num::spec_u64_dec(n as nat)[i]));
            lemma_char_code_ascii(spec_i64_dec(n)[i]);
        }
    } else {
        lemma_dec_is_digits((-n) as nat);
        assert forall|i: int| 0 <= i < spec_i64_dec(n).len() implies '\0'
            <= #[trigger] spec_i64_dec(n)[i] <= '\u{7f}' by {
            if i > 0 {
                assert(spec_i64_dec(n)[i] == crate::num::spec_u64_dec((-n) as nat)[i - 1]);
                assert(is_digit(crate::num::spec_u64_dec((-n) as nat)[i - 1]));
            } else {
                assert(spec_i64_dec(n)[0] == '-');
            }
            lemma_char_code_ascii(spec_i64_dec(n)[i]);
        }
    }
}

/// The claims JSON of well-formed claims is ASCII.
pub proof fn lemma_claims_json_ascii(c: ClaimsView)
    requires
        wf_claims(c),
    ensures
        vstd::utf8::is_ascii_chars(claims_json(c)),
{
    let l1 = "{\"user_id\":\""@;
    let l2 = "\",\"token_version\":"@;
    let l3 = ",\"issuer\":\"LOCALHOST\",\"exp\":"@;
    let l4 = ",\"iat\":"@;
    let l5 = "}"@;
    reveal_strlit("{\"user_id\":\"");
    reveal_strlit("\",\"token_version\":");
    reveal_strlit(",\"issuer\":\"LOCALHOST\",\"exp\":");
    reveal_strlit(",\"iat\":");
    reveal_strlit("}");
    assert(vstd::utf8::is_ascii_chars(l1));
    assert(vstd::utf8::is_ascii_chars(l2));
    assert(vstd::utf8::is_ascii_chars(l3));
    assert(vstd::utf8::is_ascii_chars(l4));
    assert(vstd::utf8::is_ascii_chars(l5));
    assert(vstd::utf8::is_ascii_chars(c.user_id)) by {
        assert forall|i: int| 0 <= i < c.user_id.len() implies '\0' <= #[trigger] c.user_id[i]
            <= '\u{7f}' by {
            assert(is_token_safe_char(c.user_id[i]));
            lemma_char_code_ascii(c.user_id[i]);
        }
    }
    lemma_dec_ascii(c.token_version);
    lemma_dec_ascii(c.exp);
    lemma_dec_ascii(c.iat);
    let t1 = l1 + c.user_id;
    let t2 = t1 + l2;
    let t3 = t2 + spec_i64_dec(c.token_version);
    let t4 = t3 + l3;
    let t5 = t4 + spec_i64_dec(c.exp);
    let t6 = t5 + l4;
    let t7 = t6 + spec_i64_dec(c.iat);
    let t8 = t7 + l5;
    vstd::utf8::is_ascii_chars_concat(t1, l1, c.user_id);
    vstd::utf8::is_ascii_chars_concat(t2, t1, l2);
    vstd::utf8::is_ascii_chars_concat(t3, t2, spec_i64_dec(c.token_version));
    vstd::utf8::is_ascii_chars_concat(t4, t3, l3);
    vstd::utf8::is_ascii_chars_concat(t5, t4, spec_i64_dec(c.exp));
    vstd::utf8::is_ascii_chars_concat(t6, t5, l4);
    vstd::utf8::is_ascii_chars_concat(t7, t6, spec_i64_dec(c.iat));
    vstd::utf8::is_ascii_chars_concat(t8, t7, l5);
    assert(claims_json(c) == t8);
}

/// The header JSON is ASCII.
pub proof fn lemma_header_json_ascii()
    ensures
        vstd::utf8::is_ascii_chars(header_json()),
{
    reveal_strlit("{\"alg\":\"HS512\"}");
    assert(vstd::utf8::is_ascii_chars(header_json()));
}

/// The fixed token header, as a string.
fn header_json_str() -> (r: &'static str)
    ensures
        r@ == header_json(),
{
    "{\"alg\":\"HS512\"}"
}

/// ASCII strings' bytes are their character codes.
proof fn lemma_ascii_str_bytes(s: &str)
    requires
        vstd::utf8::is_ascii_chars(s@),
    ensures
        s.spec_bytes() == chars_to_bytes(s@),
{
    assert(vstd::string::is_ascii(s));
    assert(s.spec_bytes() =~= Seq::new(s@.len(), |i: int| s@.index(i) as u8));
    assert(s.spec_bytes() =~= chars_to_bytes(s@));
}

/// The signing input of well-formed claims is ASCII.
pub proof fn lemma_message_ascii(c: ClaimsView)
    requires
        wf_claims(c),
    ensures
        vstd::utf8::is_ascii_chars(spec_message(c)),
{
    lemma_header_json_ascii();
    lemma_claims_json_ascii(c);
    crate::b64::lemma_b64_encode_ascii(chars_to_bytes(header_json()));
    crate::b64::lemma_b64_encode_ascii(chars_to_bytes(claims_json(c)));
    let h = spec_b64_encode(chars_to_bytes(header_json()));
    let p = spec_b64_encode(chars_to_bytes(claims_json(c)));
    let dot = seq!['.'];
    assert(vstd::utf8::is_ascii_chars(dot)) by {
        assert forall|i: int| 0 <= i < dot.len() implies '\0' <= #[trigger] dot[i]
            <= '\u{7f}' by {
            lemma_char_code_ascii(dot[i]);
        }
    }
    let t1 = h + dot;
    let t2 = t1 + p;
    vstd::utf8::is_ascii_chars_concat(t1, h, dot);
    vstd::utf8::is_ascii_chars_concat(t2, t1, p);
    assert(spec_message(c) == t2);
}

/// Builds the signed token of the given claims.
fn build_token(c: &Claims, jwt_secret: &str) -> (r: String)
    requires
        wf_claims(c@),
    ensures
        r@ == spec_token(c@, jwt_secret.spec_bytes()),
{
    proof {
        lemma_header_json_ascii();
        lemma_claims_json_ascii(c@);
        lemma_message_ascii(c@);
    }
    let header = header_json_str();
    proof {
        lemma_ascii_str_bytes(header);
    }
    let mut msg = b64_encode(header.as_bytes());
    let payload = claims_json_string(c);
    let payload_str = payload.as_str();
    proof {
        lemma_ascii_str_bytes(payload_str);
    }
    let payload_b64 = b64_encode(payload_str.as_bytes());
    msg.append(".");
    msg.append(payload_b64.as_str());
    let msg_str = msg.as_str();
    proof {
        reveal_strlit(".");
        assert(msg_str@ =~= spec_message(c@));
        lemma_ascii_str_bytes(msg_str);
    }
    let sig = match hmac_sha512_b64(jwt_secret.as_bytes(), msg_str.as_bytes()) {
        Ok(sig) => sig,
        Err(_) => {
            proof {
                assert(false);
            }
            String::new()
        },
    };
    let mut token = msg;
    token.append(".");
    token.append(sig.as_str());
    proof {
        reveal_strlit(".");
        assert(token@ =~= spec_token(c@, jwt_secret.spec_bytes()));
    }
    token
}

/// Whether every character of `s` may appear in a subject id on the
/// token wire.
pub fn is_token_safe(s: &str) -> (b: bool)
    ensures
        b == forall|i: int| 0 <= i < s@.len() ==> is_token_safe_char(#[trigger] s@[i]),
{
    let len = s.unicode_len();
    let mut i: usize = 0;
    while i < len
        invariant
            i <= len,
            len == s@.len(),
            forall|k: int| 0 <= k < i ==> is_token_safe_char(#[trigger] s@[k]),
        decreases len - i,
    {
        let u = s.get_char(i) as u32;
        if !(32 <= u && u <= 126 && u != 34 && u != 92) {
            return false;
        }
        i = i + 1;
    }
    true
}

/// Signs session claims for `user_id` as of `now` (Unix seconds): the
/// token is issued at `now` and expires one session lifetime later.
///
/// The claims JSON carries the subject id without escaping, so the
/// signable domain is printable ASCII free of quotes and backslashes —
/// a superset of the opaque ids this system mints for its subjects
/// (twenty uppercase letters). Anything outside it is rejected with
/// `BadRequest` rather than written into the payload.
pub fn sign_at(
    user_id: &str,
    token_version: u32,
    service: Service,
    jwt_secret: &str,
    now: i64,
) -> (r: Result<String, AppError>)
    requires
        0 <= now <= i64::MAX - SESSION_TTL_SECONDS,
    ensures
        match r {
            Ok(t) => {
                &&& wf_claims(
                    ClaimsView {
                        user_id: user_id@,
                        token_version: token_version as int,
                        issuer: service,
                        exp: now + SESSION_TTL_SECONDS,
                        iat: now as int,
                    },
                )
                &&& t@ == spec_token(
                    ClaimsView {
                        user_id: user_id@,
                        token_version: token_version as int,
                        issuer: service,
                        exp: now + SESSION_TTL_SECONDS,
                        iat: now as int,
                    },
                    jwt_secret.spec_bytes(),
                )
            },
            Err(e) => {
                &&& e.kind == ErrorKind::BadRequest
                &&& !forall|i: int|
                    0 <= i < user_id@.len() ==> is_token_safe_char(#[trigger] user_id@[i])
            },
        },
{
    if !is_token_safe(user_id) {
        return Err(AppError::bad_request("subject id holds characters the token cannot carry"));
    }
    let claims = Claims {
        user_id: user_id.to_owned(),
        token_version,
        issuer: service,
        exp: now + SESSION_TTL_SECONDS,
        iat: now,
    };
    Ok(build_token(&claims, jwt_secret))
}

/// Signs session claims as of the present moment. The subject id must
/// be wire-safe, as for [`sign_at`]; the system's opaque ids always
/// are.
pub fn sign(
    user_id: &str,
    token_version: u32,
    service: Service,
    jwt_secret: &str,
) -> (r: Result<String, AppError>)
    ensures
        match r {
            Ok(t) => exists|c: ClaimsView|
                wf_claims(c) && c.user_id == user_id@ && c.token_version == token_version as int
                    && c.issuer == service && c.exp == c.iat + SESSION_TTL_SECONDS && t@
                    == #[trigger] spec_token(c, jwt_secret.spec_bytes()),
            Err(e) => e.kind == ErrorKind::BadRequest || e.kind == ErrorKind::Internal,
        },
{
    let now_ms = now_unix_millis();
    if now_ms < 0 {
        return Err(AppError::internal_server_error("clock before the epoch"));
    }
    let now = ((now_ms as u64) / 1000) as i64;
    proof {
        assert(now <= i64::MAX - SESSION_TTL_SECONDS);
    }
    match sign_at(user_id, token_version, service, jwt_secret, now) {
        Ok(t) => {
            proof {
                let c = ClaimsView {
                    user_id: user_id@,
                    token_version: token_version as int,
                    issuer: service,
                    exp: now + SESSION_TTL_SECONDS,
                    iat: now as int,
                };
                assert(t@ == spec_token(c, jwt_secret.spec_bytes()));
            }
            Ok(t)
        },
        Err(e) => Err(e),
    }
}

/// Positions of the pieces inside the claims JSON of `c`.
pub open spec fn cj_uid_end(c: ClaimsView) -> int {
    12 + c.user_id.len() as int
}

pub open spec fn cj_tv_start(c: ClaimsView) -> int {
    cj_uid_end(c) + 18
}

pub open spec fn cj_tv_end(c: ClaimsView) -> int {
    cj_tv_start(c) + spec_i64_dec(c.token_version).len() as int
}

pub open spec fn cj_exp_start(c: ClaimsView) -> int {
    cj_tv_end(c) + 28
}

pub open spec fn cj_exp_end(c: ClaimsView) -> int {
    cj_exp_start(c) + spec_i64_dec(c.exp).len() as int
}

pub open spec fn cj_iat_start(c: ClaimsView) -> int {
    cj_exp_end(c) + 7
}

pub open spec fn cj_iat_end(c: ClaimsView) -> int {
    cj_iat_start(c) + spec_i64_dec(c.iat).len() as int
}

/// Where each piece of the claims JSON of `c0` stands.
#[verifier::rlimit(100)]
proof fn lemma_claims_split(c0: ClaimsView)
    requires
        wf_claims(c0),
    ensures
        claims_json(c0).len() == cj_iat_end(c0) + 1,
        "{\"user_id\":\""@.len() == 12,
        "\",\"token_version\":"@.len() == 18,
        ",\"issuer\":\"LOCALHOST\",\"exp\":"@.len() == 28,
        ",\"iat\":"@.len() == 7,
        "}"@.len() == 1,
        claims_json(c0).subrange(0, 12) == "{\"user_id\":\""@,
        claims_json(c0).subrange(12, cj_uid_end(c0)) == c0.user_id,
        claims_json(c0).subrange(cj_uid_end(c0), cj_tv_start(c0)) == "\",\"token_version\":"@,
        claims_json(c0).subrange(cj_tv_start(c0), cj_tv_end(c0)) == spec_i64_dec(
            c0.token_version,
        ),
        claims_json(c0).subrange(cj_tv_end(c0), cj_exp_start(c0))
            == ",\"issuer\":\"LOCALHOST\",\"exp\":"@,
        claims_json(c0).subrange(cj_exp_start(c0), cj_exp_end(c0)) == spec_i64_dec(c0.exp),
        claims_json(c0).subrange(cj_exp_end(c0), cj_iat_start(c0)) == ",\"iat\":"@,
        claims_json(c0).subrange(cj_iat_start(c0), cj_iat_end(c0)) == spec_i64_dec(c0.iat),
        claims_json(c0)[cj_iat_end(c0)] == '}',
        claims_json(c0)[cj_uid_end(c0)] == '"',
{
    reveal_strlit("{\"user_id\":\"");
    reveal_strlit("\",\"token_version\":");
    reveal_strlit(",\"issuer\":\"LOCALHOST\",\"exp\":");
    reveal_strlit(",\"iat\":");
    reveal_strlit("}");
    lemma_dec_is_digits_any(c0.token_version);
    lemma_dec_is_digits_any(c0.exp);
    lemma_dec_is_digits_any(c0.iat);
    let s = claims_json(c0);
    assert(s.subrange(0, 12) =~= "{\"user_id\":\""@);
    assert(s.subrange(12, cj_uid_end(c0)) =~= c0.user_id);
    assert(s.subrange(cj_uid_end(c0), cj_tv_start(c0)) =~= "\",\"token_version\":"@);
    assert(s.subrange(cj_tv_start(c0), cj_tv_end(c0)) =~= spec_i64_dec(c0.token_version));
    assert(s.subrange(cj_tv_end(c0), cj_exp_start(c0)) =~= ",\"issuer\":\"LOCALHOST\",\"exp\":"@);
    assert(s.subrange(cj_exp_start(c0), cj_exp_end(c0)) =~= spec_i64_dec(c0.exp));
    assert(s.subrange(cj_exp_end(c0), cj_iat_start(c0)) =~= ",\"iat\":"@);
    assert(s.subrange(cj_iat_start(c0), cj_iat_end(c0)) =~= spec_i64_dec(c0.iat));
}

/// A rendering is never empty.
proof fn lemma_dec_is_digits_any(n: int)
    ensures
        spec_i64_dec(n).len() >= 1,
{
    if n >= 0 {
        lemma_dec_is_digits(n as nat);
    } else {
        lemma_dec_is_digits((-n) as nat);
    }
}

/// Whether the given literal stands at `p` in `s`.
fn expect_lit(s: &str, p: usize, lit: &str) -> (r: Option<usize>)
    requires
        p <= s@.len(),
    ensures
        match r {
            Some(p2) => p2 == p + lit@.len() && p2 <= s@.len() && s@.subrange(
                p as int,
                p2 as int,
            ) == lit@,
            None => p + lit@.len() > s@.len() || s@.subrange(p as int, p + lit@.len()) != lit@,
        },
{
    let n = lit.unicode_len();
    let sn = s.unicode_len();
    if sn - p < n {
        return None;
    }
    let sub = s.substring_char(p, p + n);
    if sub.to_owned() == lit.to_owned() {
        proof {
            assert(s@.subrange(p as int, (p + n) as int) =~= lit@);
        }
        Some(p + n)
    } else {
        proof {
            assert(sub@ == s@.subrange(p as int, p + lit@.len()));
        }
        None
    }
}

/// The first quote at or after `p`, provided everything before it is
/// wire-safe.
fn scan_to_quote(s: &str, p: usize) -> (r: Option<usize>)
    requires
        p <= s@.len(),
    ensures
        match r {
            Some(k) => p <= k < s@.len() && s@[k as int] == '"' && forall|m: int|
                p <= m < k ==> is_token_safe_char(#[trigger] s@[m]),
            None => forall|k: int|
                p <= k < s@.len() && (forall|m: int|
                    p <= m < k ==> is_token_safe_char(#[trigger] s@[m])) ==> s@[k] != '"',
        },
{
    let len = s.unicode_len();
    let mut k: usize = p;
    while k < len
        invariant
            p <= k <= len,
            len == s@.len(),
            forall|m: int| p <= m < k ==> is_token_safe_char(#[trigger] s@[m]) && s@[m] != '"',
        decreases len - k,
    {
        let c = s.get_char(k);
        let u = c as u32;
        if u == 34 {
            proof {
                vstd::utf8::char_u32_cast(c, 34);
                assert(s@[k as int] == '"');
            }
            return Some(k);
        }
        if !(32 <= u && u <= 126 && u != 92) {
            proof {
                assert(!is_token_safe_char(s@[k as int]));
                assert forall|k2: int|
                    p <= k2 < s@.len() && (forall|m: int|
                        p <= m < k2 ==> is_token_safe_char(#[trigger] s@[m])) implies s@[k2]
                    != '"' by {
                    if k2 > k {
                        assert(is_token_safe_char(s@[k as int]));
                        assert(false);
                    } else if k2 == k {
                        assert(s@[k2] as u32 != 34);
                        assert(s@[k2] != '"');
                    } else {
                        assert(s@[k2] != '"');
                    }
                }
            }
            return None;
        }
        proof {
            assert(s@[k as int] as u32 != 34);
            assert(s@[k as int] != '"');
        }
        k = k + 1;
    }
    proof {
        assert forall|k2: int|
            p <= k2 < s@.len() && (forall|m: int|
                p <= m < k2 ==> is_token_safe_char(#[trigger] s@[m])) implies s@[k2] != '"' by {
            assert(s@[k2] != '"');
        }
    }
    None
}

/// The end of the digit run starting at `p`.
fn scan_digits(s: &str, p: usize) -> (k: usize)
    requires
        p <= s@.len(),
    ensures
        p <= k <= s@.len(),
        forall|m: int| p <= m < k ==> is_digit(#[trigger] s@[m]),
        k == s@.len() || !is_digit(s@[k as int]),
{
    let len = s.unicode_len();
    let mut k: usize = p;
    while k < len
        invariant
            p <= k <= len,
            len == s@.len(),
            forall|m: int| p <= m < k ==> is_digit(#[trigger] s@[m]),
        decreases len - k,
    {
        let u = s.get_char(k) as u32;
        if !(48 <= u && u <= 57) {
            return k;
        }
        k = k + 1;
    }
    k
}

/// The scanned quote in a canonical claims JSON is the one closing the
/// subject id.
proof fn lemma_quote_position(c0: ClaimsView, k: int)
    requires
        wf_claims(c0),
        12 <= k < claims_json(c0).len(),
        claims_json(c0)[k] == '"',
        forall|m: int| 12 <= m < k ==> is_token_safe_char(#[trigger] claims_json(c0)[m]),
    ensures
        k == cj_uid_end(c0),
{
    lemma_claims_split(c0);
    let s = claims_json(c0);
    if k < cj_uid_end(c0) {
        assert(s[k] == s.subrange(12, cj_uid_end(c0))[k - 12]);
        assert(s[k] == c0.user_id[k - 12]);
        assert(is_token_safe_char(c0.user_id[k - 12]));
        assert(s[k] as u32 == 34);
        assert(false);
    } else if k > cj_uid_end(c0) {
        assert(is_token_safe_char(s[cj_uid_end(c0)]));
        assert(s[cj_uid_end(c0)] as u32 == 34);
        assert(false);
    }
}

/// A maximal digit run that starts where a rendered number stands ends
/// exactly where the number ends.
proof fn lemma_digit_run_end(s: Seq<char>, a: int, d: Seq<char>, k: int)
    requires
        0 <= a,
        a + d.len() < s.len(),
        s.subrange(a, a + d.len() as int) == d,
        crate::num::all_digits(d),
        d.len() >= 1,
        !is_digit(s[a + d.len()]),
        a <= k <= s.len(),
        forall|m: int| a <= m < k ==> is_digit(#[trigger] s[m]),
        k == s.len() || !is_digit(s[k]),
    ensures
        k == a + d.len(),
{
    if k < a + d.len() {
        assert(s[k] == s.subrange(a, a + d.len() as int)[k - a]);
        assert(is_digit(d[k - a]));
        assert(false);
    } else if k > a + d.len() {
        assert(is_digit(s[a + d.len()]));
        assert(false);
    }
}

/// Parses claims JSON. Lenient about numeric form: the caller compares
/// a re-serialization against the input where exactness matters. On the
/// exact serialized form of any well-formed claims, parsing succeeds
/// and returns those claims.
#[verifier::rlimit(100)]
#[verifier::spinoff_prover]
pub fn parse_claims(s: &str) -> (r: Option<Claims>)
    ensures
        r matches Some(c) ==> wf_claims(c@),
        forall|c0: ClaimsView|
            wf_claims(c0) && s@ == claims_json(c0) ==> r is Some,
        r matches Some(c) ==> forall|c0: ClaimsView|
            wf_claims(c0) && s@ == claims_json(c0) ==> c@ == c0,
{
    let slen = s.unicode_len();
    proof {
        reveal_strlit("{\"user_id\":\"");
        reveal_strlit("\",\"token_version\":");
        reveal_strlit(",\"issuer\":\"LOCALHOST\",\"exp\":");
        reveal_strlit(",\"iat\":");
        reveal_strlit("}");
    }
    let p1 = match expect_lit(s, 0, "{\"user_id\":\"") {
        Option::Some(p) => p,
        Option::None => {
            proof {
                assert forall|c0: ClaimsView|
                    wf_claims(c0) && s@ == claims_json(c0) implies false by {
                    lemma_claims_split(c0);
                }
            }
            return None;
        },
    };
    let quote = match scan_to_quote(s, p1) {
        Option::Some(k) => k,
        Option::None => {
            proof {
                assert forall|c0: ClaimsView|
                    wf_claims(c0) && s@ == claims_json(c0) implies false by {
                    lemma_claims_split(c0);
                    let k0 = cj_uid_end(c0);
                    assert(s@[k0] == '"');
                    assert forall|m: int| 12 <= m < k0 implies is_token_safe_char(
                        #[trigger] s@[m],
                    ) by {
                        assert(s@[m] == s@.subrange(12, k0)[m - 12]);
                        assert(s@[m] == c0.user_id[m - 12]);
                    }
                    assert(s@[k0] != '"');
                }
            }
            return None;
        },
    };
    let user_id = s.substring_char(p1, quote).to_owned();
    let p2 = match expect_lit(s, quote, "\",\"token_version\":") {
        Option::Some(p) => p,
        Option::None => {
            proof {
                assert forall|c0: ClaimsView|
                    wf_claims(c0) && s@ == claims_json(c0) implies false by {
                    lemma_claims_split(c0);
                    assert forall|m: int| 12 <= m < quote implies is_token_safe_char(
                        #[trigger] s@[m],
                    ) by {}
                    lemma_quote_position(c0, quote as int);
                    assert(s@.subrange(quote as int, quote + 18) == "\",\"token_version\":"@);
                }
            }
            return None;
        },
    };
    let tv_end = scan_digits(s, p2);
    let tvs = s.substring_char(p2, tv_end);
    let tv = match parse_dec_i64(tvs) {
        Option::Some(v) => v,
        Option::None => {
            proof {
                assert forall|c0: ClaimsView|
                    wf_claims(c0) && s@ == claims_json(c0) implies false by {
                    lemma_claims_split(c0);
                    assert forall|m: int| 12 <= m < quote implies is_token_safe_char(
                        #[trigger] s@[m],
                    ) by {}
                    lemma_quote_position(c0, quote as int);
                    crate::num::lemma_dec_is_digits(c0.token_version as nat);
                    assert(!is_digit(s@[cj_tv_end(c0)]));
                    lemma_digit_run_end(
                        s@,
                        p2 as int,
                        spec_i64_dec(c0.token_version),
                        tv_end as int,
                    );
                    lemma_parse_of_dec(c0.token_version);
                    assert(tvs@ == spec_i64_dec(c0.token_version));
                }
            }
            return None;
        },
    };
    if !(0 <= tv && tv <= 4294967295) {
        proof {
            assert forall|c0: ClaimsView|
                wf_claims(c0) && s@ == claims_json(c0) implies false by {
                lemma_claims_split(c0);
                assert forall|m: int| 12 <= m < quote implies is_token_safe_char(
                    #[trigger] s@[m],
                ) by {}
                lemma_quote_position(c0, quote as int);
                crate::num::lemma_dec_is_digits(c0.token_version as nat);
                assert(!is_digit(s@[cj_tv_end(c0)]));
                lemma_digit_run_end(
                    s@,
                    p2 as int,
                    spec_i64_dec(c0.token_version),
                    tv_end as int,
                );
                lemma_parse_of_dec(c0.token_version);
                assert(tvs@ == spec_i64_dec(c0.token_version));
            }
        }
        return None;
    }
    let p3 = match expect_lit(s, tv_end, ",\"issuer\":\"LOCALHOST\",\"exp\":") {
        Option::Some(p) => p,
        Option::None => {
            proof {
                assert forall|c0: ClaimsView|
                    wf_claims(c0) && s@ == claims_json(c0) implies false by {
                    lemma_claims_split(c0);
                    assert forall|m: int| 12 <= m < quote implies is_token_safe_char(
                        #[trigger] s@[m],
                    ) by {}
                    lemma_quote_position(c0, quote as int);
                    crate::num::lemma_dec_is_digits(c0.token_version as nat);
                    assert(!is_digit(s@[cj_tv_end(c0)]));
                    lemma_digit_run_end(
                        s@,
                        p2 as int,
                        spec_i64_dec(c0.token_version),
                        tv_end as int,
                    );
                }
            }
            return None;
        },
    };
    let (exp_start, exp_dstart) = if p3 < slen && s.get_char(p3) == '-' {
        (p3, p3 + 1)
    } else {
        (p3, p3)
    };
    let exp_dend = scan_digits(s, if exp_dstart <= slen { exp_dstart } else { slen });
    let exp = if exp_dstart <= slen && exp_dend > exp_dstart {
        match parse_dec_i64(s.substring_char(exp_start, exp_dend)) {
            Option::Some(v) => v,
            Option::None => {
                proof {
                    assert forall|c0: ClaimsView|
                        wf_claims(c0) && s@ == claims_json(c0) implies false by {
                        lemma_parse_prefix(c0, quote as int, tv_end as int);
                    lemma_claims_split(c0);
                        lemma_exp_run(c0, exp_dstart as int, exp_dend as int);
                        lemma_parse_of_dec(c0.exp);
                        assert(s@.subrange(exp_start as int, exp_dend as int) == spec_i64_dec(
                            c0.exp,
                        ));
                    }
                }
                return None;
            },
        }
    } else {
        proof {
            assert forall|c0: ClaimsView|
                wf_claims(c0) && s@ == claims_json(c0) implies false by {
                lemma_parse_prefix(c0, quote as int, tv_end as int);
                    lemma_claims_split(c0);
                lemma_exp_run(c0, exp_dstart as int, exp_dend as int);
            }
        }
        return None;
    };
    let p4 = match expect_lit(s, exp_dend, ",\"iat\":") {
        Option::Some(p) => p,
        Option::None => {
            proof {
                assert forall|c0: ClaimsView|
                    wf_claims(c0) && s@ == claims_json(c0) implies false by {
                    lemma_parse_prefix(c0, quote as int, tv_end as int);
                    lemma_claims_split(c0);
                    lemma_exp_run(c0, exp_dstart as int, exp_dend as int);
                }
            }
            return None;
        },
    };
    let (iat_start, iat_dstart) = if p4 < slen && s.get_char(p4) == '-' {
        (p4, p4 + 1)
    } else {
        (p4, p4)
    };
    let iat_dend = scan_digits(s, if iat_dstart <= slen { iat_dstart } else { slen });
    let iat = if iat_dstart <= slen && iat_dend > iat_dstart {
        match parse_dec_i64(s.substring_char(iat_start, iat_dend)) {
            Option::Some(v) => v,
            Option::None => {
                proof {
                    assert forall|c0: ClaimsView|
                        wf_claims(c0) && s@ == claims_json(c0) implies false by {
                        lemma_parse_prefix(c0, quote as int, tv_end as int);
                    lemma_claims_split(c0);
                        lemma_exp_run(c0, exp_dstart as int, exp_dend as int);
                        lemma_iat_run(c0, iat_dstart as int, iat_dend as int);
                        lemma_parse_of_dec(c0.iat);
                        assert(s@.subrange(iat_start as int, iat_dend as int) == spec_i64_dec(
                            c0.iat,
                        ));
                    }
                }
                return None;
            },
        }
    } else {
        proof {
            assert forall|c0: ClaimsView|
                wf_claims(c0) && s@ == claims_json(c0) implies false by {
                lemma_parse_prefix(c0, quote as int, tv_end as int);
                    lemma_claims_split(c0);
                lemma_exp_run(c0, exp_dstart as int, exp_dend as int);
                lemma_iat_run(c0, iat_dstart as int, iat_dend as int);
            }
        }
        return None;
    };
    let p5 = match expect_lit(s, iat_dend, "}") {
        Option::Some(p) => p,
        Option::None => {
            proof {
                assert forall|c0: ClaimsView|
                    wf_claims(c0) && s@ == claims_json(c0) implies false by {
                    lemma_parse_prefix(c0, quote as int, tv_end as int);
                    lemma_claims_split(c0);
                    lemma_exp_run(c0, exp_dstart as int, exp_dend as int);
                    lemma_iat_run(c0, iat_dstart as int, iat_dend as int);
                    assert(s@.subrange(iat_dend as int, iat_dend as int + 1) =~= seq![
                        s@[cj_iat_end(c0)],
                    ]);
                    assert(s@.subrange(iat_dend as int, iat_dend as int + 1) =~= "}"@);
                }
            }
            return None;
        },
    };
    if p5 != slen {
        proof {
            assert forall|c0: ClaimsView|
                wf_claims(c0) && s@ == claims_json(c0) implies false by {
                lemma_parse_prefix(c0, quote as int, tv_end as int);
                    lemma_claims_split(c0);
                lemma_exp_run(c0, exp_dstart as int, exp_dend as int);
                lemma_iat_run(c0, iat_dstart as int, iat_dend as int);
            }
        }
        return None;
    }
    let c = Claims { user_id, token_version: tv as u32, issuer: Service::LOCALHOST, exp, iat };
    proof {
        assert(wf_claims(c@)) by {
            assert forall|i: int| 0 <= i < c@.user_id.len() implies is_token_safe_char(
                #[trigger] c@.user_id[i],
            ) by {
                assert(c@.user_id[i] == s@[p1 + i]);
            }
        }
        assert forall|c0: ClaimsView| wf_claims(c0) && s@ == claims_json(c0) implies c@
            == c0 by {
            lemma_parse_prefix(c0, quote as int, tv_end as int);
                    lemma_claims_split(c0);
            lemma_exp_run(c0, exp_dstart as int, exp_dend as int);
            lemma_iat_run(c0, iat_dstart as int, iat_dend as int);
            lemma_claims_split(c0);
            assert(c@.user_id =~= c0.user_id);
            lemma_parse_of_dec(c0.token_version);
            assert(s@.subrange(p2 as int, tv_end as int) == spec_i64_dec(c0.token_version));
            lemma_parse_of_dec(c0.exp);
            assert(s@.subrange(exp_start as int, exp_dend as int) == spec_i64_dec(c0.exp));
            lemma_parse_of_dec(c0.iat);
            assert(s@.subrange(iat_start as int, iat_dend as int) == spec_i64_dec(c0.iat));
        }
    }
    Some(c)
}

/// On the canonical form, the scanned quote and the token-version run
/// land exactly on the serialized boundaries.
proof fn lemma_parse_prefix(c0: ClaimsView, quote: int, tv_end: int)
    requires
        wf_claims(c0),
        12 <= quote < claims_json(c0).len(),
        claims_json(c0)[quote] == '"',
        forall|m: int| 12 <= m < quote ==> is_token_safe_char(#[trigger] claims_json(c0)[m]),
        quote + 18 <= tv_end <= claims_json(c0).len(),
        forall|m: int| quote + 18 <= m < tv_end ==> is_digit(#[trigger] claims_json(c0)[m]),
        tv_end == claims_json(c0).len() || !is_digit(claims_json(c0)[tv_end]),
    ensures
        quote == cj_uid_end(c0),
        tv_end == cj_tv_end(c0),
        claims_json(c0).subrange(12, quote) == c0.user_id,
        ",\"issuer\":\"LOCALHOST\",\"exp\":"@.len() == 28,
        ",\"iat\":"@.len() == 7,
        "}"@.len() == 1,
        claims_json(c0).len() == cj_iat_end(c0) + 1,
        claims_json(c0).subrange(cj_tv_start(c0), cj_tv_end(c0)) == spec_i64_dec(
            c0.token_version,
        ),
{
    lemma_claims_split(c0);
    reveal_strlit(",\"iat\":");
    reveal_strlit("}");
    lemma_quote_position(c0, quote);
    crate::num::lemma_dec_is_digits(c0.token_version as nat);
    reveal_strlit(",\"issuer\":\"LOCALHOST\",\"exp\":");
    let s = claims_json(c0);
    assert(s[cj_tv_end(c0)] == s.subrange(cj_tv_end(c0), cj_exp_start(c0))[0]);
    assert(!is_digit(s[cj_tv_end(c0)]));
    assert(s.subrange(cj_tv_start(c0), cj_tv_end(c0)) == spec_i64_dec(c0.token_version));
    lemma_digit_run_end(s, cj_tv_start(c0), spec_i64_dec(c0.token_version), tv_end);
}

/// On the canonical form, a signed-number run lands exactly on the
/// serialized boundary of the number standing at `a`.
proof fn lemma_signed_run_end(s: Seq<char>, a: int, n: int, dstart: int, dend: int)
    requires
        0 <= a,
        a + spec_i64_dec(n).len() < s.len(),
        s.subrange(a, a + spec_i64_dec(n).len() as int) == spec_i64_dec(n),
        !is_digit(s[a + spec_i64_dec(n).len()]),
        dstart == if a < s.len() && s[a] == '-' {
            a + 1
        } else {
            a
        },
        dstart <= dend <= s.len() || dend == dstart,
        dstart <= s.len() ==> dstart <= dend <= s.len() && (forall|m: int|
            dstart <= m < dend ==> is_digit(#[trigger] s[m])) && (dend == s.len() || !is_digit(
            s[dend],
        )),
    ensures
        dend == a + spec_i64_dec(n).len(),
        dend > dstart,
        s.subrange(a, dend) == spec_i64_dec(n),
{
    if n >= 0 {
        crate::num::lemma_dec_is_digits(n as nat);
        assert(s[a] == s.subrange(a, a + spec_i64_dec(n).len() as int)[0]);
        assert(is_digit(s[a]));
        assert(s[a] as u32 != 45);
        assert(s[a] != '-');
        assert(dstart == a);
        lemma_digit_run_end(s, a, spec_i64_dec(n), dend);
    } else {
        crate::num::lemma_dec_is_digits((-n) as nat);
        let mag = crate::num::spec_u64_dec((-n) as nat);
        assert(s[a] == s.subrange(a, a + spec_i64_dec(n).len() as int)[0]);
        assert(s[a] == '-');
        assert(dstart == a + 1);
        assert(s.subrange(a + 1, a + 1 + mag.len() as int) =~= mag) by {
            assert forall|j: int| 0 <= j < mag.len() implies s.subrange(
                a + 1,
                a + 1 + mag.len() as int,
            )[j] == mag[j] by {
                assert(s[a + 1 + j] == s.subrange(a, a + spec_i64_dec(n).len() as int)[1 + j]);
                assert(spec_i64_dec(n)[1 + j] == mag[j]);
            }
        }
        assert(a + 1 + mag.len() == a + spec_i64_dec(n).len());
        lemma_digit_run_end(s, a + 1, mag, dend);
    }
}

/// On the canonical form, the exp run lands on the serialized boundary.
proof fn lemma_exp_run(c0: ClaimsView, dstart: int, dend: int)
    requires
        wf_claims(c0),
        dstart == (if claims_json(c0)[cj_exp_start(c0)] == '-' {
            cj_exp_start(c0) + 1
        } else {
            cj_exp_start(c0)
        }),
        dstart <= dend <= claims_json(c0).len(),
        forall|m: int| dstart <= m < dend ==> is_digit(#[trigger] claims_json(c0)[m]),
        dend == claims_json(c0).len() || !is_digit(claims_json(c0)[dend]),
    ensures
        dend == cj_exp_end(c0),
        dend > dstart,
        claims_json(c0).subrange(cj_exp_start(c0), dend) == spec_i64_dec(c0.exp),
{
    lemma_claims_split(c0);
    reveal_strlit(",\"iat\":");
    let s = claims_json(c0);
    assert(s[cj_exp_end(c0)] == s.subrange(cj_exp_end(c0), cj_iat_start(c0))[0]);
    assert(!is_digit(s[cj_exp_end(c0)]));
    lemma_signed_run_end(s, cj_exp_start(c0), c0.exp, dstart, dend);
}

/// On the canonical form, the iat run lands on the serialized boundary.
proof fn lemma_iat_run(c0: ClaimsView, dstart: int, dend: int)
    requires
        wf_claims(c0),
        dstart == (if claims_json(c0)[cj_iat_start(c0)] == '-' {
            cj_iat_start(c0) + 1
        } else {
            cj_iat_start(c0)
        }),
        dstart <= dend <= claims_json(c0).len(),
        forall|m: int| dstart <= m < dend ==> is_digit(#[trigger] claims_json(c0)[m]),
        dend == claims_json(c0).len() || !is_digit(claims_json(c0)[dend]),
    ensures
        dend == cj_iat_end(c0),
        dend > dstart,
        claims_json(c0).subrange(cj_iat_start(c0), dend) == spec_i64_dec(c0.iat),
{
    lemma_claims_split(c0);
    let s = claims_json(c0);
    assert(s[cj_iat_end(c0)] == '}');
    assert(!is_digit(s[cj_iat_end(c0)]));
    lemma_signed_run_end(s, cj_iat_start(c0), c0.iat, dstart, dend);
}

/// The first dot at or after `from`.
fn find_dot(s: &str, from: usize) -> (r: Option<usize>)
    requires
        from <= s@.len(),
    ensures
        match r {
            Some(k) => from <= k < s@.len() && s@[k as int] == '.' && forall|m: int|
                from <= m < k ==> s@[m] != '.',
            None => forall|m: int| from <= m < s@.len() ==> s@[m] != '.',
        },
{
    let len = s.unicode_len();
    let mut k: usize = from;
    while k < len
        invariant
            from <= k <= len,
            len == s@.len(),
            forall|m: int| from <= m < k ==> s@[m] != '.',
        decreases len - k,
    {
        let c = s.get_char(k);
        if c as u32 == 46 {
            proof {
                vstd::utf8::char_u32_cast(c, 46);
            }
            return Some(k);
        }
        proof {
            assert(s@[k as int] as u32 != 46);
        }
        k = k + 1;
    }
    None
}

/// Character strings with equal ASCII codes are equal.
proof fn lemma_codes_equal_chars(a: Seq<char>, b: Seq<char>)
    requires
        a.len() == b.len(),
        forall|i: int| 0 <= i < a.len() ==> (#[trigger] a[i]) as u32 == (#[trigger] b[i]) as u32,
    ensures
        a == b,
{
    assert forall|i: int| 0 <= i < a.len() implies a[i] == b[i] by {
        vstd::utf8::char_u32_cast(a[i], a[i] as u32);
        vstd::utf8::char_u32_cast(b[i], b[i] as u32);
    }
    assert(a =~= b);
}

/// The shape of a well-formed token: where its dots stand, what its
/// parts are, and that its payload decodes to the claims JSON.
proof fn lemma_token_shape(c0: ClaimsView, secret: Seq<u8>)
    requires
        wf_claims(c0),
    ensures
        ({
            let t = spec_token(c0, secret);
            let h = spec_b64_encode(chars_to_bytes(header_json()));
            let p = spec_b64_encode(chars_to_bytes(claims_json(c0)));
            &&& t.len() >= h.len() + 1 + p.len() + 1
            &&& (forall|m: int| 0 <= m < h.len() ==> #[trigger] t[m] != '.')
            &&& t[h.len() as int] == '.'
            &&& (forall|m: int|
                h.len() + 1 <= m < h.len() + 1 + p.len() ==> #[trigger] t[m] != '.')
            &&& t[h.len() + 1 + p.len() as int] == '.'
            &&& t.subrange(h.len() as int + 1, h.len() + 1 + p.len() as int) == p
            &&& spec_b64_decode(p) == Some(chars_to_bytes(claims_json(c0)))
            &&& (forall|i: int|
                0 <= i < chars_to_bytes(claims_json(c0)).len() ==> #[trigger] chars_to_bytes(
                    claims_json(c0),
                )[i] < 128)
            &&& chars_to_bytes(claims_json(c0)).len() == claims_json(c0).len()
            &&& (forall|i: int|
                0 <= i < claims_json(c0).len()
                    ==> (#[trigger] chars_to_bytes(claims_json(c0))[i]) as u32 == claims_json(
                    c0,
                )[i] as u32)
        }),
{
    let t = spec_token(c0, secret);
    let h = spec_b64_encode(chars_to_bytes(header_json()));
    let p = spec_b64_encode(chars_to_bytes(claims_json(c0)));
    lemma_b64_encode_chars(chars_to_bytes(header_json()));
    lemma_b64_encode_chars(chars_to_bytes(claims_json(c0)));
    lemma_b64_decode_of_encode(chars_to_bytes(claims_json(c0)));
    lemma_claims_json_ascii(c0);
    assert(t.subrange(h.len() as int + 1, h.len() + 1 + p.len() as int) =~= p);
    assert forall|m: int| 0 <= m < h.len() implies #[trigger] t[m] != '.' by {
        assert(t[m] == h[m]);
    }
    assert forall|m: int| h.len() + 1 <= m < h.len() + 1 + p.len() implies #[trigger] t[m]
        != '.' by {
        assert(t[m] == p[m - h.len() - 1]);
    }
    assert forall|i: int| 0 <= i < chars_to_bytes(claims_json(c0)).len() implies
        #[trigger] chars_to_bytes(claims_json(c0))[i] < 128 by {
        assert('\0' <= claims_json(c0)[i] <= '\u{7f}');
        vstd::utf8::char_u32_cast(claims_json(c0)[i], claims_json(c0)[i] as u32);
        assert(claims_json(c0)[i] as u32 <= 127);
    }
    assert forall|i: int| 0 <= i < claims_json(c0).len() implies (#[trigger] chars_to_bytes(
        claims_json(c0),
    )[i]) as u32 == claims_json(c0)[i] as u32 by {
        assert(claims_json(c0)[i] as u32 <= 127);
    }
}

/// Verifies a session token against the secret as of `now` (Unix
/// seconds). Returns the claims exactly when the token is one this
/// module would sign, under this secret, with an expiry not yet
/// passed — and then the claims it returns are the signed ones.
#[verifier::rlimit(100)]
#[verifier::spinoff_prover]
pub fn verify_at(token: &str, jwt_secret: &str, now: i64) -> (r: Result<Claims, AppError>)
    ensures
        match r {
            Ok(c) => {
                &&& wf_claims(c@)
                &&& now as int <= c@.exp
                &&& token@ == spec_token(c@, jwt_secret.spec_bytes())
                &&& forall|c0: ClaimsView|
                    wf_claims(c0) && token@ == spec_token(c0, jwt_secret.spec_bytes()) ==> c@
                        == c0
            },
            Err(e) => {
                &&& e.kind == ErrorKind::Unauthorized
                &&& forall|c0: ClaimsView|
                    wf_claims(c0) && now as int <= c0.exp ==> token@ != spec_token(
                        c0,
                        jwt_secret.spec_bytes(),
                    )
            },
        },
{
    let ghost secret = jwt_secret.spec_bytes();
    let tlen = token.unicode_len();
    let d1 = match find_dot(token, 0) {
        Option::Some(k) => k,
        Option::None => {
            proof {
                assert forall|c0: ClaimsView|
                    wf_claims(c0) && now as int <= c0.exp implies token@ != spec_token(
                    c0,
                    secret,
                ) by {
                    if token@ == spec_token(c0, secret) {
                        lemma_token_shape(c0, secret);
                    }
                }
            }
            return Err(AppError::unauthorized("malformed token"));
        },
    };
    let d2 = match find_dot(token, d1 + 1) {
        Option::Some(k) => k,
        Option::None => {
            proof {
                assert forall|c0: ClaimsView|
                    wf_claims(c0) && now as int <= c0.exp implies token@ != spec_token(
                    c0,
                    secret,
                ) by {
                    if token@ == spec_token(c0, secret) {
                        lemma_token_shape(c0, secret);
                        let h = spec_b64_encode(chars_to_bytes(header_json()));
                        let p = spec_b64_encode(chars_to_bytes(claims_json(c0)));
                        assert(d1 == h.len());
                        assert(token@[h.len() + 1 + p.len() as int] == '.');
                    }
                }
            }
            return Err(AppError::unauthorized("malformed token"));
        },
    };
    let part1 = token.substring_char(d1 + 1, d2);
    let bytes = match b64_decode(part1) {
        Option::Some(b) => b,
        Option::None => {
            proof {
                assert forall|c0: ClaimsView|
                    wf_claims(c0) && now as int <= c0.exp implies token@ != spec_token(
                    c0,
                    secret,
                ) by {
                    if token@ == spec_token(c0, secret) {
                        lemma_token_shape(c0, secret);
                        let h = spec_b64_encode(chars_to_bytes(header_json()));
                        let p = spec_b64_encode(chars_to_bytes(claims_json(c0)));
                        assert(d1 == h.len());
                        assert(d2 == h.len() + 1 + p.len());
                        assert(part1@ == p);
                    }
                }
            }
            return Err(AppError::unauthorized("malformed token"));
        },
    };
    let mut all_ascii = true;
    let mut i: usize = 0;
    while i < bytes.len()
        invariant
            i <= bytes@.len(),
            all_ascii == forall|k: int| 0 <= k < i ==> #[trigger] bytes@[k] < 128,
        decreases bytes@.len() - i,
    {
        if bytes[i] >= 128 {
            all_ascii = false;
        }
        i = i + 1;
    }
    if !all_ascii {
        proof {
            assert forall|c0: ClaimsView|
                wf_claims(c0) && now as int <= c0.exp implies token@ != spec_token(
                c0,
                secret,
            ) by {
                if token@ == spec_token(c0, secret) {
                    lemma_token_shape(c0, secret);
                    let h = spec_b64_encode(chars_to_bytes(header_json()));
                    let p = spec_b64_encode(chars_to_bytes(claims_json(c0)));
                    assert(d1 == h.len());
                    assert(d2 == h.len() + 1 + p.len());
                    assert(part1@ == p);
                    assert(bytes@ == chars_to_bytes(claims_json(c0)));
                }
            }
        }
        return Err(AppError::unauthorized("malformed token"));
    }
    let ghost bytes_view = bytes@;
    let s1 = crate::record::ascii_bytes_to_string(bytes);
    let c = match parse_claims(s1.as_str()) {
        Option::Some(c) => c,
        Option::None => {
            proof {
                assert forall|c0: ClaimsView|
                    wf_claims(c0) && now as int <= c0.exp implies token@ != spec_token(
                    c0,
                    secret,
                ) by {
                    if token@ == spec_token(c0, secret) {
                        lemma_token_shape(c0, secret);
                        let h = spec_b64_encode(chars_to_bytes(header_json()));
                        let p = spec_b64_encode(chars_to_bytes(claims_json(c0)));
                        assert(d1 == h.len());
                        assert(d2 == h.len() + 1 + p.len());
                        assert(part1@ == p);
                        assert(bytes_view == chars_to_bytes(claims_json(c0)));
                        lemma_codes_equal_chars(s1@, claims_json(c0));
                    }
                }
            }
            return Err(AppError::unauthorized("malformed token"));
        },
    };
    let expected = build_token(&c, jwt_secret);
    if !(token.to_owned() == expected) {
        proof {
            assert forall|c0: ClaimsView|
                wf_claims(c0) && now as int <= c0.exp implies token@ != spec_token(
                c0,
                secret,
            ) by {
                if token@ == spec_token(c0, secret) {
                    lemma_token_shape(c0, secret);
                    let h = spec_b64_encode(chars_to_bytes(header_json()));
                    let p = spec_b64_encode(chars_to_bytes(claims_json(c0)));
                    assert(d1 == h.len());
                    assert(d2 == h.len() + 1 + p.len());
                    assert(part1@ == p);
                    assert(bytes_view == chars_to_bytes(claims_json(c0)));
                    lemma_codes_equal_chars(s1@, claims_json(c0));
                    assert(c@ == c0);
                }
            }
        }
        return Err(AppError::unauthorized("signature mismatch"));
    }
    if c.exp < now {
        proof {
            assert forall|c0: ClaimsView|
                wf_claims(c0) && now as int <= c0.exp implies token@ != spec_token(
                c0,
                secret,
            ) by {
                if token@ == spec_token(c0, secret) {
                    lemma_token_shape(c0, secret);
                    let h = spec_b64_encode(chars_to_bytes(header_json()));
                    let p = spec_b64_encode(chars_to_bytes(claims_json(c0)));
                    assert(d1 == h.len());
                    assert(d2 == h.len() + 1 + p.len());
                    assert(part1@ == p);
                    assert(bytes_view == chars_to_bytes(claims_json(c0)));
                    lemma_codes_equal_chars(s1@, claims_json(c0));
                    assert(c@ == c0);
                }
            }
        }
        return Err(AppError::unauthorized("token expired"));
    }
    proof {
        assert forall|c0: ClaimsView|
            wf_claims(c0) && token@ == spec_token(c0, secret) implies c@ == c0 by {
            lemma_token_shape(c0, secret);
            let h = spec_b64_encode(chars_to_bytes(header_json()));
            let p = spec_b64_encode(chars_to_bytes(claims_json(c0)));
            assert(d1 == h.len());
            assert(d2 == h.len() + 1 + p.len());
            assert(part1@ == p);
            assert(bytes_view == chars_to_bytes(claims_json(c0)));
            lemma_codes_equal_chars(s1@, claims_json(c0));
        }
    }
    Ok(c)
}

/// Verifies a session token as of the present moment.
pub fn verify(token: &str, jwt_secret: &str) -> (r: Result<Claims, AppError>)
    ensures
        match r {
            Ok(c) => wf_claims(c@) && token@ == spec_token(c@, jwt_secret.spec_bytes()),
            Err(e) => e.kind == ErrorKind::Unauthorized,
        },
{
    let now_ms = now_unix_millis();
    if now_ms < 0 {
        return Err(AppError::unauthorized("clock before the epoch"));
    }
    let now = ((now_ms as u64) / 1000) as i64;
    verify_at(token, jwt_secret, now)
}

} // verus!
