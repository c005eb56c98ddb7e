//! The OAuth authorization-code flow.
//!
//! Builds the provider authorization URL bound to a single-use link
//! state, prepares the form bodies of the token-exchange and refresh
//! calls, and resolves the local identity once the provider has
//! answered. The network transport — the redirect, the token POST and
//! the userinfo GET — is a collaborator outside this library: callers
//! perform those calls and hand the decoded results back.
//!
//! Ordering is enforced by data flow: the token exchange form for a
//! callback can only be built from the link state that `begin_callback`
//! returned, and `begin_callback` consumes the state first — the CSRF
//! check gates everything after it.

use vstd::prelude::*;
use vstd::string::StringSliceAdditionalSpecFns;

use crate::errors::{AppError, ErrorKind};
use crate::jwt::{spec_token, ClaimsView, Service, SESSION_TTL_SECONDS};
use crate::oauth_link_state::{spec_is_live, state_find, states_without, LinkState, LinkStateStore};
use crate::user::{user_find_by_google_id, GoogleAccessToken, GoogleUserInfo, User, UserStore};

verus! {

/// The login links handed to a client.
pub struct Links {
    pub google: String,
}

/// The query parameters of the provider's redirect back to us.
pub struct GoogleOauthCallback {
    pub code: String,
    pub state: String,
}

/// Whether a byte may ride in a URL query unencoded.
pub open spec fn is_unreserved(b: u8) -> bool {
    (48 <= b <= 57) || (65 <= b <= 90) || (97 <= b <= 122) || b == 45 || b == 46 || b == 95
        || b == 126
}

/// The uppercase hex digit of a value below sixteen, as a byte.
pub open spec fn hex_byte(d: int) -> u8 {
    if d < 10 {
        (48 + d) as u8
    } else {
        (55 + d) as u8
    }
}

/// The percent-encoding of a byte string, byte for byte: unreserved
/// bytes stay, every other byte becomes a percent escape.
pub open spec fn spec_pct_encode(b: Seq<u8>) -> Seq<u8>
    decreases b.len(),
{
    if b.len() == 0 {
        Seq::empty()
    } else {
        (if is_unreserved(b[0]) {
            seq![b[0]]
        } else {
            seq![37u8, hex_byte(b[0] as int / 16), hex_byte(b[0] as int % 16)]
        }) + spec_pct_encode(b.drop_first())
    }
}

/// Percent-encoding leaves a string of unreserved bytes alone.
pub proof fn lemma_pct_encode_unreserved(b: Seq<u8>)
    requires
        forall|i: int| 0 <= i < b.len() ==> is_unreserved(#[trigger] b[i]),
    ensures
        spec_pct_encode(b) == b,
    decreases b.len(),
{
    if b.len() > 0 {
        lemma_pct_encode_unreserved(b.drop_first());
        assert(spec_pct_encode(b) =~= b);
    }
}

/// Encodes a byte string for a URL query.
fn pct_encode(b: &[u8]) -> (r: Vec<u8>)
    ensures
        r@ == spec_pct_encode(b@),
{
    let mut out: Vec<u8> = Vec::new();
    let mut i: usize = 0;
    proof {
        assert(b@.skip(0) =~= b@);
        assert(out@ =~= Seq::<u8>::empty());
    }
    while i < b.len()
        invariant
            i <= b@.len(),
            spec_pct_encode(b@) =~= out@ + spec_pct_encode(b@.skip(i as int)),
        decreases b@.len() - i,
    {
        let ghost pre = out@;
        let x = b[i];
        if (48 <= x && x <= 57) || (65 <= x && x <= 90) || (97 <= x && x <= 122) || x == 45 || x
            == 46 || x == 95 || x == 126 {
            out.push(x);
            proof {
                assert(out@ =~= pre + seq![b@[i as int]]);
            }
        } else {
            out.push(37);
            out.push(if x / 16 < 10 {
                48 + x / 16
            } else {
                55 + x / 16
            });
            out.push(if x % 16 < 10 {
                48 + x % 16
            } else {
                55 + x % 16
            });
            proof {
                assert(out@ =~= pre + seq![
                    37u8,
                    hex_byte(b@[i as int] as int / 16),
                    hex_byte(b@[i as int] as int % 16),
                ]);
            }
        }
        proof {
            let rest = b@.skip(i as int);
            assert(rest[0] == b@[i as int]);
            assert(rest.drop_first() =~= b@.skip(i as int + 1));
        }
        i = i + 1;
    }
    proof {
        assert(b@.skip(i as int) =~= Seq::<u8>::empty());
        assert(out@ + Seq::<u8>::empty() =~= out@);
    }
    out
}

/// The byte codes of an ASCII literal.
pub open spec fn lit_bytes(s: Seq<char>) -> Seq<u8> {
    crate::jwt::chars_to_bytes(s)
}

/// The space-separated scopes requested from the provider.
pub open spec fn spec_scopes() -> Seq<char> {
    "openid https://www.googleapis.com/auth/userinfo.email https://www.googleapis.com/auth/userinfo.profile"@
}

/// The provider authorization URL, as bytes: every query value
/// percent-encoded, parameters in a fixed order, the `state` parameter
/// carrying the link-state id.
pub open spec fn spec_oauth_link(cid: Seq<u8>, redirect: Seq<u8>, state: Seq<u8>) -> Seq<u8> {
    lit_bytes("https://accounts.google.com/o/oauth2/v2/auth?client_id="@) + spec_pct_encode(cid)
        + lit_bytes("&access_type=offline&redirect_uri="@) + spec_pct_encode(redirect)
        + lit_bytes("&response_type=code&prompt=consent&state="@) + spec_pct_encode(state)
        + lit_bytes("&scope="@) + spec_pct_encode(lit_bytes(spec_scopes()))
        + lit_bytes("&include_granted_scopes=true"@)
}

/// Percent-encoded bytes are ASCII.
proof fn lemma_pct_encode_ascii(b: Seq<u8>)
    ensures
        forall|i: int| 0 <= i < spec_pct_encode(b).len() ==> #[trigger] spec_pct_encode(b)[i]
            < 128,
    decreases b.len(),
{
    if b.len() > 0 {
        lemma_pct_encode_ascii(b.drop_first());
        assert forall|i: int| 0 <= i < spec_pct_encode(b).len() implies #[trigger] spec_pct_encode(
            b,
        )[i] < 128 by {
            let head: Seq<u8> = if is_unreserved(b[0]) {
                seq![b[0]]
            } else {
                seq![37u8, hex_byte(b[0] as int / 16), hex_byte(b[0] as int % 16)]
            };
            if i >= head.len() {
                assert(spec_pct_encode(b)[i] == spec_pct_encode(b.drop_first())[i - head.len()]);
            }
        }
    }
}

/// Every byte of an authorization URL is ASCII.
proof fn lemma_oauth_link_ascii(cid: Seq<u8>, redirect: Seq<u8>, state: Seq<u8>)
    ensures
        forall|i: int|
            0 <= i < spec_oauth_link(cid, redirect, state).len() ==> #[trigger] spec_oauth_link(
                cid,
                redirect,
                state,
            )[i] < 128,
{
    reveal_strlit("https://accounts.google.com/o/oauth2/v2/auth?client_id=");
    reveal_strlit("&access_type=offline&redirect_uri=");
    reveal_strlit("&response_type=code&prompt=consent&state=");
    reveal_strlit("&scope=");
    reveal_strlit("&include_granted_scopes=true");
    reveal_strlit(
        "openid https://www.googleapis.com/auth/userinfo.email https://www.googleapis.com/auth/userinfo.profile",
    );
    lemma_pct_encode_ascii(cid);
    lemma_pct_encode_ascii(redirect);
    lemma_pct_encode_ascii(state);
    lemma_pct_encode_ascii(lit_bytes(spec_scopes()));
    lemma_lit_bytes_ascii("https://accounts.google.com/o/oauth2/v2/auth?client_id="@);
    lemma_lit_bytes_ascii("&access_type=offline&redirect_uri="@);
    lemma_lit_bytes_ascii("&response_type=code&prompt=consent&state="@);
    lemma_lit_bytes_ascii("&scope="@);
    lemma_lit_bytes_ascii("&include_granted_scopes=true"@);
}

/// The byte codes of an ASCII character string are below 128.
proof fn lemma_lit_bytes_ascii(s: Seq<char>)
    requires
        vstd::utf8::is_ascii_chars(s),
    ensures
        forall|i: int| 0 <= i < lit_bytes(s).len() ==> #[trigger] lit_bytes(s)[i] < 128,
{
    assert forall|i: int| 0 <= i < lit_bytes(s).len() implies #[trigger] lit_bytes(s)[i]
        < 128 by {
        assert('\0' <= s[i] <= '\u{7f}');
        vstd::utf8::char_u32_cast(s[i], s[i] as u32);
        assert(s[i] as u32 <= 127);
    }
}

/// Builds the provider authorization URL for a link state: the query
/// carries the client id, the resolved redirect, the link-state id as
/// the CSRF `state`, and the requested scopes, all percent-encoded.
pub fn build_oauth_link(client_id: &str, state: &LinkState) -> (r: Result<String, AppError>)
    ensures
        match r {
            Ok(url) => {
                let expected = spec_oauth_link(
                    client_id.spec_bytes(),
                    vstd::utf8::encode_utf8(state@.redirect),
                    vstd::utf8::encode_utf8(state@.id),
                );
                &&& url@.len() == expected.len()
                &&& forall|i: int|
                    0 <= i < url@.len() ==> (#[trigger] url@[i]) as u32 == expected[i] as u32
            },
            Err(_) => false,
        },
{
    proof {
        reveal_strlit("https://accounts.google.com/o/oauth2/v2/auth?client_id=");
        reveal_strlit("&access_type=offline&redirect_uri=");
        reveal_strlit("&response_type=code&prompt=consent&state=");
        reveal_strlit("&scope=");
        reveal_strlit("&include_granted_scopes=true");
        reveal_strlit(
            "openid https://www.googleapis.com/auth/userinfo.email https://www.googleapis.com/auth/userinfo.profile",
        );
        assert(vstd::utf8::is_ascii_chars(
            "https://accounts.google.com/o/oauth2/v2/auth?client_id="@,
        ));
        assert(vstd::utf8::is_ascii_chars("&access_type=offline&redirect_uri="@));
        assert(vstd::utf8::is_ascii_chars("&response_type=code&prompt=consent&state="@));
        assert(vstd::utf8::is_ascii_chars("&scope="@));
        assert(vstd::utf8::is_ascii_chars("&include_granted_scopes=true"@));
    }
    let ghost expected = spec_oauth_link(
        client_id.spec_bytes(),
        vstd::utf8::encode_utf8(state@.redirect),
        vstd::utf8::encode_utf8(state@.id),
    );
    let mut out: Vec<u8> = Vec::new();
    append_lit_bytes(&mut out, "https://accounts.google.com/o/oauth2/v2/auth?client_id=");
    let mut enc = pct_encode(client_id.as_bytes());
    out.append(&mut enc);
    append_lit_bytes(&mut out, "&access_type=offline&redirect_uri=");
    let redirect_str = state.redirect.as_str();
    let mut enc = pct_encode(redirect_str.as_bytes());
    out.append(&mut enc);
    append_lit_bytes(&mut out, "&response_type=code&prompt=consent&state=");
    let id_str = state.id.as_str();
    let mut enc = pct_encode(id_str.as_bytes());
    out.append(&mut enc);
    append_lit_bytes(&mut out, "&scope=");
    let scopes =
        "openid https://www.googleapis.com/auth/userinfo.email https://www.googleapis.com/auth/userinfo.profile";
    let mut enc = pct_encode(scopes.as_bytes());
    out.append(&mut enc);
    append_lit_bytes(&mut out, "&include_granted_scopes=true");
    proof {
        broadcast use vstd::string::is_ascii_spec_bytes;

        assert(scopes.spec_bytes() == lit_bytes(spec_scopes())) by {
            assert(vstd::utf8::is_ascii_chars(spec_scopes())) by {
                assert forall|i: int| 0 <= i < spec_scopes().len() implies '\0'
                    <= #[trigger] spec_scopes()[i] <= '\u{7f}' by {}
            }
            assert(vstd::string::is_ascii(scopes));
            assert(scopes.spec_bytes() =~= lit_bytes(spec_scopes()));
        }
        assert(out@ =~= expected);
        lemma_oauth_link_ascii(
            client_id.spec_bytes(),
            vstd::utf8::encode_utf8(state@.redirect),
            vstd::utf8::encode_utf8(state@.id),
        );
    }
    let url = crate::record::ascii_bytes_to_string(out);
    Ok(url)
}

/// The authorization URL carries the link-state id: right after the
/// `state=` key stands the id itself, unchanged, since opaque ids are
/// uppercase letters, which percent-encoding leaves alone.
pub proof fn lemma_link_carries_state(cid: Seq<u8>, redirect: Seq<u8>, state: Seq<u8>)
    requires
        forall|i: int| 0 <= i < state.len() ==> 65 <= #[trigger] state[i] <= 90,
    ensures
        ({
            let url = spec_oauth_link(cid, redirect, state);
            let p = lit_bytes(
                "https://accounts.google.com/o/oauth2/v2/auth?client_id="@,
            ).len() as int + spec_pct_encode(cid).len() + lit_bytes(
                "&access_type=offline&redirect_uri="@,
            ).len() + spec_pct_encode(redirect).len() + lit_bytes(
                "&response_type=code&prompt=consent&state="@,
            ).len();
            url.subrange(p - 6, p + state.len()) == lit_bytes("state="@) + state
        }),
{
    reveal_strlit("https://accounts.google.com/o/oauth2/v2/auth?client_id=");
    reveal_strlit("&access_type=offline&redirect_uri=");
    reveal_strlit("&response_type=code&prompt=consent&state=");
    reveal_strlit("state=");
    assert forall|i: int| 0 <= i < state.len() implies is_unreserved(#[trigger] state[i]) by {}
    lemma_pct_encode_unreserved(state);
    let url = spec_oauth_link(cid, redirect, state);
    let p = lit_bytes("https://accounts.google.com/o/oauth2/v2/auth?client_id="@).len() as int
        + spec_pct_encode(cid).len() + lit_bytes("&access_type=offline&redirect_uri="@).len()
        + spec_pct_encode(redirect).len() + lit_bytes(
        "&response_type=code&prompt=consent&state="@,
    ).len();
    assert(url.subrange(p - 6, p + state.len() as int) =~= lit_bytes("state="@) + state);
}

/// Creates a fresh link state, persists it, and hands back the login
/// links built on it. Fails only when the freshly drawn id collides
/// with a stored one.
pub fn create_login_link(links: &mut LinkStateStore, client_id: &str) -> (r: Result<
    Links,
    AppError,
>)
    ensures
        match r {
            Ok(l) => exists|ls: crate::oauth_link_state::LinkStateView|
                {
                    &&& crate::record::is_opaque_id(ls.id)
                    &&& ls.provider is GOOGLE
                    &&& state_find(old(links)@, ls.id) is None
                    &&& final(links)@ =~= old(links)@.push(ls)
                    &&& ({
                        let expected = spec_oauth_link(
                            client_id.spec_bytes(),
                            vstd::utf8::encode_utf8(ls.redirect),
                            vstd::utf8::encode_utf8(ls.id),
                        );
                        l.google@.len() == expected.len() && forall|i: int|
                            0 <= i < l.google@.len() ==> (#[trigger] l.google@[i]) as u32
                                == expected[i] as u32
                    })
                },
            Err(e) => {
                &&& e.kind == ErrorKind::BadRequest
                &&& final(links)@ == old(links)@
                &&& old(links)@.len() > 0
            },
        },
{
    let state = LinkState::default();
    let ghost state_id = state@.id;
    let created = match links.create(state) {
        Ok(created) => created,
        Err(_) => {
            // Only a collision of the freshly drawn id can fail, and a
            // collision needs something stored to collide with.
            proof {
                crate::oauth_link_state::lemma_state_find_props(links@, state_id);
            }
            return Err(AppError::bad_request("could not persist link state"));
        },
    };
    let url = match build_oauth_link(client_id, &created) {
        Ok(url) => url,
        Err(_) => {
            proof {
                assert(false);
            }
            return Err(AppError::bad_request("link did not build"));
        },
    };
    Ok(Links { google: url })
}

/// Consumes the callback's `state` parameter: the CSRF check. A state
/// that was never issued, was already consumed, or has expired fails
/// with `Unauthorized`, and nothing after it may run.
pub fn begin_callback(links: &mut LinkStateStore, state: &str, now: i64) -> (r: Result<
    LinkState,
    AppError,
>)
    ensures
        match r {
            Ok(l) => {
                &&& state_find(old(links)@, state@) is Some
                &&& l@ == old(links)@[state_find(old(links)@, state@)->Some_0]
                &&& spec_is_live(l@, now as int)
                &&& final(links)@ =~= states_without(old(links)@, state@)
            },
            Err(e) => {
                &&& e.kind == ErrorKind::Unauthorized
                &&& match state_find(old(links)@, state@) {
                    None => true,
                    Some(j) => !spec_is_live(old(links)@[j], now as int),
                }
                &&& final(links)@ == old(links)@
            },
        },
{
    match links.consume(state, now) {
        Ok(l) => Ok(l),
        Err(_) => Err(AppError::unauthorized("unknown or expired state")),
    }
}

/// The form body of the authorization-code token exchange.
pub fn token_exchange_form(
    client_id: &str,
    client_secret: &str,
    code: &str,
    redirect: &str,
) -> (r: Vec<(String, String)>)
    ensures
        r@.len() == 5,
        r@[0].0@ == "client_id"@ && r@[0].1@ == client_id@,
        r@[1].0@ == "client_secret"@ && r@[1].1@ == client_secret@,
        r@[2].0@ == "redirect_uri"@ && r@[2].1@ == redirect@,
        r@[3].0@ == "grant_type"@ && r@[3].1@ == "authorization_code"@,
        r@[4].0@ == "code"@ && r@[4].1@ == code@,
{
    let mut out: Vec<(String, String)> = Vec::new();
    out.push(("client_id".to_owned(), client_id.to_owned()));
    out.push(("client_secret".to_owned(), client_secret.to_owned()));
    out.push(("redirect_uri".to_owned(), redirect.to_owned()));
    out.push(("grant_type".to_owned(), "authorization_code".to_owned()));
    out.push(("code".to_owned(), code.to_owned()));
    out
}

/// The form body of a refresh-token grant.
pub fn refresh_token_form(client_id: &str, client_secret: &str, refresh_token: &str) -> (r: Vec<
    (String, String),
>)
    ensures
        r@.len() == 4,
        r@[0].0@ == "client_id"@ && r@[0].1@ == client_id@,
        r@[1].0@ == "client_secret"@ && r@[1].1@ == client_secret@,
        r@[2].0@ == "refresh_token"@ && r@[2].1@ == refresh_token@,
        r@[3].0@ == "grant_type"@ && r@[3].1@ == "refresh_token"@,
{
    let mut out: Vec<(String, String)> = Vec::new();
    out.push(("client_id".to_owned(), client_id.to_owned()));
    out.push(("client_secret".to_owned(), client_secret.to_owned()));
    out.push(("refresh_token".to_owned(), refresh_token.to_owned()));
    out.push(("grant_type".to_owned(), "refresh_token".to_owned()));
    out
}

/// The query of the userinfo fetch.
pub fn user_info_query(access_token: &str) -> (r: Vec<(String, String)>)
    ensures
        r@.len() == 2,
        r@[0].0@ == "alt"@ && r@[0].1@ == "json"@,
        r@[1].0@ == "access_token"@ && r@[1].1@ == access_token@,
{
    let mut out: Vec<(String, String)> = Vec::new();
    out.push(("alt".to_owned(), "json".to_owned()));
    out.push(("access_token".to_owned(), access_token.to_owned()));
    out
}

/// Finishes a callback once the provider has answered: upserts the
/// identity for the fetched profile and signs a session token for it,
/// issued at the given time. Nothing is persisted unless the whole
/// step succeeds, and success is owed whenever the clock value is sane
/// and any already-linked identity carries a wire-safe id (ids this
/// library generates always are).
pub fn finish_callback(
    users: &mut UserStore,
    google_user_info: GoogleUserInfo,
    token_data: GoogleAccessToken,
    jwt_secret: &str,
    now_millis: i64,
) -> (r: Result<(User, String), AppError>)
    ensures
        now_millis < 0 ==> r is Err,
        r is Err ==> final(users)@ == old(users)@,
        (now_millis >= 0 && match user_find_by_google_id(old(users)@, google_user_info@.id) {
            Some(j) => forall|i: int|
                0 <= i < old(users)@[j].id.len() ==> crate::jwt::is_token_safe_char(
                    #[trigger] old(users)@[j].id[i],
                ),
            None => true,
        }) ==> r is Ok,
        match r {
            Ok(p) => {
                &&& now_millis >= 0
                &&& match user_find_by_google_id(old(users)@, google_user_info@.id) {
                    Some(j) => p.0@.id == old(users)@[j].id && p.0@.auth.token_version == old(
                        users,
                    )@[j].auth.token_version && final(users)@ =~= old(users)@.update(j, p.0@),
                    None => crate::record::is_opaque_id(p.0@.id) && p.0@.auth.token_version == 0
                        && final(users)@ =~= old(users)@.push(p.0@),
                }
                &&& p.0@.auth.google.metadata == google_user_info@
                &&& p.0@.auth.google.tokens == token_data@
                &&& p.1@ == spec_token(
                    ClaimsView {
                        user_id: p.0@.id,
                        token_version: p.0@.auth.token_version,
                        issuer: p.0@.service,
                        exp: now_millis as int / 1000 + SESSION_TTL_SECONDS,
                        iat: now_millis as int / 1000,
                    },
                    jwt_secret.spec_bytes(),
                )
            },
            Err(e) => e.kind == ErrorKind::BadRequest || e.kind == ErrorKind::Internal,
        },
{
    if now_millis < 0 {
        return Err(AppError::internal_server_error("clock before the epoch"));
    }
    // An already-linked identity keeps its stored id; check up front that
    // it can ride in a token, so failure cannot strike after the upsert.
    match users.query_by_google_id(google_user_info.id.as_str()) {
        Option::Some(existing) => {
            if !crate::jwt::is_token_safe(existing.id.as_str()) {
                proof {
                    let j = user_find_by_google_id(users@, google_user_info@.id)->Some_0;
                    assert(existing@.id == users@[j].id);
                    if forall|i: int|
                        0 <= i < users@[j].id.len() ==> crate::jwt::is_token_safe_char(
                            #[trigger] users@[j].id[i],
                        ) {
                        assert forall|i: int|
                            0 <= i < existing.id@.len() implies crate::jwt::is_token_safe_char(
                            #[trigger] existing.id@[i],
                        ) by {
                            assert(crate::jwt::is_token_safe_char(users@[j].id[i]));
                        }
                        assert(false);
                    }
                }
                return Err(AppError::bad_request("subject id cannot ride in a token"));
            }
        },
        Option::None => {},
    }
    let user = match User::create_or_update_google(users, google_user_info, token_data, now_millis)
        {
        Ok(u) => u,
        Err(_) => {
            proof {
                assert(false);
            }
            return Err(AppError::internal_server_error("identity did not persist"));
        },
    };
    let now_secs = ((now_millis as u64) / 1000) as i64;
    proof {
        assert(0 <= now_secs <= i64::MAX - SESSION_TTL_SECONDS);
        assert(now_secs as int == now_millis as int / 1000);
        assert forall|i: int|
            0 <= i < user@.id.len() implies crate::jwt::is_token_safe_char(
            #[trigger] user@.id[i],
        ) by {
            if user_find_by_google_id(old(users)@, google_user_info@.id) is None {
                assert(crate::record::is_upper_alpha(user@.id[i]));
            }
        }
    }
    let token = match crate::jwt::sign_at(
        user.id.as_str(),
        user.auth.token_version,
        user.service,
        jwt_secret,
        now_secs,
    ) {
        Ok(t) => t,
        Err(_) => {
            proof {
                assert(false);
            }
            return Err(AppError::internal_server_error("session did not sign"));
        },
    };
    Ok((user, token))
}

/// Appends an ASCII literal's bytes.
fn append_lit_bytes(out: &mut Vec<u8>, lit: &str)
    requires
        vstd::utf8::is_ascii_chars(lit@),
    ensures
        final(out)@ == old(out)@ + lit_bytes(lit@),
{
    let bytes = lit.as_bytes_vec();
    let mut i: usize = 0;
    proof {
        broadcast use vstd::string::is_ascii_spec_bytes;

        assert(vstd::string::is_ascii(lit));
        assert(lit.spec_bytes() =~= lit_bytes(lit@));
    }
    while i < bytes.len()
        invariant
            i <= bytes@.len(),
            bytes@ == lit_bytes(lit@),
            out@ == old(out)@ + lit_bytes(lit@).take(i as int),
        decreases bytes@.len() - i,
    {
        let x = bytes[i];
        out.push(x);
        proof {
            assert(out@ =~= old(out)@ + lit_bytes(lit@).take(i as int + 1));
        }
        i = i + 1;
    }
    proof {
        assert(lit_bytes(lit@).take(i as int) =~= lit_bytes(lit@));
    }
}

} // verus!
