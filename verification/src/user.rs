//! The durable identity record and its service.
//!
//! An identity is keyed by an internal opaque id and cross-referenced
//! to provider accounts by the provider's opaque user id; at most one
//! identity exists per provider user id. The identity carries the
//! provider profile and token set, a token version compared on every
//! verification, and the service the identity belongs to.

use vstd::prelude::*;
use vstd::string::StringSliceAdditionalSpecFns;

use crate::errors::{AppError, ErrorKind};
use crate::jwt::{spec_token, verify_at, wf_claims, Claims, ClaimsView, Service};
use crate::record::is_opaque_id;
use crate::time::now_unix_millis;

verus! {

/// The mathematical shape of a provider token set.
pub struct GoogleAccessTokenView {
    pub access_token: Seq<char>,
    pub expires_in: int,
    pub token_type: Seq<char>,
    pub scope: Seq<char>,
    pub refresh_token: Seq<char>,
}

/// A provider token set: an opaque payload, never validated beyond
/// structural decoding.
#[derive(Debug)]
pub struct GoogleAccessToken {
    pub access_token: String,
    pub expires_in: u32,
    pub token_type: String,
    pub scope: String,
    pub refresh_token: String,
}

impl View for GoogleAccessToken {
    type V = GoogleAccessTokenView;

    open spec fn view(&self) -> GoogleAccessTokenView {
        GoogleAccessTokenView {
            access_token: self.access_token@,
            expires_in: self.expires_in as int,
            token_type: self.token_type@,
            scope: self.scope@,
            refresh_token: self.refresh_token@,
        }
    }
}

impl Clone for GoogleAccessToken {
    /// A copy that keeps the view.
    fn clone(&self) -> (r: GoogleAccessToken)
        ensures
            r@ == self@,
    {
        GoogleAccessToken {
            access_token: self.access_token.clone(),
            expires_in: self.expires_in,
            token_type: self.token_type.clone(),
            scope: self.scope.clone(),
            refresh_token: self.refresh_token.clone(),
        }
    }
}

impl Default for GoogleAccessToken {
    /// An empty token set.
    fn default() -> (r: GoogleAccessToken)
        ensures
            r@.access_token == Seq::<char>::empty(),
            r@.expires_in == 0,
            r@.refresh_token == Seq::<char>::empty(),
    {
        GoogleAccessToken {
            access_token: String::new(),
            expires_in: 0,
            token_type: String::new(),
            scope: String::new(),
            refresh_token: String::new(),
        }
    }
}

/// A refresh-grant response: like a token set, but without a new
/// refresh token.
#[derive(Debug)]
pub struct GoogleRefreshToken {
    pub access_token: String,
    pub expires_in: u32,
    pub token_type: String,
    pub scope: String,
}

/// The mathematical shape of a provider profile.
pub struct GoogleUserInfoView {
    pub id: Seq<char>,
    pub email: Seq<char>,
    pub verified_email: bool,
    pub name: Seq<char>,
    pub given_name: Seq<char>,
    pub family_name: Seq<char>,
    pub picture: Seq<char>,
}

/// The provider profile fetched from the userinfo endpoint.
#[derive(Debug)]
pub struct GoogleUserInfo {
    pub id: String,
    pub email: String,
    pub verified_email: bool,
    pub name: String,
    pub given_name: String,
    pub family_name: String,
    pub picture: String,
}

impl View for GoogleUserInfo {
    type V = GoogleUserInfoView;

    open spec fn view(&self) -> GoogleUserInfoView {
        GoogleUserInfoView {
            id: self.id@,
            email: self.email@,
            verified_email: self.verified_email,
            name: self.name@,
            given_name: self.given_name@,
            family_name: self.family_name@,
            picture: self.picture@,
        }
    }
}

impl Clone for GoogleUserInfo {
    /// A copy that keeps the view.
    fn clone(&self) -> (r: GoogleUserInfo)
        ensures
            r@ == self@,
    {
        GoogleUserInfo {
            id: self.id.clone(),
            email: self.email.clone(),
            verified_email: self.verified_email,
            name: self.name.clone(),
            given_name: self.given_name.clone(),
            family_name: self.family_name.clone(),
            picture: self.picture.clone(),
        }
    }
}

impl Default for GoogleUserInfo {
    /// An empty profile.
    fn default() -> (r: GoogleUserInfo)
        ensures
            r@.id == Seq::<char>::empty(),
    {
        GoogleUserInfo {
            id: String::new(),
            email: String::new(),
            verified_email: false,
            name: String::new(),
            given_name: String::new(),
            family_name: String::new(),
            picture: String::new(),
        }
    }
}

/// The mathematical shape of one provider link.
pub struct GoogleProviderInformationView {
    pub metadata: GoogleUserInfoView,
    pub tokens: GoogleAccessTokenView,
}

/// One provider link: the profile and the token set.
#[derive(Debug)]
pub struct GoogleProviderInformation {
    pub metadata: GoogleUserInfo,
    pub tokens: GoogleAccessToken,
}

impl View for GoogleProviderInformation {
    type V = GoogleProviderInformationView;

    open spec fn view(&self) -> GoogleProviderInformationView {
        GoogleProviderInformationView { metadata: self.metadata@, tokens: self.tokens@ }
    }
}

impl Clone for GoogleProviderInformation {
    /// A copy that keeps the view.
    fn clone(&self) -> (r: GoogleProviderInformation)
        ensures
            r@ == self@,
    {
        GoogleProviderInformation {
            metadata: self.metadata.clone(),
            tokens: self.tokens.clone(),
        }
    }
}

/// The mathematical shape of an identity's authentication state.
pub struct AuthView {
    pub token_version: int,
    pub google: GoogleProviderInformationView,
}

/// An identity's authentication state: the token version and the
/// provider links.
#[derive(Debug)]
pub struct Auth {
    pub token_version: u32,
    pub google: GoogleProviderInformation,
}

impl View for Auth {
    type V = AuthView;

    open spec fn view(&self) -> AuthView {
        AuthView { token_version: self.token_version as int, google: self.google@ }
    }
}

impl Clone for Auth {
    /// A copy that keeps the view.
    fn clone(&self) -> (r: Auth)
        ensures
            r@ == self@,
    {
        Auth { token_version: self.token_version, google: self.google.clone() }
    }
}

impl Default for Auth {
    /// A fresh authentication state: token version zero, blank link.
    fn default() -> (r: Auth)
        ensures
            r@.token_version == 0,
            r@.google.metadata.id == Seq::<char>::empty(),
    {
        Auth {
            token_version: 0,
            google: GoogleProviderInformation {
                metadata: GoogleUserInfo::default(),
                tokens: GoogleAccessToken::default(),
            },
        }
    }
}

/// The mathematical shape of an identity.
pub struct UserView {
    pub id: Seq<char>,
    pub auth: AuthView,
    pub service: Service,
    pub created_at: int,
    pub updated_at: int,
}

/// The durable identity record. Timestamps are Unix milliseconds.
#[derive(Debug)]
pub struct User {
    pub id: String,
    pub auth: Auth,
    pub service: Service,
    pub created_at: i64,
    pub updated_at: i64,
}

impl View for User {
    type V = UserView;

    open spec fn view(&self) -> UserView {
        UserView {
            id: self.id@,
            auth: self.auth@,
            service: self.service,
            created_at: self.created_at as int,
            updated_at: self.updated_at as int,
        }
    }
}

impl Clone for User {
    /// A copy that keeps the view.
    fn clone(&self) -> (r: User)
        ensures
            r@ == self@,
    {
        User {
            id: self.id.clone(),
            auth: self.auth.clone(),
            service: self.service,
            created_at: self.created_at,
            updated_at: self.updated_at,
        }
    }
}

impl Default for User {
    /// A fresh identity with a fresh opaque id, token version zero and
    /// both timestamps set to one reading of the clock.
    fn default() -> (r: User)
        ensures
            is_opaque_id(r@.id),
            r@.auth.token_version == 0,
            r@.service is LOCALHOST,
            r@.created_at == r@.updated_at,
    {
        let now = now_unix_millis();
        User {
            id: crate::record::generate_nanoid(),
            auth: Auth::default(),
            service: Service::LOCALHOST,
            created_at: now,
            updated_at: now,
        }
    }
}

/// The index of the first identity linked to the given provider user
/// id, if any.
pub open spec fn user_find_by_google_id(view: Seq<UserView>, gid: Seq<char>) -> Option<int>
    decreases view.len(),
{
    if view.len() == 0 {
        None
    } else if view[0].auth.google.metadata.id == gid {
        Some(0int)
    } else {
        match user_find_by_google_id(view.drop_first(), gid) {
            None => None,
            Some(j) => Some(j + 1),
        }
    }
}

/// What `user_find_by_google_id` finding (or not finding) an index means.
pub proof fn lemma_user_find_by_google_id_props(view: Seq<UserView>, gid: Seq<char>)
    ensures
        match user_find_by_google_id(view, gid) {
            None => forall|k: int|
                0 <= k < view.len() ==> (#[trigger] view[k]).auth.google.metadata.id != gid,
            Some(j) => 0 <= j < view.len() && view[j].auth.google.metadata.id == gid && forall|
                k: int,
            | 0 <= k < j ==> (#[trigger] view[k]).auth.google.metadata.id != gid,
        },
    decreases view.len(),
{
    if view.len() > 0 && view[0].auth.google.metadata.id != gid {
        lemma_user_find_by_google_id_props(view.drop_first(), gid);
        match user_find_by_google_id(view.drop_first(), gid) {
            None => {
                assert forall|k: int|
                    0 <= k < view.len() implies (#[trigger] view[k]).auth.google.metadata.id
                    != gid by {
                    if k > 0 {
                        assert(view.drop_first()[k - 1] == view[k]);
                    }
                }
            },
            Some(j) => {
                assert(view.drop_first()[j] == view[j + 1]);
                assert forall|k: int|
                    0 <= k < j + 1 implies (#[trigger] view[k]).auth.google.metadata.id != gid by {
                    if k > 0 {
                        assert(view.drop_first()[k - 1] == view[k]);
                    }
                }
            },
        }
    }
}

/// The index of the first identity with the given record id, if any.
pub open spec fn user_find_by_id(view: Seq<UserView>, id: Seq<char>) -> Option<int>
    decreases view.len(),
{
    if view.len() == 0 {
        None
    } else if view[0].id == id {
        Some(0int)
    } else {
        match user_find_by_id(view.drop_first(), id) {
            None => None,
            Some(j) => Some(j + 1),
        }
    }
}

/// What `user_find_by_id` finding (or not finding) an index means.
pub proof fn lemma_user_find_by_id_props(view: Seq<UserView>, id: Seq<char>)
    ensures
        match user_find_by_id(view, id) {
            None => forall|k: int| 0 <= k < view.len() ==> (#[trigger] view[k]).id != id,
            Some(j) => 0 <= j < view.len() && view[j].id == id && forall|k: int|
                0 <= k < j ==> (#[trigger] view[k]).id != id,
        },
    decreases view.len(),
{
    if view.len() > 0 && view[0].id != id {
        lemma_user_find_by_id_props(view.drop_first(), id);
        match user_find_by_id(view.drop_first(), id) {
            None => {
                assert forall|k: int| 0 <= k < view.len() implies (#[trigger] view[k]).id
                    != id by {
                    if k > 0 {
                        assert(view.drop_first()[k - 1] == view[k]);
                    }
                }
            },
            Some(j) => {
                assert(view.drop_first()[j] == view[j + 1]);
                assert forall|k: int| 0 <= k < j + 1 implies (#[trigger] view[k]).id != id by {
                    if k > 0 {
                        assert(view.drop_first()[k - 1] == view[k]);
                    }
                }
            },
        }
    }
}

/// An in-memory identity store. It stands where the backing document
/// store would; the uniqueness of provider user ids is what its
/// secondary unique index would enforce.
pub struct UserStore {
    pub items: Vec<User>,
}

impl View for UserStore {
    type V = Seq<UserView>;

    open spec fn view(&self) -> Seq<UserView> {
        self.items@.map_values(|u: User| u@)
    }
}

impl UserStore {
    /// An empty store.
    pub fn new() -> (s: UserStore)
        ensures
            s@.len() == 0,
    {
        UserStore { items: Vec::new() }
    }

    /// The index of the identity linked to the provider user id.
    fn find_index_by_google_id(&self, gid: &str) -> (r: Option<usize>)
        ensures
            match r {
                Some(i) => user_find_by_google_id(self@, gid@) == Some(i as int),
                None => user_find_by_google_id(self@, gid@) is None,
            },
    {
        let gid_owned = gid.to_owned();
        let mut i: usize = 0;
        while i < self.items.len()
            invariant
                i <= self@.len(),
                self@.len() == self.items@.len(),
                gid_owned@ == gid@,
                forall|k: int|
                    0 <= k < i ==> (#[trigger] self@[k]).auth.google.metadata.id != gid@,
            decreases self@.len() - i,
        {
            if self.items[i].auth.google.metadata.id == gid_owned {
                proof {
                    lemma_user_find_by_google_id_props(self@, gid@);
                    match user_find_by_google_id(self@, gid@) {
                        None => {
                            assert(self@[i as int].auth.google.metadata.id != gid@);
                            assert(false);
                        },
                        Some(j) => {
                            assert(j == i as int);
                        },
                    }
                }
                return Some(i);
            }
            proof {
                assert(self@[i as int].auth.google.metadata.id == self.items@[
                    i as int
                ].auth.google.metadata.id@);
            }
            i = i + 1;
        }
        proof {
            lemma_user_find_by_google_id_props(self@, gid@);
            if user_find_by_google_id(self@, gid@) is Some {
                let j = user_find_by_google_id(self@, gid@)->Some_0;
                assert(self@[j].auth.google.metadata.id == gid@);
                assert(false);
            }
        }
        None
    }

    /// The index of the identity with the given record id.
    fn find_index_by_id(&self, id: &str) -> (r: Option<usize>)
        ensures
            match r {
                Some(i) => user_find_by_id(self@, id@) == Some(i as int),
                None => user_find_by_id(self@, id@) is None,
            },
    {
        let id_owned = id.to_owned();
        let mut i: usize = 0;
        while i < self.items.len()
            invariant
                i <= self@.len(),
                self@.len() == self.items@.len(),
                id_owned@ == id@,
                forall|k: int| 0 <= k < i ==> (#[trigger] self@[k]).id != id@,
            decreases self@.len() - i,
        {
            if self.items[i].id == id_owned {
                proof {
                    lemma_user_find_by_id_props(self@, id@);
                    match user_find_by_id(self@, id@) {
                        None => {
                            assert(self@[i as int].id != id@);
                            assert(false);
                        },
                        Some(j) => {
                            assert(j == i as int);
                        },
                    }
                }
                return Some(i);
            }
            proof {
                assert(self@[i as int].id == self.items@[i as int].id@);
            }
            i = i + 1;
        }
        proof {
            lemma_user_find_by_id_props(self@, id@);
            if user_find_by_id(self@, id@) is Some {
                let j = user_find_by_id(self@, id@)->Some_0;
                assert(self@[j].id == id@);
                assert(false);
            }
        }
        None
    }

    /// Fetches the identity stored under `id`.
    pub fn read_by_id(&self, id: &str) -> (r: Result<User, AppError>)
        ensures
            match r {
                Ok(u) => user_find_by_id(self@, id@) is Some && u@ == self@[user_find_by_id(
                    self@,
                    id@,
                )->Some_0],
                Err(e) => e.kind == ErrorKind::NotFound && user_find_by_id(self@, id@) is None,
            },
    {
        match self.find_index_by_id(id) {
            Option::Some(i) => {
                proof {
                    lemma_user_find_by_id_props(self@, id@);
                    assert(self@[i as int] == self.items@[i as int]@);
                }
                Ok(self.items[i].clone())
            },
            Option::None => Err(AppError::not_found("no user found")),
        }
    }

    /// The identity linked to the given provider user id, if any: the
    /// query the secondary unique index would answer.
    pub fn query_by_google_id(&self, gid: &str) -> (r: Option<User>)
        ensures
            match r {
                Some(u) => user_find_by_google_id(self@, gid@) is Some && u@ == self@[
                    user_find_by_google_id(self@, gid@)->Some_0],
                None => user_find_by_google_id(self@, gid@) is None,
            },
    {
        match self.find_index_by_google_id(gid) {
            Option::Some(i) => {
                proof {
                    lemma_user_find_by_google_id_props(self@, gid@);
                    assert(self@[i as int] == self.items@[i as int]@);
                }
                Some(self.items[i].clone())
            },
            Option::None => None,
        }
    }
}

impl User {
    /// Creates or updates the identity linked to the given provider
    /// profile, idempotently on the provider user id: when an identity
    /// is already linked, only its provider sub-object is replaced —
    /// its id, token version and service are untouched — otherwise a
    /// fresh identity is created with token version zero.
    pub fn create_or_update_google(
        store: &mut UserStore,
        google_user_info: GoogleUserInfo,
        token_data: GoogleAccessToken,
        now: i64,
    ) -> (r: Result<User, AppError>)
        ensures
            r is Ok,
            match r {
                Ok(u) => match user_find_by_google_id(old(store)@, google_user_info@.id) {
                    Some(j) => u@ == (UserView {
                        auth: AuthView {
                            token_version: old(store)@[j].auth.token_version,
                            google: GoogleProviderInformationView {
                                metadata: google_user_info@,
                                tokens: token_data@,
                            },
                        },
                        updated_at: now as int,
                        ..old(store)@[j]
                    }) && final(store)@ =~= old(store)@.update(j, u@),
                    None => {
                        &&& is_opaque_id(u@.id)
                        &&& u@.auth.token_version == 0
                        &&& u@.auth.google.metadata == google_user_info@
                        &&& u@.auth.google.tokens == token_data@
                        &&& u@.service is LOCALHOST
                        &&& u@.created_at == now as int && u@.updated_at == now as int
                        &&& final(store)@ =~= old(store)@.push(u@)
                    },
                },
                Err(_) => false,
            },
    {
        match store.find_index_by_google_id(google_user_info.id.as_str()) {
            Option::Some(j) => {
                proof {
                    lemma_user_find_by_google_id_props(store@, google_user_info@.id);
                }
                let mut updated = store.items[j].clone();
                updated.auth.google = GoogleProviderInformation {
                    metadata: google_user_info,
                    tokens: token_data,
                };
                updated.updated_at = now;
                let ghost pre = store@;
                let returned = updated.clone();
                store.items.remove(j);
                store.items.insert(j, updated);
                proof {
                    assert(store@ =~= pre.update(j as int, returned@));
                }
                Ok(returned)
            },
            Option::None => {
                let mut user = User::default();
                user.auth = Auth {
                    token_version: 0,
                    google: GoogleProviderInformation {
                        metadata: google_user_info,
                        tokens: token_data,
                    },
                };
                user.created_at = now;
                user.updated_at = now;
                let returned = user.clone();
                let ghost pre = store@;
                store.items.push(user);
                proof {
                    assert(store@ =~= pre.push(returned@));
                }
                Ok(returned)
            },
        }
    }

    /// Replaces this identity's provider tokens with a refreshed set,
    /// keeping the stored refresh token and touching nothing else of
    /// the record but its update time.
    pub fn refresh_google_tokens(
        &self,
        store: &mut UserStore,
        refreshed: GoogleRefreshToken,
        now: i64,
    ) -> (r: Result<User, AppError>)
        ensures
            match r {
                Ok(u) => match user_find_by_id(old(store)@, self@.id) {
                    Some(j) => u@ == (UserView {
                        auth: AuthView {
                            token_version: old(store)@[j].auth.token_version,
                            google: GoogleProviderInformationView {
                                metadata: old(store)@[j].auth.google.metadata,
                                tokens: GoogleAccessTokenView {
                                    access_token: refreshed.access_token@,
                                    expires_in: refreshed.expires_in as int,
                                    token_type: refreshed.token_type@,
                                    scope: refreshed.scope@,
                                    refresh_token: old(
                                        store,
                                    )@[j].auth.google.tokens.refresh_token,
                                },
                            },
                        },
                        updated_at: now as int,
                        ..old(store)@[j]
                    }) && final(store)@ =~= old(store)@.update(j, u@),
                    None => false,
                },
                Err(e) => e.kind == ErrorKind::Internal && user_find_by_id(
                    old(store)@,
                    self@.id,
                ) is None && final(store)@ == old(store)@,
            },
    {
        let j = match store.find_index_by_id(self.id.as_str()) {
            Option::Some(j) => j,
            Option::None => {
                return Err(AppError::internal_server_error("no user found"));
            },
        };
        proof {
            lemma_user_find_by_id_props(store@, self@.id);
        }
        let mut updated = store.items[j].clone();
        let refresh_token = updated.auth.google.tokens.refresh_token.clone();
        updated.auth.google.tokens = GoogleAccessToken {
            access_token: refreshed.access_token,
            expires_in: refreshed.expires_in,
            token_type: refreshed.token_type,
            scope: refreshed.scope,
            refresh_token,
        };
        updated.updated_at = now;
        let ghost pre = store@;
        let returned = updated.clone();
        store.items.remove(j);
        store.items.insert(j, updated);
        proof {
            assert(store@ =~= pre.update(j as int, returned@));
        }
        Ok(returned)
    }

    /// Signs a session token for this identity.
    pub fn sign_token(&self, secret: &str) -> (r: Result<String, AppError>)
        ensures
            match r {
                Ok(t) => exists|c: ClaimsView|
                    wf_claims(c) && c.user_id == self@.id && c.token_version
                        == self@.auth.token_version && c.issuer == self@.service && c.exp == c.iat
                        + crate::jwt::SESSION_TTL_SECONDS && t@ == #[trigger] spec_token(
                        c,
                        secret.spec_bytes(),
                    ),
                Err(e) => e.kind == ErrorKind::BadRequest || e.kind == ErrorKind::Internal,
            },
    {
        crate::jwt::sign(self.id.as_str(), self.auth.token_version, self.service, secret)
    }

    /// Verifies a session token.
    pub fn verify_token(token: &str, secret: &str) -> (r: Result<Claims, AppError>)
        ensures
            match r {
                Ok(c) => wf_claims(c@) && token@ == spec_token(c@, secret.spec_bytes()),
                Err(e) => e.kind == ErrorKind::Unauthorized,
            },
    {
        crate::jwt::verify(token, secret)
    }

    /// Authenticates a bearer token as of `now` (Unix seconds): the
    /// token must verify under the secret and not be expired, the
    /// subject must exist, the token version must match the subject's
    /// current one, and the token must have been issued by the service
    /// the subject belongs to.
    pub fn authenticate_token(
        store: &UserStore,
        token: &str,
        secret: &str,
        now: i64,
    ) -> (r: Result<User, AppError>)
        ensures
            match r {
                Ok(u) => exists|c: ClaimsView|
                    {
                        &&& wf_claims(c)
                        &&& now as int <= c.exp
                        &&& token@ == #[trigger] spec_token(c, secret.spec_bytes())
                        &&& user_find_by_id(store@, c.user_id) is Some
                        &&& u@ == store@[user_find_by_id(store@, c.user_id)->Some_0]
                        &&& c.token_version == u@.auth.token_version
                        &&& c.issuer == u@.service
                    },
                Err(e) => {
                    ||| (e.kind == ErrorKind::Unauthorized && forall|c: ClaimsView|
                        wf_claims(c) && now as int <= c.exp ==> token@ != spec_token(
                            c,
                            secret.spec_bytes(),
                        ))
                    ||| (e.kind == ErrorKind::NotFound && exists|c: ClaimsView|
                        wf_claims(c) && now as int <= c.exp && token@ == #[trigger] spec_token(
                            c,
                            secret.spec_bytes(),
                        ) && user_find_by_id(store@, c.user_id) is None)
                    ||| (e.kind == ErrorKind::Unauthorized && exists|c: ClaimsView|
                        wf_claims(c) && now as int <= c.exp && token@ == #[trigger] spec_token(
                            c,
                            secret.spec_bytes(),
                        ) && user_find_by_id(store@, c.user_id) is Some && c.token_version
                        != store@[user_find_by_id(store@, c.user_id)->Some_0].auth.token_version)
                    ||| (e.kind == ErrorKind::Forbidden && exists|c: ClaimsView|
                        wf_claims(c) && now as int <= c.exp && token@ == #[trigger] spec_token(
                            c,
                            secret.spec_bytes(),
                        ) && user_find_by_id(store@, c.user_id) is Some && c.token_version
                        == store@[user_find_by_id(store@, c.user_id)->Some_0].auth.token_version
                        && c.issuer != store@[user_find_by_id(
                            store@,
                            c.user_id,
                        )->Some_0].service)
                },
            },
    {
        let claims = match verify_at(token, secret, now) {
            Ok(c) => c,
            Err(e) => {
                return Err(e);
            },
        };
        let user = match store.read_by_id(claims.user_id.as_str()) {
            Ok(u) => u,
            Err(_) => {
                return Err(AppError::not_found("no user found"));
            },
        };
        if claims.token_version != user.auth.token_version {
            return Err(AppError::unauthorized("invalid token version"));
        }
        if !(claims.issuer == user.service) {
            return Err(AppError::forbidden(
                "you do not have permission to access this service",
            ));
        }
        Ok(user)
    }

    /// Authenticates the bearer token of an authorization header value,
    /// as of `now`: the token is the second whitespace-separated word,
    /// as in `Bearer <token>`. A missing header or a header without a
    /// second word fails with `Unauthorized` before anything is
    /// verified or read; otherwise the outcome is that of
    /// [`User::authenticate_token`] on that word.
    pub fn authenticate(
        store: &UserStore,
        authorization: Option<&str>,
        secret: &str,
        now: i64,
    ) -> (r: Result<User, AppError>)
        ensures
            match authorization {
                None => r is Err && r->Err_0.kind == ErrorKind::Unauthorized,
                Some(h) => match spec_second_word(h@) {
                    None => r is Err && r->Err_0.kind == ErrorKind::Unauthorized,
                    Some(tok) => match r {
                        Ok(u) => exists|c: ClaimsView|
                            {
                                &&& wf_claims(c)
                                &&& now as int <= c.exp
                                &&& tok == #[trigger] spec_token(c, secret.spec_bytes())
                                &&& user_find_by_id(store@, c.user_id) is Some
                                &&& u@ == store@[user_find_by_id(store@, c.user_id)->Some_0]
                                &&& c.token_version == u@.auth.token_version
                                &&& c.issuer == u@.service
                            },
                        Err(e) => {
                            ||| (e.kind == ErrorKind::Unauthorized && forall|c: ClaimsView|
                                wf_claims(c) && now as int <= c.exp ==> tok != spec_token(
                                    c,
                                    secret.spec_bytes(),
                                ))
                            ||| (e.kind == ErrorKind::NotFound && exists|c: ClaimsView|
                                wf_claims(c) && now as int <= c.exp && tok
                                    == #[trigger] spec_token(c, secret.spec_bytes())
                                    && user_find_by_id(store@, c.user_id) is None)
                            ||| (e.kind == ErrorKind::Unauthorized && exists|c: ClaimsView|
                                wf_claims(c) && now as int <= c.exp && tok
                                    == #[trigger] spec_token(c, secret.spec_bytes())
                                    && user_find_by_id(store@, c.user_id) is Some
                                    && c.token_version != store@[user_find_by_id(
                                    store@,
                                    c.user_id,
                                )->Some_0].auth.token_version)
                            ||| (e.kind == ErrorKind::Forbidden && exists|c: ClaimsView|
                                wf_claims(c) && now as int <= c.exp && tok
                                    == #[trigger] spec_token(c, secret.spec_bytes())
                                    && user_find_by_id(store@, c.user_id) is Some
                                    && c.token_version == store@[user_find_by_id(
                                    store@,
                                    c.user_id,
                                )->Some_0].auth.token_version && c.issuer != store@[
                                user_find_by_id(store@, c.user_id)->Some_0].service)
                        },
                    },
                },
            },
    {
        let header = match authorization {
            Option::Some(h) => h,
            Option::None => {
                return Err(AppError::unauthorized("missing auth header"));
            },
        };
        let token = match second_word(header) {
            Option::Some(t) => t,
            Option::None => {
                return Err(AppError::unauthorized("missing auth token"));
            },
        };
        User::authenticate_token(store, token, secret, now)
    }
}

/// Whether `c` is ASCII whitespace, as header splitting sees it.
pub open spec fn is_ascii_space(c: char) -> bool {
    c as u32 == 32 || c as u32 == 9 || c as u32 == 10 || c as u32 == 12 || c as u32 == 13
}

/// The end of the run of characters starting at `p` whose
/// whitespace-ness is `spaces`: where the next word starts (skipping
/// spaces) or where the current word ends (skipping non-spaces).
pub open spec fn scan_run(s: Seq<char>, p: int, spaces: bool) -> int
    decreases s.len() - p,
{
    if p < 0 {
        0
    } else if p >= s.len() {
        s.len() as int
    } else if is_ascii_space(s[p]) == spaces {
        scan_run(s, p + 1, spaces)
    } else {
        p
    }
}

/// The second whitespace-separated word of `s`, if there is one: what
/// stands after the scheme in an authorization header.
pub open spec fn spec_second_word(s: Seq<char>) -> Option<Seq<char>> {
    let first_start = scan_run(s, 0, true);
    let first_end = scan_run(s, first_start, false);
    let second_start = scan_run(s, first_end, true);
    let second_end = scan_run(s, second_start, false);
    if second_start < s.len() {
        Some(s.subrange(second_start, second_end))
    } else {
        None
    }
}

/// Extracts the second whitespace-separated word.
fn second_word(s: &str) -> (r: Option<&str>)
    ensures
        match r {
            Some(w) => spec_second_word(s@) == Some(w@),
            None => spec_second_word(s@) is None,
        },
{
    let len = s.unicode_len();
    let mut i: usize = 0;
    // Skip leading whitespace.
    while i < len && is_space_at(s, i)
        invariant
            i <= len,
            len == s@.len(),
            scan_run(s@, 0, true) == scan_run(s@, i as int, true),
        decreases len - i,
    {
        i = i + 1;
    }
    let ghost first_start = i as int;
    proof {
        assert(scan_run(s@, first_start, true) == first_start);
    }
    // Skip the first word.
    while i < len && !is_space_at(s, i)
        invariant
            i <= len,
            len == s@.len(),
            scan_run(s@, first_start, false) == scan_run(s@, i as int, false),
        decreases len - i,
    {
        i = i + 1;
    }
    let ghost first_end = i as int;
    proof {
        assert(scan_run(s@, first_end, false) == first_end);
    }
    // Skip the separating whitespace.
    while i < len && is_space_at(s, i)
        invariant
            i <= len,
            len == s@.len(),
            scan_run(s@, first_end, true) == scan_run(s@, i as int, true),
        decreases len - i,
    {
        i = i + 1;
    }
    let start = i;
    proof {
        assert(scan_run(s@, start as int, true) == start as int);
    }
    while i < len && !is_space_at(s, i)
        invariant
            start <= i <= len,
            len == s@.len(),
            scan_run(s@, start as int, false) == scan_run(s@, i as int, false),
        decreases len - i,
    {
        i = i + 1;
    }
    proof {
        assert(scan_run(s@, i as int, false) == i as int);
    }
    if i == start {
        proof {
            if (start as int) < s@.len() {
                assert(scan_run(s@, start as int, false) >= start as int + 1);
                assert(false);
            }
        }
        None
    } else {
        Some(s.substring_char(start, i))
    }
}

/// Whether the character at `i` is ASCII whitespace.
fn is_space_at(s: &str, i: usize) -> (b: bool)
    requires
        i < s@.len(),
    ensures
        b == is_ascii_space(s@[i as int]),
{
    let u = s.get_char(i) as u32;
    u == 32 || u == 9 || u == 10 || u == 12 || u == 13
}

/// How many identities are linked to a provider user id.
pub open spec fn count_google_id(view: Seq<UserView>, gid: Seq<char>) -> int
    decreases view.len(),
{
    if view.len() == 0 {
        0
    } else {
        (if view.last().auth.google.metadata.id == gid {
            1int
        } else {
            0int
        }) + count_google_id(view.drop_last(), gid)
    }
}

/// No identity linked to a provider user id means a count of zero.
pub proof fn lemma_count_none(view: Seq<UserView>, gid: Seq<char>)
    requires
        forall|k: int| 0 <= k < view.len() ==> (#[trigger] view[k]).auth.google.metadata.id != gid,
    ensures
        count_google_id(view, gid) == 0,
    decreases view.len(),
{
    if view.len() > 0 {
        lemma_count_none(view.drop_last(), gid);
    }
}

/// Appending a linked identity raises the count by one.
pub proof fn lemma_count_push(view: Seq<UserView>, gid: Seq<char>, u: UserView)
    ensures
        count_google_id(view.push(u), gid) == count_google_id(view, gid) + (
        if u.auth.google.metadata.id == gid {
            1int
        } else {
            0int
        }),
{
    assert(view.push(u).drop_last() =~= view);
}

/// Replacing a linked identity with another linked identity keeps the
/// count.
pub proof fn lemma_count_update(view: Seq<UserView>, gid: Seq<char>, j: int, u: UserView)
    requires
        0 <= j < view.len(),
        view[j].auth.google.metadata.id == gid,
        u.auth.google.metadata.id == gid,
    ensures
        count_google_id(view.update(j, u), gid) == count_google_id(view, gid),
    decreases view.len(),
{
    if view.len() > 0 {
        if j == view.len() - 1 {
            assert(view.update(j, u).drop_last() =~= view.drop_last());
        } else {
            assert(view.update(j, u).drop_last() =~= view.drop_last().update(j, u));
            lemma_count_update(view.drop_last(), gid, j, u);
            assert(view.update(j, u).last() == view.last());
        }
    }
}

/// Identity uniqueness: starting from a store with no identity linked
/// to a provider user id, creating one and then updating it — the two
/// steps `createOrUpdate` takes for two calls with the same id — leaves
/// exactly one linked identity, holding the second call's payload.
pub proof fn lemma_identity_uniqueness(
    view: Seq<UserView>,
    gid: Seq<char>,
    u1: UserView,
    u2: UserView,
)
    requires
        user_find_by_google_id(view, gid) is None,
        u1.auth.google.metadata.id == gid,
        u2.auth.google.metadata.id == gid,
    ensures
        count_google_id(view.push(u1), gid) == 1,
        user_find_by_google_id(view.push(u1), gid) == Some(view.len() as int),
        count_google_id(view.push(u1).update(view.len() as int, u2), gid) == 1,
        view.push(u1).update(view.len() as int, u2)[view.len() as int].auth.google
            == u2.auth.google,
{
    lemma_user_find_by_google_id_props(view, gid);
    lemma_count_none(view, gid);
    lemma_count_push(view, gid, u1);
    let pushed = view.push(u1);
    lemma_user_find_by_google_id_props(pushed, gid);
    assert forall|k: int| 0 <= k < view.len() implies (#[trigger] pushed[k]).auth.google
        .metadata.id != gid by {
        assert(pushed[k] == view[k]);
    }
    match user_find_by_google_id(pushed, gid) {
        None => {
            assert(pushed[view.len() as int].auth.google.metadata.id != gid);
            assert(false);
        },
        Some(j) => {
            if j < view.len() {
                assert(pushed[j].auth.google.metadata.id == gid);
                assert(false);
            }
        },
    }
    lemma_count_update(pushed, gid, view.len() as int, u2);
}

} // verus!
