//! The credential record and its store.
//!
//! A credential is `{id, username, password, metadata, created_at,
//! updated_at}`: created on registration, read on login and lookup,
//! never hard-deleted in the normal flow. Usernames are unique; the
//! store enforces that at registration. Every record round-trips
//! through the attribute codec on its way in and out of the store.

use vstd::prelude::*;

use crate::attribute::{aentries, AttributeMap, AttributeValue, SpecAttr};
use crate::codec::{spec_decode_entries, spec_encode_entries};
use crate::errors::{AppError, ErrorKind};
use crate::record::{from_record, get_attr, get_field, is_opaque_id, spec_lookup, to_record,
    DecodeError};
use crate::structured::{clone_value, lemma_sentries_index, sentries, spec_value_wf, sval,
    SpecValue, StructuredValue};
use crate::time::now_unix_millis;

verus! {

/// The mathematical shape of a credential.
pub struct AuthView {
    pub id: Seq<char>,
    pub username: Seq<char>,
    pub password: Seq<char>,
    pub metadata: Option<SpecValue>,
    pub created_at: int,
    pub updated_at: int,
}

/// A credential record.
#[derive(Debug)]
pub struct Auth {
    pub id: String,
    pub username: String,
    pub password: String,
    pub metadata: Option<StructuredValue>,
    pub created_at: i64,
    pub updated_at: i64,
}

impl View for Auth {
    type V = AuthView;

    open spec fn view(&self) -> AuthView {
        AuthView {
            id: self.id@,
            username: self.username@,
            password: self.password@,
            metadata: match self.metadata {
                Option::None => None,
                Option::Some(m) => Some(sval(m)),
            },
            created_at: self.created_at as int,
            updated_at: self.updated_at as int,
        }
    }
}

/// A well-formed credential view: timestamps fit an `i64`, and metadata,
/// when present, is itself well-formed and not the null value (an absent
/// and a null metadata share one wire form).
pub open spec fn spec_auth_wf(a: AuthView) -> bool {
    &&& i64::MIN <= a.created_at <= i64::MAX
    &&& i64::MIN <= a.updated_at <= i64::MAX
    &&& match a.metadata {
        None => true,
        Some(m) => spec_value_wf(m) && !(m is Null),
    }
}

/// The structured (object-shaped) form of a credential. An absent
/// metadata value is carried as null.
pub open spec fn spec_auth_structured(a: AuthView) -> SpecValue {
    SpecValue::Object(
        seq![
            ("id"@, SpecValue::String(a.id)),
            ("username"@, SpecValue::String(a.username)),
            ("password"@, SpecValue::String(a.password)),
            (
                "metadata"@,
                match a.metadata {
                    None => SpecValue::Null,
                    Some(m) => m,
                },
            ),
            ("created_at"@, SpecValue::Number(a.created_at)),
            ("updated_at"@, SpecValue::Number(a.updated_at)),
        ],
    )
}

/// What a structured value must hold to be a credential: string `id`,
/// `username` and `password` fields, numeric `created_at` and
/// `updated_at` fields, and an optional `metadata` field where null
/// reads as absent.
pub open spec fn spec_auth_from(v: SpecValue) -> Result<AuthView, DecodeError> {
    if !(v is Object) {
        Err(DecodeError::WrongType)
    } else {
        let e = v->Object_0;
        match spec_lookup(e, "id"@) {
            None => Err(DecodeError::MissingField),
            Some(idv) => if !(idv is String) {
                Err(DecodeError::WrongType)
            } else {
                match spec_lookup(e, "username"@) {
                    None => Err(DecodeError::MissingField),
                    Some(unv) => if !(unv is String) {
                        Err(DecodeError::WrongType)
                    } else {
                        match spec_lookup(e, "password"@) {
                            None => Err(DecodeError::MissingField),
                            Some(pwv) => if !(pwv is String) {
                                Err(DecodeError::WrongType)
                            } else {
                                match spec_lookup(e, "created_at"@) {
                                    None => Err(DecodeError::MissingField),
                                    Some(cav) => if !(cav is Number) {
                                        Err(DecodeError::WrongType)
                                    } else {
                                        match spec_lookup(e, "updated_at"@) {
                                            None => Err(DecodeError::MissingField),
                                            Some(uav) => if !(uav is Number) {
                                                Err(DecodeError::WrongType)
                                            } else {
                                                Ok(
                                                    AuthView {
                                                        id: idv->String_0,
                                                        username: unv->String_0,
                                                        password: pwv->String_0,
                                                        metadata: match spec_lookup(
                                                            e,
                                                            "metadata"@,
                                                        ) {
                                                            None => None,
                                                            Some(m) => if m is Null {
                                                                None
                                                            } else {
                                                                Some(m)
                                                            },
                                                        },
                                                        created_at: cav->Number_0,
                                                        updated_at: uav->Number_0,
                                                    },
                                                )
                                            },
                                        }
                                    },
                                }
                            },
                        }
                    },
                }
            },
        }
    }
}

/// Reveals the view of every credential field name.
proof fn reveal_auth_keys()
    ensures
        "id"@ =~= seq!['i', 'd'],
        "username"@ =~= seq!['u', 's', 'e', 'r', 'n', 'a', 'm', 'e'],
        "password"@ =~= seq!['p', 'a', 's', 's', 'w', 'o', 'r', 'd'],
        "metadata"@ =~= seq!['m', 'e', 't', 'a', 'd', 'a', 't', 'a'],
        "created_at"@ =~= seq!['c', 'r', 'e', 'a', 't', 'e', 'd', '_', 'a', 't'],
        "updated_at"@ =~= seq!['u', 'p', 'd', 'a', 't', 'e', 'd', '_', 'a', 't'],
{
    reveal_strlit("id");
    reveal_strlit("username");
    reveal_strlit("password");
    reveal_strlit("metadata");
    reveal_strlit("created_at");
    reveal_strlit("updated_at");
}

/// The structured form of a well-formed credential is itself
/// well-formed: distinct keys, numbers in range.
pub proof fn lemma_auth_structured_wf(a: AuthView)
    requires
        spec_auth_wf(a),
    ensures
        spec_value_wf(spec_auth_structured(a)),
{
    reveal_auth_keys();
    let e = spec_auth_structured(a)->Object_0;
    assert(e.len() == 6);
    assert(e[0].0 != e[1].0 && e[0].0 != e[2].0 && e[0].0 != e[3].0 && e[0].0 != e[4].0 && e[0].0
        != e[5].0);
    assert(e[1].0 != e[2].0 && e[1].0 != e[3].0 && e[1].0 != e[4].0 && e[1].0 != e[5].0);
    assert(e[2].0 != e[3].0 && e[2].0 != e[4].0 && e[2].0 != e[5].0);
    assert(e[3].0 != e[4].0 && e[3].0 != e[5].0);
    assert(e[4].0 != e[5].0);
    assert(spec_value_wf(e[0].1) && spec_value_wf(e[1].1) && spec_value_wf(e[2].1)
        && spec_value_wf(e[3].1) && spec_value_wf(e[4].1) && spec_value_wf(e[5].1));
    assert forall|i: int, j: int| 0 <= i < j < e.len() implies (#[trigger] e[i]).0 != (
    #[trigger] e[j]).0 by {
        assert(0 <= i < 6 && 0 <= j < 6);
    }
    assert forall|i: int| 0 <= i < e.len() implies spec_value_wf((#[trigger] e[i]).1) by {
        assert(0 <= i < 6);
    }
}

/// Reading back the structured form of a credential gives the
/// credential: the typed record layer loses nothing.
pub proof fn lemma_auth_from_structured(a: AuthView)
    requires
        spec_auth_wf(a),
    ensures
        spec_auth_from(spec_auth_structured(a)) == Ok::<AuthView, DecodeError>(a),
{
    reveal_auth_keys();
    let e = spec_auth_structured(a)->Object_0;
    crate::record::lemma_lookup_first_match(e, "id"@, 0);
    crate::record::lemma_lookup_first_match(e, "username"@, 1);
    crate::record::lemma_lookup_first_match(e, "password"@, 2);
    crate::record::lemma_lookup_first_match(e, "metadata"@, 3);
    crate::record::lemma_lookup_first_match(e, "created_at"@, 4);
    crate::record::lemma_lookup_first_match(e, "updated_at"@, 5);
}

impl Auth {
    /// The structured (object-shaped) form of this credential.
    pub fn to_structured(&self) -> (r: StructuredValue)
        ensures
            sval(r) == spec_auth_structured(self@),
    {
        let mut fields: Vec<(String, StructuredValue)> = Vec::new();
        fields.push(("id".to_owned(), StructuredValue::String(self.id.clone())));
        fields.push(("username".to_owned(), StructuredValue::String(self.username.clone())));
        fields.push(("password".to_owned(), StructuredValue::String(self.password.clone())));
        let metadata = match &self.metadata {
            Option::None => StructuredValue::Null,
            Option::Some(m) => clone_value(m),
        };
        fields.push(("metadata".to_owned(), metadata));
        fields.push(("created_at".to_owned(), StructuredValue::Number(self.created_at)));
        fields.push(("updated_at".to_owned(), StructuredValue::Number(self.updated_at)));
        proof {
            lemma_sentries_index(fields@);
            let target = spec_auth_structured(self@)->Object_0;
            assert(fields@.len() == 6);
            assert(sentries(fields@)[0] == (fields@[0].0@, sval(fields@[0].1)));
            assert(sentries(fields@)[1] == (fields@[1].0@, sval(fields@[1].1)));
            assert(sentries(fields@)[2] == (fields@[2].0@, sval(fields@[2].1)));
            assert(sentries(fields@)[3] == (fields@[3].0@, sval(fields@[3].1)));
            assert(sentries(fields@)[4] == (fields@[4].0@, sval(fields@[4].1)));
            assert(sentries(fields@)[5] == (fields@[5].0@, sval(fields@[5].1)));
            assert(sentries(fields@)[0] == target[0]);
            assert(sentries(fields@)[1] == target[1]);
            assert(sentries(fields@)[2] == target[2]);
            assert(sentries(fields@)[3] == target[3]);
            assert(sentries(fields@)[4] == target[4]);
            assert(sentries(fields@)[5] == target[5]);
            assert(sentries(fields@) =~= target);
        }
        StructuredValue::Object(fields)
    }

    /// Reads a credential out of a structured value; `null` metadata
    /// reads as absent.
    pub fn from_structured(v: &StructuredValue) -> (r: Result<Auth, DecodeError>)
        ensures
            match r {
                Ok(a) => spec_auth_from(sval(*v)) == Ok::<AuthView, DecodeError>(a@),
                Err(e) => spec_auth_from(sval(*v)) == Err::<AuthView, DecodeError>(e),
            },
    {
        let entries = match v {
            StructuredValue::Object(entries) => entries,
            _ => {
                return Err(DecodeError::WrongType);
            },
        };
        let id = match get_field(entries, "id") {
            Option::None => {
                return Err(DecodeError::MissingField);
            },
            Option::Some(StructuredValue::String(s)) => s.clone(),
            Option::Some(_) => {
                return Err(DecodeError::WrongType);
            },
        };
        let username = match get_field(entries, "username") {
            Option::None => {
                return Err(DecodeError::MissingField);
            },
            Option::Some(StructuredValue::String(s)) => s.clone(),
            Option::Some(_) => {
                return Err(DecodeError::WrongType);
            },
        };
        let password = match get_field(entries, "password") {
            Option::None => {
                return Err(DecodeError::MissingField);
            },
            Option::Some(StructuredValue::String(s)) => s.clone(),
            Option::Some(_) => {
                return Err(DecodeError::WrongType);
            },
        };
        let created_at = match get_field(entries, "created_at") {
            Option::None => {
                return Err(DecodeError::MissingField);
            },
            Option::Some(StructuredValue::Number(n)) => *n,
            Option::Some(_) => {
                return Err(DecodeError::WrongType);
            },
        };
        let updated_at = match get_field(entries, "updated_at") {
            Option::None => {
                return Err(DecodeError::MissingField);
            },
            Option::Some(StructuredValue::Number(n)) => *n,
            Option::Some(_) => {
                return Err(DecodeError::WrongType);
            },
        };
        let metadata = match get_field(entries, "metadata") {
            Option::None => None,
            Option::Some(StructuredValue::Null) => None,
            Option::Some(m) => Some(clone_value(m)),
        };
        Ok(Auth { id, username, password, metadata, created_at, updated_at })
    }
}

impl Clone for Auth {
    /// A deep copy that keeps the view.
    fn clone(&self) -> (r: Auth)
        ensures
            r@ == self@,
    {
        let metadata = match &self.metadata {
            Option::None => None,
            Option::Some(m) => Some(clone_value(m)),
        };
        Auth {
            id: self.id.clone(),
            username: self.username.clone(),
            password: self.password.clone(),
            metadata,
            created_at: self.created_at,
            updated_at: self.updated_at,
        }
    }
}

/// The placeholder password-hashing step: deterministic and
/// input-distinguishing, standing in for a real algorithm, whose choice
/// is out of scope here.
pub open spec fn spec_hash_password(p: Seq<char>) -> Seq<char> {
    "hashed:"@ + p
}

/// Hashes a password with the placeholder scheme.
pub fn hash_password(p: &str) -> (r: String)
    ensures
        r@ == spec_hash_password(p@),
{
    let mut s = "hashed:".to_owned();
    s.append(p);
    s
}

impl Default for Auth {
    /// A blank credential with a fresh opaque id and both timestamps set
    /// to one reading of the clock.
    fn default() -> (r: Auth)
        ensures
            is_opaque_id(r@.id),
            r@.username == Seq::<char>::empty(),
            r@.password == Seq::<char>::empty(),
            r@.metadata is None,
            r@.created_at == r@.updated_at,
    {
        let now = now_unix_millis();
        Auth {
            id: crate::record::generate_nanoid(),
            username: String::new(),
            password: String::new(),
            metadata: None,
            created_at: now,
            updated_at: now,
        }
    }
}

impl Auth {
    /// A fresh credential carrying the given login pair, not yet hashed
    /// or stored.
    pub fn new(username: String, password: String) -> (r: Auth)
        ensures
            is_opaque_id(r@.id),
            r@.username == username@,
            r@.password == password@,
            r@.metadata is None,
            r@.created_at == r@.updated_at,
    {
        let mut a = Auth::default();
        a.username = username;
        a.password = password;
        a
    }
}

/// The mathematical shape of one stored record: its attribute entries.
pub type RecordView = Seq<(Seq<char>, SpecAttr)>;

/// The mathematical shape of the credential store: stored records in
/// insertion order, each under its record id.
pub type CredStoreView = Seq<(Seq<char>, RecordView)>;

/// The encoded wire form of a credential.
pub open spec fn spec_auth_record(a: AuthView) -> RecordView {
    spec_encode_entries(spec_auth_structured(a)->Object_0)
}

/// Reading a stored credential record back through the codec and the
/// typed layer gives the credential that was written: nothing is lost
/// between a well-formed credential and its wire form.
pub proof fn lemma_auth_record_roundtrip(a: AuthView)
    requires
        spec_auth_wf(a),
    ensures
        spec_auth_from(
            SpecValue::Object(spec_decode_entries(spec_auth_record(a))),
        ) == Ok::<AuthView, DecodeError>(a),
{
    lemma_auth_structured_wf(a);
    crate::codec::lemma_decode_of_encode(spec_auth_structured(a));
    lemma_auth_from_structured(a);
}

/// The username a stored record carries, when it carries one as a plain
/// string attribute.
pub open spec fn record_username(rec: RecordView) -> Option<Seq<char>> {
    match spec_lookup(rec, "username"@) {
        Some(a) => if a is S {
            Some(a->S_0)
        } else {
            None
        },
        None => None,
    }
}

/// The stored records carrying `username`, earliest first.
pub open spec fn spec_username_matches(view: CredStoreView, username: Seq<char>) -> Seq<RecordView>
    decreases view.len(),
{
    if view.len() == 0 {
        Seq::empty()
    } else {
        let rest = spec_username_matches(view.drop_first(), username);
        if record_username(view[0].1) == Some(username) {
            seq![view[0].1] + rest
        } else {
            rest
        }
    }
}

/// An in-memory credential store: records in their wire form, keyed by
/// record id, in insertion order. It stands where the backing key-value
/// service would; every record passes through the attribute codec on
/// the way in and out.
pub struct CredentialStore {
    pub items: Vec<(String, AttributeMap)>,
}

impl View for CredentialStore {
    type V = CredStoreView;

    open spec fn view(&self) -> CredStoreView {
        self.items@.map_values(|p: (String, AttributeMap)| (p.0@, aentries(p.1@)))
    }
}

impl CredentialStore {
    /// An empty store.
    pub fn new() -> (s: CredentialStore)
        ensures
            s@.len() == 0,
    {
        CredentialStore { items: Vec::new() }
    }

    /// The index of the record stored under `id`, if any; the first
    /// match counts.
    fn find_index_by_id(&self, id: &str) -> (r: Option<usize>)
        ensures
            match r {
                Some(i) => i < self@.len() && self@[i as int].0 == id@ && spec_lookup(
                    self@,
                    id@,
                ) == Some(self@[i as int].1),
                None => spec_lookup(self@, id@) is None,
            },
    {
        let id_owned = id.to_owned();
        let mut i: usize = 0;
        while i < self.items.len()
            invariant
                i <= self@.len(),
                self@.len() == self.items@.len(),
                id_owned@ == id@,
                forall|k: int| 0 <= k < i ==> (#[trigger] self@[k]).0 != id@,
            decreases self@.len() - i,
        {
            if self.items[i].0 == id_owned {
                proof {
                    assert(self@[i as int].0 == id@);
                    crate::record::lemma_lookup_first_match(self@, id@, i as int);
                }
                return Some(i);
            }
            proof {
                assert(self@[i as int].0 == self.items@[i as int].0@);
            }
            i = i + 1;
        }
        proof {
            crate::record::lemma_lookup_none(self@, id@);
        }
        None
    }

    /// Fetches and decodes the record stored under `id`.
    pub fn get_by_id(&self, id: &str) -> (r: Result<Auth, AppError>)
        ensures
            match r {
                Ok(a) => spec_lookup(self@, id@) is Some && spec_auth_from(
                    SpecValue::Object(spec_decode_entries(spec_lookup(self@, id@)->Some_0)),
                ) == Ok::<AuthView, DecodeError>(a@),
                Err(e) => (e.kind == ErrorKind::NotFound && spec_lookup(self@, id@) is None) || (
                e.kind == ErrorKind::Internal && spec_lookup(self@, id@) is Some && spec_auth_from(
                    SpecValue::Object(spec_decode_entries(spec_lookup(self@, id@)->Some_0)),
                ) is Err),
            },
    {
        let i = match self.find_index_by_id(id) {
            Option::None => {
                return Err(AppError::not_found("no auth documents found"));
            },
            Option::Some(i) => i,
        };
        let fields = from_record(&self.items[i].1);
        let obj = StructuredValue::Object(fields);
        proof {
            assert(self@[i as int].1 == aentries(self.items@[i as int].1@));
        }
        match Auth::from_structured(&obj) {
            Ok(a) => Ok(a),
            Err(_) => Err(AppError::internal_server_error("error parsing stored record")),
        }
    }

    /// Every stored record that carries `username`, in store order, in
    /// wire form: the query a secondary index would answer.
    pub fn query_by_username(&self, username: &str) -> (r: Vec<AttributeMap>)
        ensures
            r@.map_values(|m: AttributeMap| aentries(m@)) == spec_username_matches(
                self@,
                username@,
            ),
    {
        let username_owned = username.to_owned();
        let mut out: Vec<AttributeMap> = Vec::new();
        let mut i: usize = 0;
        proof {
            assert(self@.skip(0) =~= self@);
            assert(out@.map_values(|m: AttributeMap| aentries(m@)) =~= Seq::empty());
        }
        while i < self.items.len()
            invariant
                i <= self@.len(),
                self@.len() == self.items@.len(),
                username_owned@ == username@,
                spec_username_matches(self@, username@) =~= out@.map_values(
                    |m: AttributeMap| aentries(m@),
                ) + spec_username_matches(self@.skip(i as int), username@),
            decreases self@.len() - i,
        {
            let ghost pre_out = out@;
            let is_match = match get_attr(&self.items[i].1, "username") {
                Option::Some(AttributeValue::S(s)) => *s == username_owned,
                _ => false,
            };
            proof {
                assert(self@[i as int].1 == aentries(self.items@[i as int].1@));
                assert(self@.skip(i as int)[0] == self@[i as int]);
                assert(self@.skip(i as int).drop_first() =~= self@.skip(i as int + 1));
                assert(is_match == (record_username(self@[i as int].1) == Some(username@)));
            }
            if is_match {
                let rec = clone_attribute_map(&self.items[i].1);
                out.push(rec);
                proof {
                    assert(out@.map_values(|m: AttributeMap| aentries(m@)) =~= pre_out.map_values(
                        |m: AttributeMap| aentries(m@),
                    ).push(aentries(self.items@[i as int].1@)));
                    assert(spec_username_matches(self@, username@) =~= out@.map_values(
                        |m: AttributeMap| aentries(m@),
                    ) + spec_username_matches(self@.skip(i as int + 1), username@));
                }
            }
            i = i + 1;
        }
        proof {
            assert(self@.skip(i as int) =~= Seq::empty());
            assert(spec_username_matches(self@, username@) =~= out@.map_values(
                |m: AttributeMap| aentries(m@),
            ));
        }
        out
    }
}

/// Copies an attribute map, keeping its view.
fn clone_attribute_map(m: &AttributeMap) -> (r: AttributeMap)
    ensures
        aentries(r@) == aentries(m@),
        r@.len() == m@.len(),
{
    let mut out: AttributeMap = Vec::new();
    let mut i: usize = 0;
    while i < m.len()
        invariant
            i <= m@.len(),
            out@.len() == i,
            forall|k: int|
                0 <= k < i ==> (#[trigger] out@[k]).0@ == m@[k].0@ && crate::attribute::aval(
                    out@[k].1,
                ) == crate::attribute::aval(m@[k].1),
        decreases m@.len() - i,
    {
        let v = clone_attribute_value(&m[i].1);
        let key = m[i].0.clone();
        out.push((key, v));
        i = i + 1;
    }
    proof {
        crate::attribute::lemma_aentries_index(out@);
        crate::attribute::lemma_aentries_index(m@);
        assert forall|k: int| 0 <= k < out@.len() implies aentries(out@)[k] == aentries(m@)[k] by {
            assert(out@[k].0@ == m@[k].0@);
            assert(crate::attribute::aval(out@[k].1) == crate::attribute::aval(m@[k].1));
        }
        assert(aentries(out@) =~= aentries(m@));
    }
    out
}

/// Copies an attribute value, keeping its view.
#[verifier::loop_isolation(false)]
fn clone_attribute_value(a: &AttributeValue) -> (r: AttributeValue)
    ensures
        crate::attribute::aval(r) == crate::attribute::aval(*a),
    decreases *a,
{
    match a {
        AttributeValue::Bool(b) => AttributeValue::Bool(*b),
        AttributeValue::N(s) => AttributeValue::N(s.clone()),
        AttributeValue::S(s) => AttributeValue::S(s.clone()),
        AttributeValue::Null => AttributeValue::Null,
        AttributeValue::Unsupported => AttributeValue::Unsupported,
        AttributeValue::Ns(ss) => AttributeValue::Ns(clone_strings(ss)),
        AttributeValue::Ss(ss) => AttributeValue::Ss(clone_strings(ss)),
        AttributeValue::L(items) => {
            let mut out: Vec<AttributeValue> = Vec::new();
            let mut i: usize = 0;
            while i < items.len()
                invariant
                    i <= items@.len(),
                    out@.len() == i,
                    forall|k: int|
                        0 <= k < i ==> crate::attribute::aval(#[trigger] out@[k])
                            == crate::attribute::aval(items@[k]),
                decreases items@.len() - i,
            {
                let c = clone_attribute_value(&items[i]);
                out.push(c);
                i = i + 1;
            }
            proof {
                crate::attribute::lemma_avals_index(out@);
                crate::attribute::lemma_avals_index(items@);
                assert forall|k: int| 0 <= k < out@.len() implies crate::attribute::avals(
                    out@,
                )[k] == crate::attribute::avals(items@)[k] by {
                    assert(crate::attribute::aval(out@[k]) == crate::attribute::aval(items@[k]));
                }
                assert(crate::attribute::avals(out@) =~= crate::attribute::avals(items@));
            }
            AttributeValue::L(out)
        },
        AttributeValue::M(entries) => {
            let mut out: Vec<(String, AttributeValue)> = Vec::new();
            let mut i: usize = 0;
            while i < entries.len()
                invariant
                    i <= entries@.len(),
                    out@.len() == i,
                    forall|k: int|
                        0 <= k < i ==> (#[trigger] out@[k]).0@ == entries@[k].0@
                            && crate::attribute::aval(out@[k].1) == crate::attribute::aval(
                            entries@[k].1,
                        ),
                decreases entries@.len() - i,
            {
                let c = clone_attribute_value(&entries[i].1);
                let key = entries[i].0.clone();
                out.push((key, c));
                i = i + 1;
            }
            proof {
                crate::attribute::lemma_aentries_index(out@);
                crate::attribute::lemma_aentries_index(entries@);
                assert forall|k: int| 0 <= k < out@.len() implies aentries(out@)[k] == aentries(
                    entries@,
                )[k] by {
                    assert(out@[k].0@ == entries@[k].0@);
                    assert(crate::attribute::aval(out@[k].1) == crate::attribute::aval(
                        entries@[k].1,
                    ));
                }
                assert(aentries(out@) =~= aentries(entries@));
            }
            AttributeValue::M(out)
        },
    }
}

/// Copies a vector of strings, keeping its views.
fn clone_strings(ss: &Vec<String>) -> (r: Vec<String>)
    ensures
        crate::attribute::strs_view(r@) == crate::attribute::strs_view(ss@),
{
    let mut out: Vec<String> = Vec::new();
    let mut i: usize = 0;
    while i < ss.len()
        invariant
            i <= ss@.len(),
            out@.len() == i,
            forall|k: int| 0 <= k < i ==> (#[trigger] out@[k])@ == ss@[k]@,
        decreases ss@.len() - i,
    {
        out.push(ss[i].clone());
        i = i + 1;
    }
    proof {
        assert(crate::attribute::strs_view(out@) =~= crate::attribute::strs_view(ss@));
    }
    out
}

impl Auth {
    /// Registers this credential. Fails with `Conflict` when the
    /// username, or (improbably) the generated id, is already taken;
    /// otherwise hashes the password in place and appends the record,
    /// in wire form, to the store.
    pub fn register(&mut self, store: &mut CredentialStore) -> (r: Result<Auth, AppError>)
        ensures
            match r {
                Ok(a) => {
                    &&& spec_username_matches(old(store)@, old(self)@.username).len() == 0
                    &&& spec_lookup(old(store)@, old(self)@.id) is None
                    &&& final(self)@ == (AuthView {
                        password: spec_hash_password(old(self)@.password),
                        ..old(self)@
                    })
                    &&& a@ == final(self)@
                    &&& final(store)@ =~= old(store)@.push(
                        (old(self)@.id, spec_auth_record(final(self)@)),
                    )
                },
                Err(e) => {
                    &&& e.kind == ErrorKind::Conflict
                    &&& (spec_username_matches(old(store)@, old(self)@.username).len() > 0
                        || spec_lookup(old(store)@, old(self)@.id) is Some)
                    &&& final(self)@ == old(self)@
                    &&& final(store)@ == old(store)@
                },
            },
    {
        let matches = store.query_by_username(self.username.as_str());
        if matches.len() > 0 {
            proof {
                assert(spec_username_matches(store@, self@.username).len() == matches@.len());
            }
            return Err(AppError::conflict("username taken"));
        }
        proof {
            assert(spec_username_matches(store@, self@.username).len() == matches@.len());
        }
        if let Option::Some(_) = store.find_index_by_id(self.id.as_str()) {
            return Err(AppError::conflict("id taken"));
        }
        let hashed = hash_password(self.password.as_str());
        self.password = hashed;
        let structured = self.to_structured();
        let m = match to_record(&structured) {
            Ok(m) => m,
            Err(_) => {
                proof {
                    assert(false);
                }
                return Err(AppError::conflict("record did not encode"));
            },
        };
        let ghost pre = store@;
        store.items.push((self.id.clone(), m));
        proof {
            assert(store@ =~= pre.push((self@.id, aentries(m@))));
        }
        Ok(self.clone())
    }
}

impl CredentialStore {
    /// Looks a credential up by username and verifies the password
    /// against the stored hash: `NotFound` when no record carries the
    /// username, `Unauthorized` when the password does not match, and
    /// `Internal` when the stored record does not decode.
    pub fn login(&self, username: &str, password: &str) -> (r: Result<Auth, AppError>)
        ensures
            match r {
                Ok(a) => {
                    &&& spec_username_matches(self@, username@).len() > 0
                    &&& spec_auth_from(
                        SpecValue::Object(
                            spec_decode_entries(spec_username_matches(self@, username@)[0]),
                        ),
                    ) == Ok::<AuthView, DecodeError>(a@)
                    &&& a@.password == spec_hash_password(password@)
                },
                Err(e) => {
                    ||| (e.kind == ErrorKind::NotFound && spec_username_matches(
                        self@,
                        username@,
                    ).len() == 0)
                    ||| (e.kind == ErrorKind::Internal && spec_username_matches(
                        self@,
                        username@,
                    ).len() > 0 && spec_auth_from(
                        SpecValue::Object(
                            spec_decode_entries(spec_username_matches(self@, username@)[0]),
                        ),
                    ) is Err)
                    ||| (e.kind == ErrorKind::Unauthorized && spec_username_matches(
                        self@,
                        username@,
                    ).len() > 0 && match spec_auth_from(
                        SpecValue::Object(
                            spec_decode_entries(spec_username_matches(self@, username@)[0]),
                        ),
                    ) {
                        Ok(a) => a.password != spec_hash_password(password@),
                        Err(_) => false,
                    })
                },
            },
    {
        let matches = self.query_by_username(username);
        if matches.len() == 0 {
            proof {
                assert(spec_username_matches(self@, username@).len() == matches@.len());
            }
            return Err(AppError::not_found("username not found"));
        }
        proof {
            assert(spec_username_matches(self@, username@)[0] == aentries(matches@[0]@));
        }
        let fields = from_record(&matches[0]);
        let obj = StructuredValue::Object(fields);
        let a = match Auth::from_structured(&obj) {
            Ok(a) => a,
            Err(_) => {
                return Err(AppError::internal_server_error("error parsing stored record"));
            },
        };
        let hashed = hash_password(password);
        if a.password == hashed {
            Ok(a)
        } else {
            Err(AppError::unauthorized("invalid credentials"))
        }
    }

    /// Removes every record stored under `id`. Idempotent: deleting an
    /// absent id succeeds and changes nothing.
    pub fn delete(&mut self, id: &str) -> (r: Result<(), AppError>)
        ensures
            r is Ok,
            final(self)@ =~= crate::record::spec_without_key(old(self)@, id@),
    {
        let id_owned = id.to_owned();
        let mut kept: Vec<(String, AttributeMap)> = Vec::new();
        let mut i: usize = 0;
        proof {
            assert(self@.take(0) =~= Seq::empty());
            assert(kept@.map_values(|p: (String, AttributeMap)| (p.0@, aentries(p.1@)))
                =~= Seq::empty());
        }
        while i < self.items.len()
            invariant
                i <= self@.len(),
                self@.len() == self.items@.len(),
                self@ == old(self)@,
                self.items@ == old(self).items@,
                id_owned@ == id@,
                kept@.map_values(|p: (String, AttributeMap)| (p.0@, aentries(p.1@)))
                    =~= crate::record::spec_without_key(self@.take(i as int), id@),
            decreases self@.len() - i,
        {
            let ghost pre_kept = kept@;
            let ghost cur = self@.take(i as int + 1);
            proof {
                assert(cur.drop_last() =~= self@.take(i as int));
                assert(cur.last() == self@[i as int]);
                assert(self@[i as int].0 == self.items@[i as int].0@);
            }
            if !(self.items[i].0 == id_owned) {
                let key = self.items[i].0.clone();
                let rec = clone_attribute_map(&self.items[i].1);
                kept.push((key, rec));
                proof {
                    assert(kept@.map_values(|p: (String, AttributeMap)| (p.0@, aentries(p.1@)))
                        =~= pre_kept.map_values(
                        |p: (String, AttributeMap)| (p.0@, aentries(p.1@)),
                    ).push((self@[i as int].0, self@[i as int].1)));
                }
            }
            i = i + 1;
        }
        proof {
            assert(self@.take(i as int) =~= self@);
        }
        self.items = kept;
        Ok(())
    }

    /// Writes a record: removes whatever was stored under the
    /// credential's id and appends the credential in wire form.
    pub fn put(&mut self, auth: &Auth) -> (r: Result<Auth, AppError>)
        ensures
            r matches Ok(a) && a@ == auth@,
            final(self)@ =~= crate::record::spec_without_key(old(self)@, auth@.id).push(
                (auth@.id, spec_auth_record(auth@)),
            ),
    {
        let delete_outcome = self.delete(auth.id.as_str());
        proof {
            assert(delete_outcome is Ok);
        }
        let structured = auth.to_structured();
        let m = match to_record(&structured) {
            Ok(m) => m,
            Err(_) => {
                proof {
                    assert(false);
                }
                return Err(AppError::internal_server_error("record did not encode"));
            },
        };
        let ghost pre = self@;
        self.items.push((auth.id.clone(), m));
        proof {
            assert(self@ =~= pre.push((auth@.id, aentries(m@))));
        }
        Ok(auth.clone())
    }
}

} // verus!
