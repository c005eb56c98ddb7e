//! Typed-record (de)serialization over the attribute codec.
//!
//! A record is anything fully representable as a string-keyed map of
//! structured values. Encoding a record demands that its structured form
//! is object-shaped; anything else is rejected with
//! [`EncodeError::NotAnObject`] rather than silently wrapped. Decoding
//! reassembles a map value-wise; typing errors surface per record type
//! as a [`DecodeError`].
//!
//! Records that need a fresh opaque identifier draw a 20-character id
//! from a 26-symbol uppercase alphabet: large enough that billions of
//! ids could be minted before a one-percent collision chance.

use vstd::prelude::*;

use crate::attribute::{aentries, AttributeMap, SpecAttr};
use crate::errors::{AppError, ErrorKind};
use crate::codec::{decode, encode, spec_decode_entries, spec_encode_entries};
use crate::structured::{lemma_sentries_index, sentries, sval, SpecValue, StructuredValue};

verus! {

/// Why a record could not be encoded.
#[derive(Clone, Copy, Debug, PartialEq, Eq, Structural)]
pub enum EncodeError {
    /// The record's structured form is not object-shaped.
    NotAnObject,
}

/// Why a record could not be decoded.
#[derive(Clone, Copy, Debug, PartialEq, Eq, Structural)]
pub enum DecodeError {
    /// A required field is absent.
    MissingField,
    /// A field is present with the wrong shape.
    WrongType,
}

/// Encodes a record's structured form into an attribute map. The form
/// must be object-shaped; every field is encoded by the attribute codec.
pub fn to_record(v: &StructuredValue) -> (r: Result<AttributeMap, EncodeError>)
    ensures
        match r {
            Ok(m) => sval(*v) is Object && aentries(m@) == spec_encode_entries(
                sval(*v)->Object_0,
            ),
            Err(e) => !(sval(*v) is Object) && e == EncodeError::NotAnObject,
        },
{
    match v {
        StructuredValue::Object(_) => {
            let encoded = encode(v);
            match encoded {
                AttributeValue::M(m) => Ok(m),
                _ => {
                    proof {
                        assert(false);
                    }
                    Err(EncodeError::NotAnObject)
                },
            }
        },
        _ => Err(EncodeError::NotAnObject),
    }
}

use crate::attribute::AttributeValue;

/// Decodes an attribute map back into structured fields, value-wise,
/// preserving keys. Total: field-level problems degrade to zero or null
/// inside the codec and never abort the record.
pub fn from_record(m: &AttributeMap) -> (r: Vec<(String, StructuredValue)>)
    ensures
        sentries(r@) == spec_decode_entries(aentries(m@)),
{
    let mut out: Vec<(String, StructuredValue)> = Vec::new();
    let mut i: usize = 0;
    while i < m.len()
        invariant
            i <= m@.len(),
            out@.len() == i,
            forall|k: int|
                0 <= k < i ==> (#[trigger] out@[k]).0@ == m@[k].0@ && crate::structured::sval(
                    out@[k].1,
                ) == crate::codec::spec_decode(crate::attribute::aval(m@[k].1)),
        decreases m@.len() - i,
    {
        let d = decode(&m[i].1);
        let key = m[i].0.clone();
        out.push((key, d));
        i = i + 1;
    }
    proof {
        crate::attribute::lemma_aentries_index(m@);
        crate::codec::lemma_decode_entries_index(aentries(m@));
        lemma_sentries_index(out@);
        assert forall|k: int| 0 <= k < out@.len() implies sentries(out@)[k]
            == spec_decode_entries(aentries(m@))[k] by {
            assert(out@[k].0@ == m@[k].0@);
            assert(sval(out@[k].1) == crate::codec::spec_decode(crate::attribute::aval(m@[k].1)));
        }
        assert(sentries(out@) =~= spec_decode_entries(aentries(m@)));
    }
    out
}

/// The first value stored under `key`, if any.
pub open spec fn spec_lookup<T>(entries: Seq<(Seq<char>, T)>, key: Seq<char>) -> Option<T>
    decreases entries.len(),
{
    if entries.len() == 0 {
        None
    } else if entries[0].0 == key {
        Some(entries[0].1)
    } else {
        spec_lookup(entries.drop_first(), key)
    }
}

/// A lookup that finds no matching key anywhere returns nothing.
pub proof fn lemma_lookup_none<T>(entries: Seq<(Seq<char>, T)>, key: Seq<char>)
    requires
        forall|k: int| 0 <= k < entries.len() ==> (#[trigger] entries[k]).0 != key,
    ensures
        spec_lookup(entries, key) is None,
    decreases entries.len(),
{
    if entries.len() > 0 {
        assert(forall|k: int|
            0 <= k < entries.drop_first().len() ==> (#[trigger] entries.drop_first()[k]).0
                == entries[k + 1].0);
        lemma_lookup_none(entries.drop_first(), key);
    }
}

/// A lookup returns the first match.
pub proof fn lemma_lookup_first_match<T>(entries: Seq<(Seq<char>, T)>, key: Seq<char>, i: int)
    requires
        0 <= i < entries.len(),
        forall|k: int| 0 <= k < i ==> (#[trigger] entries[k]).0 != key,
        entries[i].0 == key,
    ensures
        spec_lookup(entries, key) == Some(entries[i].1),
    decreases i,
{
    if i > 0 {
        assert(forall|k: int|
            0 <= k < i - 1 ==> (#[trigger] entries.drop_first()[k]).0 == entries[k + 1].0);
        assert(entries.drop_first()[i - 1] == entries[i]);
        lemma_lookup_first_match(entries.drop_first(), key, i - 1);
    }
}

/// Finds the field stored under `key` in decoded record fields.
pub fn get_field<'a>(entries: &'a Vec<(String, StructuredValue)>, key: &str) -> (r: Option<
    &'a StructuredValue,
>)
    ensures
        match r {
            Some(v) => spec_lookup(sentries(entries@), key@) == Some(sval(*v)),
            None => spec_lookup(sentries(entries@), key@) is None,
        },
{
    let key_owned = key.to_owned();
    let mut i: usize = 0;
    while i < entries.len()
        invariant
            i <= entries@.len(),
            key_owned@ == key@,
            forall|k: int| 0 <= k < i ==> (#[trigger] entries@[k]).0@ != key@,
        decreases entries@.len() - i,
    {
        if entries[i].0 == key_owned {
            proof {
                lemma_sentries_index(entries@);
                assert forall|k: int| 0 <= k < i implies (#[trigger] sentries(entries@)[k]).0
                    != key@ by {
                    assert(entries@[k].0@ != key@);
                }
                assert(sentries(entries@)[i as int].0 == key@);
                lemma_lookup_first_match(sentries(entries@), key@, i as int);
            }
            return Some(&entries[i].1);
        }
        i = i + 1;
    }
    proof {
        lemma_sentries_index(entries@);
        assert forall|k: int| 0 <= k < sentries(entries@).len() implies (#[trigger] sentries(
            entries@,
        )[k]).0 != key@ by {
            assert(entries@[k].0@ != key@);
        }
        lemma_lookup_none(sentries(entries@), key@);
    }
    None
}

/// Whether `c` is an uppercase ASCII letter.
pub open spec fn is_upper_alpha(c: char) -> bool {
    65 <= c as u32 <= 90
}

/// Whether `s` has the shape of a generated opaque identifier: exactly
/// twenty uppercase ASCII letters.
pub open spec fn is_opaque_id(s: Seq<char>) -> bool {
    s.len() == 20 && forall|i: int| 0 <= i < s.len() ==> is_upper_alpha(#[trigger] s[i])
}

/// Relies on `nanoid::format` with nanoid's default OS random source:
/// the result is exactly `size` characters, each drawn from `alphabet`.
/// The alphabet must be ASCII and the size positive: `format` counts the
/// id it builds in bytes, so a multi-byte character could overshoot the
/// size and a size of zero would never be reached. The outcome is
/// random, so nothing more is stated of it.
#[verifier::external_body]
fn nanoid_format(alphabet: &Vec<char>, size: usize) -> (r: String)
    requires
        1 <= alphabet@.len() <= 255,
        size >= 1,
        forall|i: int| 0 <= i < alphabet@.len() ==> (#[trigger] alphabet@[i]) as u32 <= 127,
    ensures
        r@.len() == size as nat,
        forall|i: int| 0 <= i < r@.len() ==> alphabet@.contains(#[trigger] r@[i]),
{
    nanoid::format(nanoid::rngs::default, alphabet.as_slice(), size)
}

/// Draws a fresh 20-character opaque identifier from the 26-symbol
/// uppercase alphabet.
pub fn generate_nanoid() -> (r: String)
    ensures
        is_opaque_id(r@),
{
    let alphabet: Vec<char> = vec![
        'A', 'B', 'C', 'D', 'E', 'F', 'G', 'H', 'I', 'J', 'K', 'L', 'M', 'N', 'O', 'P', 'Q', 'R',
        'S', 'T', 'U', 'V', 'W', 'X', 'Y', 'Z',
    ];
    proof {
        assert forall|i: int| 0 <= i < alphabet@.len() implies (#[trigger] alphabet@[i]) as u32
            <= 127 by {}
    }
    let id = nanoid_format(&alphabet, 20);
    proof {
        assert forall|i: int| 0 <= i < id@.len() implies is_upper_alpha(#[trigger] id@[i]) by {
            let j = choose|j: int| 0 <= j < alphabet@.len() && alphabet@[j] == id@[i];
            assert(is_upper_alpha(alphabet@[j]));
        }
    }
    id
}

/// The entries that do not carry `key`, in order: what a delete leaves
/// behind.
pub open spec fn spec_without_key<T>(entries: Seq<(Seq<char>, T)>, key: Seq<char>) -> Seq<
    (Seq<char>, T),
>
    decreases entries.len(),
{
    if entries.len() == 0 {
        Seq::empty()
    } else {
        let rest = spec_without_key(entries.drop_last(), key);
        if entries.last().0 == key {
            rest
        } else {
            rest.push(entries.last())
        }
    }
}

use crate::attribute::lemma_aentries_index;
use crate::attribute::aval;

/// Finds the attribute stored under `key` in an attribute map.
pub fn get_attr<'a>(rec: &'a AttributeMap, key: &str) -> (r: Option<&'a AttributeValue>)
    ensures
        match r {
            Some(v) => spec_lookup(aentries(rec@), key@) == Some(aval(*v)),
            None => spec_lookup(aentries(rec@), key@) is None,
        },
{
    let key_owned = key.to_owned();
    let mut i: usize = 0;
    while i < rec.len()
        invariant
            i <= rec@.len(),
            key_owned@ == key@,
            forall|k: int| 0 <= k < i ==> (#[trigger] rec@[k]).0@ != key@,
        decreases rec@.len() - i,
    {
        if rec[i].0 == key_owned {
            proof {
                lemma_aentries_index(rec@);
                assert forall|k: int| 0 <= k < i implies (#[trigger] aentries(rec@)[k]).0
                    != key@ by {
                    assert(rec@[k].0@ != key@);
                }
                assert(aentries(rec@)[i as int].0 == key@);
                lemma_lookup_first_match(aentries(rec@), key@, i as int);
            }
            return Some(&rec[i].1);
        }
        i = i + 1;
    }
    proof {
        lemma_aentries_index(rec@);
        assert forall|k: int| 0 <= k < aentries(rec@).len() implies (#[trigger] aentries(
            rec@,
        )[k]).0 != key@ by {
            assert(rec@[k].0@ != key@);
        }
        lemma_lookup_none(aentries(rec@), key@);
    }
    None
}

/// Relies on `String::from_utf8`: ASCII is valid UTF-8, one character
/// per byte, so the result is the string of exactly those character
/// codes and the conversion cannot fail.
#[verifier::external_body]
pub(crate) fn ascii_bytes_to_string(b: Vec<u8>) -> (r: String)
    requires
        forall|i: int| 0 <= i < b@.len() ==> #[trigger] b@[i] < 128,
    ensures
        r@.len() == b@.len(),
        forall|i: int| 0 <= i < b@.len() ==> (#[trigger] r@[i]) as u32 == b@[i] as u32,
{
    match String::from_utf8(b) {
        Ok(s) => s,
        Err(_) => String::new(),
    }
}

/// Reads a required string attribute: the key must be present and hold
/// a plain string.
pub fn s(rec: &AttributeMap, key: &str) -> (r: Result<String, AppError>)
    ensures
        match r {
            Ok(v) => spec_lookup(aentries(rec@), key@) == Some(SpecAttr::S(v@)),
            Err(e) => e.kind == ErrorKind::Internal && match spec_lookup(aentries(rec@), key@) {
                None => true,
                Some(a) => !(a is S),
            },
        },
{
    match get_attr(rec, key) {
        Option::None => Err(AppError::internal_server_error("missing attribute")),
        Option::Some(AttributeValue::S(v)) => Ok(v.clone()),
        Option::Some(_) => Err(AppError::internal_server_error("attribute is not a string")),
    }
}

/// Reads an optional string attribute: an absent key is not an error,
/// a present key must hold a plain string.
pub fn s_option(rec: &AttributeMap, key: &str) -> (r: Result<Option<String>, AppError>)
    ensures
        match r {
            Ok(v) => match v {
                None => spec_lookup(aentries(rec@), key@) is None,
                Some(x) => spec_lookup(aentries(rec@), key@) == Some(SpecAttr::S(x@)),
            },
            Err(e) => e.kind == ErrorKind::Internal && match spec_lookup(aentries(rec@), key@) {
                None => false,
                Some(a) => !(a is S),
            },
        },
{
    match get_attr(rec, key) {
        Option::None => Ok(None),
        Option::Some(AttributeValue::S(v)) => Ok(Some(v.clone())),
        Option::Some(_) => Err(AppError::internal_server_error("attribute is not a string")),
    }
}

/// Reads a required numeric attribute: the key must be present, hold a
/// number, and the number string must parse.
pub fn n(rec: &AttributeMap, key: &str) -> (r: Result<i64, AppError>)
    ensures
        match r {
            Ok(v) => match spec_lookup(aentries(rec@), key@) {
                Some(a) => a is N && crate::num::spec_parse_i64(a->N_0) == Some(v as int),
                None => false,
            },
            Err(e) => e.kind == ErrorKind::Internal && match spec_lookup(aentries(rec@), key@) {
                None => true,
                Some(a) => !(a is N) || crate::num::spec_parse_i64(a->N_0) is None,
            },
        },
{
    let v = match get_attr(rec, key) {
        Option::None => {
            return Err(AppError::internal_server_error("missing attribute"));
        },
        Option::Some(AttributeValue::N(v)) => v,
        Option::Some(_) => {
            return Err(AppError::internal_server_error("attribute is not a number"));
        },
    };
    match crate::num::parse_dec_i64(v.as_str()) {
        Option::Some(parsed) => Ok(parsed),
        Option::None => Err(AppError::internal_server_error("attribute does not parse")),
    }
}

/// Reads an optional numeric attribute: an absent key is not an error,
/// a present key must hold a number that parses.
pub fn n_option(rec: &AttributeMap, key: &str) -> (r: Result<Option<i64>, AppError>)
    ensures
        match r {
            Ok(v) => match v {
                None => spec_lookup(aentries(rec@), key@) is None,
                Some(x) => match spec_lookup(aentries(rec@), key@) {
                    Some(a) => a is N && crate::num::spec_parse_i64(a->N_0) == Some(x as int),
                    None => false,
                },
            },
            Err(e) => e.kind == ErrorKind::Internal && match spec_lookup(aentries(rec@), key@) {
                None => false,
                Some(a) => !(a is N) || crate::num::spec_parse_i64(a->N_0) is None,
            },
        },
{
    let v = match get_attr(rec, key) {
        Option::None => {
            return Ok(None);
        },
        Option::Some(AttributeValue::N(v)) => v,
        Option::Some(_) => {
            return Err(AppError::internal_server_error("attribute is not a number"));
        },
    };
    match crate::num::parse_dec_i64(v.as_str()) {
        Option::Some(parsed) => Ok(Some(parsed)),
        Option::None => Err(AppError::internal_server_error("attribute does not parse")),
    }
}

} // verus!
