//! The attribute codec: a pure, total, recursive converter between the
//! store's attribute format and the structured value model.
//!
//! Decoding is fail-safe at field level: a number string that does not
//! parse decodes to zero, and an unsupported wire tag decodes to null;
//! neither ever aborts the record around it. Encoding never produces the
//! set-shaped variants: sets are a store-side write optimization, not a
//! structured value.

use vstd::prelude::*;

use crate::attribute::{aentries, aval, avals, lemma_aentries_index, lemma_avals_index,
    AttributeValue, SpecAttr};
use crate::num::{spec_i64_dec, spec_parse_i64, lemma_parse_of_dec, i64_to_dec_string,
    parse_dec_i64};
use crate::structured::{lemma_sentries_index, lemma_svals_index, sentries, spec_value_wf, sval,
    svals, SpecValue, StructuredValue};

verus! {

broadcast use vstd::std_specs::vec::axiom_vec_index_decreases, vstd::seq::axiom_seq_index_decreases, vstd::seq::axiom_seq_subrange_decreases;

/// Fail-safe numeric parse: the value of the string, or zero when it is
/// not a decimal number an `i64` can hold.
pub open spec fn spec_safe_parse(s: Seq<char>) -> int {
    match spec_parse_i64(s) {
        Some(v) => v,
        None => 0,
    }
}

/// What one attribute decodes to.
pub open spec fn spec_decode(a: SpecAttr) -> SpecValue
    decreases a,
{
    match a {
        SpecAttr::Bool(b) => SpecValue::Bool(b),
        SpecAttr::N(s) => SpecValue::Number(spec_safe_parse(s)),
        SpecAttr::S(s) => SpecValue::String(s),
        SpecAttr::L(items) => SpecValue::List(spec_decode_list(items)),
        SpecAttr::M(entries) => SpecValue::Object(spec_decode_entries(entries)),
        SpecAttr::Ns(ss) => SpecValue::List(
            ss.map_values(|s: Seq<char>| SpecValue::Number(spec_safe_parse(s))),
        ),
        SpecAttr::Ss(ss) => SpecValue::List(ss.map_values(|s: Seq<char>| SpecValue::String(s))),
        SpecAttr::Null => SpecValue::Null,
        SpecAttr::Unsupported => SpecValue::Null,
    }
}

/// Element-wise decoding of a list.
pub open spec fn spec_decode_list(items: Seq<SpecAttr>) -> Seq<SpecValue>
    decreases items,
{
    if items.len() == 0 {
        Seq::empty()
    } else {
        seq![spec_decode(items[0])] + spec_decode_list(items.drop_first())
    }
}

/// Value-wise decoding of a map, preserving keys.
pub open spec fn spec_decode_entries(entries: Seq<(Seq<char>, SpecAttr)>) -> Seq<
    (Seq<char>, SpecValue),
>
    decreases entries,
{
    if entries.len() == 0 {
        Seq::empty()
    } else {
        seq![(entries[0].0, spec_decode(entries[0].1))] + spec_decode_entries(entries.drop_first())
    }
}

/// What one structured value encodes to.
pub open spec fn spec_encode(v: SpecValue) -> SpecAttr
    decreases v,
{
    match v {
        SpecValue::Null => SpecAttr::Null,
        SpecValue::Bool(b) => SpecAttr::Bool(b),
        SpecValue::Number(n) => SpecAttr::N(spec_i64_dec(n)),
        SpecValue::String(s) => SpecAttr::S(s),
        SpecValue::List(items) => SpecAttr::L(spec_encode_list(items)),
        SpecValue::Object(entries) => SpecAttr::M(spec_encode_entries(entries)),
    }
}

/// Element-wise encoding of a list.
pub open spec fn spec_encode_list(items: Seq<SpecValue>) -> Seq<SpecAttr>
    decreases items,
{
    if items.len() == 0 {
        Seq::empty()
    } else {
        seq![spec_encode(items[0])] + spec_encode_list(items.drop_first())
    }
}

/// Value-wise encoding of a map, preserving keys.
pub open spec fn spec_encode_entries(entries: Seq<(Seq<char>, SpecValue)>) -> Seq<
    (Seq<char>, SpecAttr),
>
    decreases entries,
{
    if entries.len() == 0 {
        Seq::empty()
    } else {
        seq![(entries[0].0, spec_encode(entries[0].1))] + spec_encode_entries(entries.drop_first())
    }
}

/// `spec_decode_list` maps element-wise.
pub proof fn lemma_decode_list_index(items: Seq<SpecAttr>)
    ensures
        spec_decode_list(items).len() == items.len(),
        forall|i: int|
            0 <= i < items.len() ==> spec_decode_list(items)[i] == spec_decode(
                #[trigger] items[i],
            ),
    decreases items.len(),
{
    if items.len() > 0 {
        lemma_decode_list_index(items.drop_first());
        assert forall|i: int| 0 <= i < items.len() implies spec_decode_list(items)[i]
            == spec_decode(#[trigger] items[i]) by {
            if i > 0 {
                assert(items.drop_first()[i - 1] == items[i]);
            }
        }
    }
}

/// `spec_decode_entries` maps value-wise and preserves keys.
pub proof fn lemma_decode_entries_index(entries: Seq<(Seq<char>, SpecAttr)>)
    ensures
        spec_decode_entries(entries).len() == entries.len(),
        forall|i: int|
            0 <= i < entries.len() ==> spec_decode_entries(entries)[i] == (
            (#[trigger] entries[i]).0,
            spec_decode(entries[i].1),
            ),
    decreases entries.len(),
{
    if entries.len() > 0 {
        lemma_decode_entries_index(entries.drop_first());
        assert forall|i: int| 0 <= i < entries.len() implies spec_decode_entries(entries)[i] == (
            (#[trigger] entries[i]).0,
            spec_decode(entries[i].1),
        ) by {
            if i > 0 {
                assert(entries.drop_first()[i - 1] == entries[i]);
            }
        }
    }
}

/// `spec_encode_list` maps element-wise.
pub proof fn lemma_encode_list_index(items: Seq<SpecValue>)
    ensures
        spec_encode_list(items).len() == items.len(),
        forall|i: int|
            0 <= i < items.len() ==> spec_encode_list(items)[i] == spec_encode(
                #[trigger] items[i],
            ),
    decreases items.len(),
{
    if items.len() > 0 {
        lemma_encode_list_index(items.drop_first());
        assert forall|i: int| 0 <= i < items.len() implies spec_encode_list(items)[i]
            == spec_encode(#[trigger] items[i]) by {
            if i > 0 {
                assert(items.drop_first()[i - 1] == items[i]);
            }
        }
    }
}

/// `spec_encode_entries` maps value-wise and preserves keys.
pub proof fn lemma_encode_entries_index(entries: Seq<(Seq<char>, SpecValue)>)
    ensures
        spec_encode_entries(entries).len() == entries.len(),
        forall|i: int|
            0 <= i < entries.len() ==> spec_encode_entries(entries)[i] == (
            (#[trigger] entries[i]).0,
            spec_encode(entries[i].1),
            ),
    decreases entries.len(),
{
    if entries.len() > 0 {
        lemma_encode_entries_index(entries.drop_first());
        assert forall|i: int| 0 <= i < entries.len() implies spec_encode_entries(entries)[i] == (
            (#[trigger] entries[i]).0,
            spec_encode(entries[i].1),
        ) by {
            if i > 0 {
                assert(entries.drop_first()[i - 1] == entries[i]);
            }
        }
    }
}

/// Round trip: decoding an encoded value gives the value back, for every
/// well-formed structured value. Encoding never produces a set-shaped or
/// unsupported attribute, so no tolerance is needed beyond
/// well-formedness (numbers that fit an `i64`).
pub proof fn lemma_decode_of_encode(v: SpecValue)
    requires
        spec_value_wf(v),
    ensures
        spec_decode(spec_encode(v)) == v,
    decreases v,
{
    match v {
        SpecValue::Number(n) => {
            lemma_parse_of_dec(n);
        },
        SpecValue::List(items) => {
            lemma_encode_list_index(items);
            lemma_decode_list_index(spec_encode_list(items));
            assert forall|i: int| 0 <= i < items.len() implies spec_decode_list(
                spec_encode_list(items),
            )[i] == items[i] by {
                assert(spec_value_wf(items[i]));
                lemma_decode_of_encode(items[i]);
            }
            assert(spec_decode_list(spec_encode_list(items)) =~= items);
        },
        SpecValue::Object(entries) => {
            lemma_encode_entries_index(entries);
            lemma_decode_entries_index(spec_encode_entries(entries));
            assert forall|i: int| 0 <= i < entries.len() implies spec_decode_entries(
                spec_encode_entries(entries),
            )[i] == entries[i] by {
                assert(spec_value_wf(entries[i].1));
                lemma_decode_of_encode(entries[i].1);
            }
            assert(spec_decode_entries(spec_encode_entries(entries)) =~= entries);
        },
        _ => {},
    }
}

/// Fail-safe numeric decode, in isolation: a number-tagged attribute
/// whose string does not parse decodes to zero for that field alone;
/// every sibling of a map decodes exactly as it would on its own, and
/// keys are preserved.
pub proof fn lemma_failsafe_numeric_decode(entries: Seq<(Seq<char>, SpecAttr)>, i: int)
    requires
        0 <= i < entries.len(),
        entries[i].1 is N,
        spec_parse_i64(entries[i].1->N_0) is None,
    ensures
        spec_decode(SpecAttr::M(entries)) is Object,
        spec_decode(SpecAttr::M(entries))->Object_0.len() == entries.len(),
        spec_decode(SpecAttr::M(entries))->Object_0[i] == (
            entries[i].0,
            SpecValue::Number(0),
        ),
        forall|k: int|
            0 <= k < entries.len() ==> spec_decode(SpecAttr::M(entries))->Object_0[k] == (
            (#[trigger] entries[k]).0,
            spec_decode(entries[k].1),
            ),
{
    lemma_decode_entries_index(entries);
}

/// Parses a decimal attribute number, substituting zero on failure
/// rather than failing the record: field-level degradation is an
/// explicit policy of the codec.
pub fn safe_parse(s: &str) -> (n: i64)
    ensures
        n as int == spec_safe_parse(s@),
{
    match parse_dec_i64(s) {
        Some(v) => v,
        None => 0,
    }
}

/// Decodes one attribute value into a structured value. Total: a number
/// that does not parse becomes zero, an unsupported tag becomes null.
#[verifier::loop_isolation(false)]
pub fn decode(a: &AttributeValue) -> (r: StructuredValue)
    ensures
        sval(r) == spec_decode(aval(*a)),
    decreases *a,
{
    match a {
        AttributeValue::Bool(b) => StructuredValue::Bool(*b),
        AttributeValue::N(s) => StructuredValue::Number(safe_parse(s.as_str())),
        AttributeValue::S(s) => StructuredValue::String(s.clone()),
        AttributeValue::L(items) => {
            let mut out: Vec<StructuredValue> = Vec::new();
            let mut i: usize = 0;
            while i < items.len()
                invariant
                    i <= items@.len(),
                    out@.len() == i,
                    forall|k: int|
                        0 <= k < i ==> sval(#[trigger] out@[k]) == spec_decode(aval(items@[k])),
                decreases items@.len() - i,
            {
                let d = decode(&items[i]);
                out.push(d);
                i = i + 1;
            }
            proof {
                lemma_avals_index(items@);
                lemma_decode_list_index(avals(items@));
                lemma_svals_index(out@);
                assert forall|k: int| 0 <= k < out@.len() implies svals(out@)[k]
                    == spec_decode_list(avals(items@))[k] by {
                    assert(sval(out@[k]) == spec_decode(aval(items@[k])));
                }
                assert(svals(out@) =~= spec_decode_list(avals(items@)));
            }
            StructuredValue::List(out)
        },
        AttributeValue::M(entries) => {
            let mut out: Vec<(String, StructuredValue)> = Vec::new();
            let mut i: usize = 0;
            while i < entries.len()
                invariant
                    i <= entries@.len(),
                    out@.len() == i,
                    forall|k: int|
                        0 <= k < i ==> (#[trigger] out@[k]).0@ == entries@[k].0@ && sval(
                            out@[k].1,
                        ) == spec_decode(aval(entries@[k].1)),
                decreases entries@.len() - i,
            {
                let d = decode(&entries[i].1);
                let key = entries[i].0.clone();
                out.push((key, d));
                i = i + 1;
            }
            proof {
                lemma_aentries_index(entries@);
                lemma_decode_entries_index(aentries(entries@));
                lemma_sentries_index(out@);
                assert forall|k: int| 0 <= k < out@.len() implies sentries(out@)[k]
                    == spec_decode_entries(aentries(entries@))[k] by {
                    assert(out@[k].0@ == entries@[k].0@);
                    assert(sval(out@[k].1) == spec_decode(aval(entries@[k].1)));
                }
                assert(sentries(out@) =~= spec_decode_entries(aentries(entries@)));
            }
            StructuredValue::Object(out)
        },
        AttributeValue::Ns(ss) => {
            let mut out: Vec<StructuredValue> = Vec::new();
            let mut i: usize = 0;
            while i < ss.len()
                invariant
                    i <= ss@.len(),
                    out@.len() == i,
                    forall|k: int|
                        0 <= k < i ==> sval(#[trigger] out@[k]) == SpecValue::Number(
                            spec_safe_parse(ss@[k]@),
                        ),
                decreases ss@.len() - i,
            {
                out.push(StructuredValue::Number(safe_parse(ss[i].as_str())));
                i = i + 1;
            }
            proof {
                lemma_svals_index(out@);
                let spec_items = spec_decode(aval(*a))->List_0;
                assert(spec_items.len() == ss@.len());
                assert forall|k: int| 0 <= k < out@.len() implies svals(out@)[k]
                    == spec_items[k] by {
                    assert(crate::attribute::strs_view(ss@)[k] == ss@[k]@);
                    assert(sval(out@[k]) == SpecValue::Number(spec_safe_parse(ss@[k]@)));
                }
                assert(svals(out@) =~= spec_items);
            }
            StructuredValue::List(out)
        },
        AttributeValue::Ss(ss) => {
            let mut out: Vec<StructuredValue> = Vec::new();
            let mut i: usize = 0;
            while i < ss.len()
                invariant
                    i <= ss@.len(),
                    out@.len() == i,
                    forall|k: int|
                        0 <= k < i ==> sval(#[trigger] out@[k]) == SpecValue::String(ss@[k]@),
                decreases ss@.len() - i,
            {
                out.push(StructuredValue::String(ss[i].clone()));
                i = i + 1;
            }
            proof {
                lemma_svals_index(out@);
                let spec_items = spec_decode(aval(*a))->List_0;
                assert(spec_items.len() == ss@.len());
                assert forall|k: int| 0 <= k < out@.len() implies svals(out@)[k]
                    == spec_items[k] by {
                    assert(crate::attribute::strs_view(ss@)[k] == ss@[k]@);
                    assert(sval(out@[k]) == SpecValue::String(ss@[k]@));
                }
                assert(svals(out@) =~= spec_items);
            }
            StructuredValue::List(out)
        },
        AttributeValue::Null => StructuredValue::Null,
        AttributeValue::Unsupported => StructuredValue::Null,
    }
}

/// Encodes one structured value into an attribute value. Total; never
/// produces a set-shaped or unsupported attribute.
#[verifier::loop_isolation(false)]
pub fn encode(v: &StructuredValue) -> (r: AttributeValue)
    ensures
        aval(r) == spec_encode(sval(*v)),
    decreases *v,
{
    match v {
        StructuredValue::Null => AttributeValue::Null,
        StructuredValue::Bool(b) => AttributeValue::Bool(*b),
        StructuredValue::Number(n) => AttributeValue::N(i64_to_dec_string(*n)),
        StructuredValue::String(s) => AttributeValue::S(s.clone()),
        StructuredValue::List(items) => {
            let mut out: Vec<AttributeValue> = Vec::new();
            let mut i: usize = 0;
            while i < items.len()
                invariant
                    i <= items@.len(),
                    out@.len() == i,
                    forall|k: int|
                        0 <= k < i ==> aval(#[trigger] out@[k]) == spec_encode(sval(items@[k])),
                decreases items@.len() - i,
            {
                let e = encode(&items[i]);
                out.push(e);
                i = i + 1;
            }
            proof {
                lemma_svals_index(items@);
                lemma_encode_list_index(svals(items@));
                lemma_avals_index(out@);
                assert forall|k: int| 0 <= k < out@.len() implies avals(out@)[k]
                    == spec_encode_list(svals(items@))[k] by {
                    assert(aval(out@[k]) == spec_encode(sval(items@[k])));
                }
                assert(avals(out@) =~= spec_encode_list(svals(items@)));
            }
            AttributeValue::L(out)
        },
        StructuredValue::Object(entries) => {
            let mut out: Vec<(String, AttributeValue)> = Vec::new();
            let mut i: usize = 0;
            while i < entries.len()
                invariant
                    i <= entries@.len(),
                    out@.len() == i,
                    forall|k: int|
                        0 <= k < i ==> (#[trigger] out@[k]).0@ == entries@[k].0@ && aval(
                            out@[k].1,
                        ) == spec_encode(sval(entries@[k].1)),
                decreases entries@.len() - i,
            {
                let e = encode(&entries[i].1);
                let key = entries[i].0.clone();
                out.push((key, e));
                i = i + 1;
            }
            proof {
                lemma_sentries_index(entries@);
                lemma_encode_entries_index(sentries(entries@));
                lemma_aentries_index(out@);
                assert forall|k: int| 0 <= k < out@.len() implies aentries(out@)[k]
                    == spec_encode_entries(sentries(entries@))[k] by {
                    assert(out@[k].0@ == entries@[k].0@);
                    assert(aval(out@[k].1) == spec_encode(sval(entries@[k].1)));
                }
                assert(aentries(out@) =~= spec_encode_entries(sentries(entries@)));
            }
            AttributeValue::M(out)
        },
    }
}

} // verus!
