//! The structured value model: the generic, JSON-like pivot between typed
//! records and the store's attribute format.
//!
//! A value is a closed variant: null, boolean, number, string, list or
//! string-keyed map. It is a tree, never a graph, and well-formed maps
//! carry unique keys.

use vstd::prelude::*;

verus! {

broadcast use vstd::std_specs::vec::axiom_vec_index_decreases, vstd::seq::axiom_seq_index_decreases, vstd::seq::axiom_seq_subrange_decreases;

/// A dynamically shaped value: the pivot model every record passes
/// through on its way to or from the attribute store.
#[derive(Debug)]
pub enum StructuredValue {
    Null,
    Bool(bool),
    Number(i64),
    String(String),
    List(Vec<StructuredValue>),
    Object(Vec<(String, StructuredValue)>),
}

/// The mathematical shape of a [`StructuredValue`].
pub enum SpecValue {
    Null,
    Bool(bool),
    Number(int),
    String(Seq<char>),
    List(Seq<SpecValue>),
    Object(Seq<(Seq<char>, SpecValue)>),
}

/// The mathematical value of a structured value.
pub open spec fn sval(v: StructuredValue) -> SpecValue
    decreases v,
{
    match v {
        StructuredValue::Null => SpecValue::Null,
        StructuredValue::Bool(b) => SpecValue::Bool(b),
        StructuredValue::Number(n) => SpecValue::Number(n as int),
        StructuredValue::String(s) => SpecValue::String(s@),
        StructuredValue::List(items) => SpecValue::List(svals(items@)),
        StructuredValue::Object(entries) => SpecValue::Object(sentries(entries@)),
    }
}

/// The mathematical values of a sequence of structured values.
pub open spec fn svals(items: Seq<StructuredValue>) -> Seq<SpecValue>
    decreases items,
{
    if items.len() == 0 {
        Seq::empty()
    } else {
        seq![sval(items[0])] + svals(items.drop_first())
    }
}

/// The mathematical values of a sequence of keyed structured values.
pub open spec fn sentries(entries: Seq<(String, StructuredValue)>) -> Seq<(Seq<char>, SpecValue)>
    decreases entries,
{
    if entries.len() == 0 {
        Seq::empty()
    } else {
        seq![(entries[0].0@, sval(entries[0].1))] + sentries(entries.drop_first())
    }
}

/// `svals` maps element-wise.
pub proof fn lemma_svals_index(items: Seq<StructuredValue>)
    ensures
        svals(items).len() == items.len(),
        forall|i: int| 0 <= i < items.len() ==> svals(items)[i] == sval(#[trigger] items[i]),
    decreases items.len(),
{
    if items.len() > 0 {
        lemma_svals_index(items.drop_first());
        assert forall|i: int| 0 <= i < items.len() implies svals(items)[i] == sval(
            #[trigger] items[i],
        ) by {
            if i > 0 {
                assert(items.drop_first()[i - 1] == items[i]);
            }
        }
    }
}

/// `sentries` maps element-wise.
pub proof fn lemma_sentries_index(entries: Seq<(String, StructuredValue)>)
    ensures
        sentries(entries).len() == entries.len(),
        forall|i: int|
            0 <= i < entries.len() ==> sentries(entries)[i] == (
            (#[trigger] entries[i]).0@,
            sval(entries[i].1),
            ),
    decreases entries.len(),
{
    if entries.len() > 0 {
        lemma_sentries_index(entries.drop_first());
        assert forall|i: int| 0 <= i < entries.len() implies sentries(entries)[i] == (
            (#[trigger] entries[i]).0@,
            sval(entries[i].1),
        ) by {
            if i > 0 {
                assert(entries.drop_first()[i - 1] == entries[i]);
            }
        }
    }
}

/// Well-formedness of a value: numbers fit an `i64` and map keys are
/// unique, at every nesting level.
pub open spec fn spec_value_wf(v: SpecValue) -> bool
    decreases v,
{
    match v {
        SpecValue::Null => true,
        SpecValue::Bool(_) => true,
        SpecValue::Number(n) => i64::MIN <= n <= i64::MAX,
        SpecValue::String(_) => true,
        SpecValue::List(items) => forall|i: int|
            0 <= i < items.len() ==> spec_value_wf(#[trigger] items[i]),
        SpecValue::Object(entries) => {
            &&& forall|i: int| 0 <= i < entries.len() ==> spec_value_wf((#[trigger] entries[i]).1)
            &&& forall|i: int, j: int|
                0 <= i < j < entries.len() ==> (#[trigger] entries[i]).0 != (#[trigger] entries[j]).0
        },
    }
}

/// Deep-copies a structured value.
#[verifier::loop_isolation(false)]
pub fn clone_value(v: &StructuredValue) -> (r: StructuredValue)
    ensures
        sval(r) == sval(*v),
    decreases *v,
{
    match v {
        StructuredValue::Null => StructuredValue::Null,
        StructuredValue::Bool(b) => StructuredValue::Bool(*b),
        StructuredValue::Number(n) => StructuredValue::Number(*n),
        StructuredValue::String(s) => StructuredValue::String(s.clone()),
        StructuredValue::List(items) => {
            let mut out: Vec<StructuredValue> = Vec::new();
            let mut i: usize = 0;
            while i < items.len()
                invariant
                    i <= items@.len(),
                    out@.len() == i,
                    forall|k: int| 0 <= k < i ==> sval(#[trigger] out@[k]) == sval(items@[k]),
                decreases items@.len() - i,
            {
                let c = clone_value(&items[i]);
                out.push(c);
                i = i + 1;
            }
            proof {
                lemma_svals_index(out@);
                lemma_svals_index(items@);
                assert forall|k: int| 0 <= k < out@.len() implies svals(out@)[k] == svals(
                    items@,
                )[k] by {
                    assert(sval(out@[k]) == sval(items@[k]));
                }
                assert(svals(out@) =~= svals(items@));
            }
            StructuredValue::List(out)
        },
        StructuredValue::Object(entries) => {
            let mut out: Vec<(String, StructuredValue)> = Vec::new();
            let mut i: usize = 0;
            while i < entries.len()
                invariant
                    i <= entries@.len(),
                    out@.len() == i,
                    forall|k: int|
                        0 <= k < i ==> (#[trigger] out@[k]).0@ == entries@[k].0@ && sval(
                            out@[k].1,
                        ) == sval(entries@[k].1),
                decreases entries@.len() - i,
            {
                let c = clone_value(&entries[i].1);
                let key = entries[i].0.clone();
                out.push((key, c));
                i = i + 1;
            }
            proof {
                lemma_sentries_index(out@);
                lemma_sentries_index(entries@);
                assert forall|k: int| 0 <= k < out@.len() implies sentries(out@)[k] == sentries(
                    entries@,
                )[k] by {
                    assert(out@[k].0@ == entries@[k].0@);
                    assert(sval(out@[k].1) == sval(entries@[k].1));
                }
                assert(sentries(out@) =~= sentries(entries@));
            }
            StructuredValue::Object(out)
        },
    }
}

} // verus!
