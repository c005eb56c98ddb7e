//! The attribute value model: the store's wire representation.
//!
//! A closed variant over booleans, decimal number strings, strings,
//! lists, string-keyed maps, homogeneous scalar sets and null. Numbers
//! are carried as decimal strings to avoid precision loss; sets are
//! unordered write-side representations that read back as lists. The
//! `Unsupported` variant stands for any wire tag this library does not
//! understand; the codec never fails a whole record over one.

use vstd::prelude::*;

verus! {

broadcast use vstd::std_specs::vec::axiom_vec_index_decreases, vstd::seq::axiom_seq_index_decreases, vstd::seq::axiom_seq_subrange_decreases;

/// A store attribute value.
#[derive(Debug)]
pub enum AttributeValue {
    Bool(bool),
    /// A number, carried as a decimal string.
    N(String),
    S(String),
    L(Vec<AttributeValue>),
    M(Vec<(String, AttributeValue)>),
    /// A set of numbers, each carried as a decimal string.
    Ns(Vec<String>),
    /// A set of strings.
    Ss(Vec<String>),
    Null,
    /// A wire tag this library does not understand.
    Unsupported,
}

/// The mathematical shape of an [`AttributeValue`].
pub enum SpecAttr {
    Bool(bool),
    N(Seq<char>),
    S(Seq<char>),
    L(Seq<SpecAttr>),
    M(Seq<(Seq<char>, SpecAttr)>),
    Ns(Seq<Seq<char>>),
    Ss(Seq<Seq<char>>),
    Null,
    Unsupported,
}

/// The views of a sequence of strings.
pub open spec fn strs_view(ss: Seq<String>) -> Seq<Seq<char>> {
    ss.map_values(|s: String| s@)
}

/// The mathematical value of an attribute value.
pub open spec fn aval(a: AttributeValue) -> SpecAttr
    decreases a,
{
    match a {
        AttributeValue::Bool(b) => SpecAttr::Bool(b),
        AttributeValue::N(s) => SpecAttr::N(s@),
        AttributeValue::S(s) => SpecAttr::S(s@),
        AttributeValue::L(items) => SpecAttr::L(avals(items@)),
        AttributeValue::M(entries) => SpecAttr::M(aentries(entries@)),
        AttributeValue::Ns(ss) => SpecAttr::Ns(strs_view(ss@)),
        AttributeValue::Ss(ss) => SpecAttr::Ss(strs_view(ss@)),
        AttributeValue::Null => SpecAttr::Null,
        AttributeValue::Unsupported => SpecAttr::Unsupported,
    }
}

/// The mathematical values of a sequence of attribute values.
pub open spec fn avals(items: Seq<AttributeValue>) -> Seq<SpecAttr>
    decreases items,
{
    if items.len() == 0 {
        Seq::empty()
    } else {
        seq![aval(items[0])] + avals(items.drop_first())
    }
}

/// The mathematical values of a sequence of keyed attribute values.
pub open spec fn aentries(entries: Seq<(String, AttributeValue)>) -> Seq<(Seq<char>, SpecAttr)>
    decreases entries,
{
    if entries.len() == 0 {
        Seq::empty()
    } else {
        seq![(entries[0].0@, aval(entries[0].1))] + aentries(entries.drop_first())
    }
}

/// `avals` maps element-wise.
pub proof fn lemma_avals_index(items: Seq<AttributeValue>)
    ensures
        avals(items).len() == items.len(),
        forall|i: int| 0 <= i < items.len() ==> avals(items)[i] == aval(#[trigger] items[i]),
    decreases items.len(),
{
    if items.len() > 0 {
        lemma_avals_index(items.drop_first());
        assert forall|i: int| 0 <= i < items.len() implies avals(items)[i] == aval(
            #[trigger] items[i],
        ) by {
            if i > 0 {
                assert(items.drop_first()[i - 1] == items[i]);
            }
        }
    }
}

/// `aentries` maps element-wise.
pub proof fn lemma_aentries_index(entries: Seq<(String, AttributeValue)>)
    ensures
        aentries(entries).len() == entries.len(),
        forall|i: int|
            0 <= i < entries.len() ==> aentries(entries)[i] == (
            (#[trigger] entries[i]).0@,
            aval(entries[i].1),
            ),
    decreases entries.len(),
{
    if entries.len() > 0 {
        lemma_aentries_index(entries.drop_first());
        assert forall|i: int| 0 <= i < entries.len() implies aentries(entries)[i] == (
            (#[trigger] entries[i]).0@,
            aval(entries[i].1),
        ) by {
            if i > 0 {
                assert(entries.drop_first()[i - 1] == entries[i]);
            }
        }
    }
}

/// An attribute map: the shape of a whole record on the wire.
pub type AttributeMap = Vec<(String, AttributeValue)>;

} // verus!
