//! The document model: the structured values that cross the wire.
//!
//! A document is an ordered list of fields; a field is a key (UTF-8 bytes
//! without NUL) and a value. The model is closed under nesting: a value may
//! itself be a document or an array.

use vstd::prelude::*;

verus! {

broadcast use vstd::std_specs::vec::axiom_vec_index_decreases;

/// A document: an ordered list of fields.
pub type Document = Vec<Entry>;

/// One field of a document.
#[derive(Debug, PartialEq)]
pub struct Entry {
    pub key: Vec<u8>,
    pub value: Value,
}

/// A document value.
///
/// `Double` carries the raw bits of a 64-bit floating-point wire value:
/// the library moves such values through unchanged and gives them no
/// arithmetic.
#[derive(Debug, PartialEq)]
pub enum Value {
    Double(u64),
    Int32(i32),
    Int64(i64),
    DateTime(i64),
    Text(Vec<u8>),
    Bool(bool),
    Null,
    Id(Vec<u8>),
    Doc(Vec<Entry>),
    Array(Vec<Value>),
}

/// Mathematical model of a `Value`.
pub enum SpecValue {
    Double(u64),
    Int32(i32),
    Int64(i64),
    DateTime(i64),
    Text(Seq<u8>),
    Bool(bool),
    Null,
    Id(Seq<u8>),
    Doc(Seq<(Seq<u8>, SpecValue)>),
    Array(Seq<SpecValue>),
}

/// Mathematical model of a `Value`.
pub open spec fn view_value(v: Value) -> SpecValue
    decreases v,
{
    match v {
        Value::Double(b) => SpecValue::Double(b),
        Value::Int32(i) => SpecValue::Int32(i),
        Value::Int64(i) => SpecValue::Int64(i),
        Value::DateTime(t) => SpecValue::DateTime(t),
        Value::Text(b) => SpecValue::Text(b@),
        Value::Bool(b) => SpecValue::Bool(b),
        Value::Null => SpecValue::Null,
        Value::Id(b) => SpecValue::Id(b@),
        Value::Doc(es) => SpecValue::Doc(
            Seq::new(es@.len(), |i: int| if 0 <= i < es@.len() {
                (es[i].key@, view_value(es[i].value))
            } else {
                (Seq::empty(), SpecValue::Null)
            }),
        ),
        Value::Array(vs) => SpecValue::Array(
            Seq::new(vs@.len(), |i: int| if 0 <= i < vs@.len() {
                view_value(vs[i])
            } else {
                SpecValue::Null
            }),
        ),
    }
}

impl DeepView for Value {
    type V = SpecValue;

    open spec fn deep_view(&self) -> SpecValue {
        view_value(*self)
    }
}

impl DeepView for Entry {
    type V = (Seq<u8>, SpecValue);

    open spec fn deep_view(&self) -> (Seq<u8>, SpecValue) {
        (self.key@, view_value(self.value))
    }
}

/// A `Doc` value's model is the deep view of its entries.
pub proof fn lemma_doc_view(es: Vec<Entry>)
    ensures
        Value::Doc(es).deep_view() == SpecValue::Doc(es.deep_view()),
{
    let inner = view_value(Value::Doc(es))->Doc_0;
    assert forall|i: int| 0 <= i < es@.len() implies inner[i] == es.deep_view()[i] by {
        assert(inner[i] == (es[i].key@, view_value(es[i].value)));
        assert(es.deep_view()[i] == es@[i].deep_view());
    }
    assert(inner =~= es.deep_view());
}

/// An `Array` value's model is the deep view of its items.
pub proof fn lemma_array_view(vs: Vec<Value>)
    ensures
        Value::Array(vs).deep_view() == SpecValue::Array(vs.deep_view()),
{
    let inner = view_value(Value::Array(vs))->Array_0;
    assert forall|i: int| 0 <= i < vs@.len() implies inner[i] == vs.deep_view()[i] by {
        assert(inner[i] == view_value(vs[i]));
        assert(vs.deep_view()[i] == vs@[i].deep_view());
    }
    assert(inner =~= vs.deep_view());
}

/// A key may not contain NUL: on the wire it is NUL-terminated.
pub open spec fn wf_key(k: Seq<u8>) -> bool {
    forall|i: int| 0 <= i < k.len() ==> k[i] != 0u8
}

/// A value the wire format can represent.
pub open spec fn wf_value(v: SpecValue) -> bool
    decreases v, 0int,
{
    match v {
        SpecValue::Double(_) => true,
        SpecValue::Int32(_) => true,
        SpecValue::Int64(_) => true,
        SpecValue::DateTime(_) => true,
        SpecValue::Text(b) => b.len() + 1 < 0x1_0000_0000,
        SpecValue::Bool(_) => true,
        SpecValue::Null => true,
        SpecValue::Id(b) => b.len() == 12,
        SpecValue::Doc(es) => wf_doc_from(es, 0),
        SpecValue::Array(vs) => wf_items_from(vs, 0),
    }
}

/// The fields of a document are representable, from index `i` on.
pub open spec fn wf_doc_from(es: Seq<(Seq<u8>, SpecValue)>, i: int) -> bool
    decreases es, es.len() - i,
{
    if 0 <= i < es.len() {
        wf_key(es[i].0) && wf_value(es[i].1) && wf_doc_from(es, i + 1)
    } else {
        true
    }
}

/// The items of an array are representable, from index `i` on.
pub open spec fn wf_items_from(vs: Seq<SpecValue>, i: int) -> bool
    decreases vs, vs.len() - i,
{
    if 0 <= i < vs.len() {
        wf_value(vs[i]) && wf_items_from(vs, i + 1)
    } else {
        true
    }
}

/// A document the wire format can represent.
pub open spec fn wf_doc(es: Seq<(Seq<u8>, SpecValue)>) -> bool {
    wf_doc_from(es, 0)
}

proof fn lemma_wf_doc_from_entry(es: Seq<(Seq<u8>, SpecValue)>, j: int, i: int)
    requires
        wf_doc_from(es, j),
        0 <= j <= i < es.len(),
    ensures
        wf_key(es[i].0),
        wf_value(es[i].1),
    decreases i - j,
{
    if j < i {
        lemma_wf_doc_from_entry(es, j + 1, i);
    }
}

/// What a representable document gives of each of its fields.
pub proof fn lemma_wf_doc_entry(es: Seq<(Seq<u8>, SpecValue)>, i: int)
    requires
        wf_doc(es),
        0 <= i < es.len(),
    ensures
        wf_key(es[i].0),
        wf_value(es[i].1),
{
    lemma_wf_doc_from_entry(es, 0, i);
}

proof fn lemma_wf_doc_from_shift(pre: (Seq<u8>, SpecValue), es: Seq<(Seq<u8>, SpecValue)>, i: int)
    requires
        0 <= i <= es.len(),
    ensures
        wf_doc_from(es, i) == wf_doc_from(seq![pre] + es, i + 1),
    decreases es.len() - i,
{
    let whole = seq![pre] + es;
    if i < es.len() {
        assert(whole[i + 1] == es[i]);
        lemma_wf_doc_from_shift(pre, es, i + 1);
    }
}

/// Putting a representable field in front of a representable document gives
/// a representable document.
pub proof fn lemma_wf_doc_cons(k: Seq<u8>, v: SpecValue, es: Seq<(Seq<u8>, SpecValue)>)
    requires
        wf_key(k),
        wf_value(v),
        wf_doc(es),
    ensures
        wf_doc(seq![(k, v)] + es),
{
    let whole = seq![(k, v)] + es;
    lemma_wf_doc_from_shift((k, v), es, 0);
    assert(whole[0] == (k, v));
}

proof fn lemma_wf_items_from_entry(vs: Seq<SpecValue>, j: int, i: int)
    requires
        wf_items_from(vs, j),
        0 <= j <= i < vs.len(),
    ensures
        wf_value(vs[i]),
    decreases i - j,
{
    if j < i {
        lemma_wf_items_from_entry(vs, j + 1, i);
    }
}

/// What a representable array gives of each of its items.
pub proof fn lemma_wf_items_entry(vs: Seq<SpecValue>, i: int)
    requires
        wf_items_from(vs, 0),
        0 <= i < vs.len(),
    ensures
        wf_value(vs[i]),
{
    lemma_wf_items_from_entry(vs, 0, i);
}

/// An array is representable when each of its items is.
pub proof fn lemma_wf_items_pointwise(vs: Seq<SpecValue>, i: int)
    requires
        0 <= i <= vs.len(),
        forall|j: int| i <= j < vs.len() ==> wf_value(#[trigger] vs[j]),
    ensures
        wf_items_from(vs, i),
    decreases vs.len() - i,
{
    if i < vs.len() {
        assert(wf_value(vs[i]));
        lemma_wf_items_pointwise(vs, i + 1);
    }
}

} // verus!
