//! The connection and collection handles, and their operations.
//!
//! Every operation decodes its wire inputs first and reports a decode
//! failure without touching the engine; a batch insert decodes every element
//! before anything is dispatched. Results come back as fixed-schema response
//! envelopes: the field set of an envelope depends only on the operation
//! kind. Each operation returns the single `Completion` its caller's
//! callback is to be fired with, exactly once, by the worker that ran it.

use vstd::prelude::*;
use crate::codec::{bson_to_hex, decode_wire, encode_wire, hex_to_bson};
use crate::dispatch::{BridgeError, Completion};
use crate::engine::{
    EngineCell, engine_delete_many, engine_delete_one, engine_find_one, engine_insert_many,
    engine_insert_one, engine_update_many, engine_update_one, open_file_engine,
    open_memory_engine, share_engine,
};
use crate::model::{
    Document, Entry, SpecValue, Value, lemma_array_view, lemma_wf_doc_cons, lemma_wf_doc_entry,
    lemma_wf_items_pointwise, wf_doc, wf_key, wf_value,
};
use crate::wire::{encode_doc, decode_doc, lemma_parse_doc_wf, parse_doc, ser_doc};

verus! {

/// The field name `inserted_id` as key bytes.
pub open spec fn key_inserted_id() -> Seq<u8> {
    seq![105u8, 110u8, 115u8, 101u8, 114u8, 116u8, 101u8, 100u8, 95u8, 105u8, 100u8]
}

/// The field name `inserted_ids` as key bytes.
pub open spec fn key_inserted_ids() -> Seq<u8> {
    seq![105u8, 110u8, 115u8, 101u8, 114u8, 116u8, 101u8, 100u8, 95u8, 105u8, 100u8, 115u8]
}

/// The field name `matched_count` as key bytes.
pub open spec fn key_matched_count() -> Seq<u8> {
    seq![109u8, 97u8, 116u8, 99u8, 104u8, 101u8, 100u8, 95u8, 99u8, 111u8, 117u8, 110u8, 116u8]
}

/// The field name `modified_count` as key bytes.
pub open spec fn key_modified_count() -> Seq<u8> {
    seq![109u8, 111u8, 100u8, 105u8, 102u8, 105u8, 101u8, 100u8, 95u8, 99u8, 111u8, 117u8, 110u8, 116u8]
}

/// The field name `deleted_count` as key bytes.
pub open spec fn key_deleted_count() -> Seq<u8> {
    seq![100u8, 101u8, 108u8, 101u8, 116u8, 101u8, 100u8, 95u8, 99u8, 111u8, 117u8, 110u8, 116u8]
}

/// The field name `results` as key bytes.
pub open spec fn key_results() -> Seq<u8> {
    seq![114u8, 101u8, 115u8, 117u8, 108u8, 116u8, 115u8]
}

pub(crate) fn key_inserted_id_exec() -> (k: Vec<u8>)
    ensures
        k@ == key_inserted_id(),
        wf_key(key_inserted_id()),
{
    let k: Vec<u8> = vec![105u8, 110u8, 115u8, 101u8, 114u8, 116u8, 101u8, 100u8, 95u8, 105u8, 100u8];
    assert(k@ =~= key_inserted_id());
    assert(wf_key(k@));
    k
}

pub(crate) fn key_inserted_ids_exec() -> (k: Vec<u8>)
    ensures
        k@ == key_inserted_ids(),
        wf_key(key_inserted_ids()),
{
    let k: Vec<u8> = vec![105u8, 110u8, 115u8, 101u8, 114u8, 116u8, 101u8, 100u8, 95u8, 105u8, 100u8, 115u8];
    assert(k@ =~= key_inserted_ids());
    assert(wf_key(k@));
    k
}

pub(crate) fn key_matched_count_exec() -> (k: Vec<u8>)
    ensures
        k@ == key_matched_count(),
        wf_key(key_matched_count()),
{
    let k: Vec<u8> = vec![109u8, 97u8, 116u8, 99u8, 104u8, 101u8, 100u8, 95u8, 99u8, 111u8, 117u8, 110u8, 116u8];
    assert(k@ =~= key_matched_count());
    assert(wf_key(k@));
    k
}

pub(crate) fn key_modified_count_exec() -> (k: Vec<u8>)
    ensures
        k@ == key_modified_count(),
        wf_key(key_modified_count()),
{
    let k: Vec<u8> = vec![109u8, 111u8, 100u8, 105u8, 102u8, 105u8, 101u8, 100u8, 95u8, 99u8, 111u8, 117u8, 110u8, 116u8];
    assert(k@ =~= key_modified_count());
    assert(wf_key(k@));
    k
}

pub(crate) fn key_deleted_count_exec() -> (k: Vec<u8>)
    ensures
        k@ == key_deleted_count(),
        wf_key(key_deleted_count()),
{
    let k: Vec<u8> = vec![100u8, 101u8, 108u8, 101u8, 116u8, 101u8, 100u8, 95u8, 99u8, 111u8, 117u8, 110u8, 116u8];
    assert(k@ =~= key_deleted_count());
    assert(wf_key(k@));
    k
}

pub(crate) fn key_results_exec() -> (k: Vec<u8>)
    ensures
        k@ == key_results(),
        wf_key(key_results()),
{
    let k: Vec<u8> = vec![114u8, 101u8, 115u8, 117u8, 108u8, 116u8, 115u8];
    assert(k@ =~= key_results());
    assert(wf_key(k@));
    k
}

/// Decode one wire input; on success also give its canonical bytes.
fn decode_input(s: &str) -> (r: Option<(Document, Vec<u8>)>)
    ensures
        r is None <==> decode_wire(s@) is None,
        r is Some ==> {
            &&& decode_wire(s@) == Some(r.unwrap().0.deep_view())
            &&& wf_doc(r.unwrap().0.deep_view())
            &&& r.unwrap().1@ == ser_doc(r.unwrap().0.deep_view())
        },
{
    match hex_to_bson(s) {
        None => None,
        Some(d) => {
            proof {
                let hb = crate::codec::hex_bytes(s@);
                lemma_parse_doc_wf(hb.unwrap());
            }
            let bytes = encode_doc(&d);
            Some((d, bytes))
        },
    }
}

/// Take the value out of an engine reply `{"v": value}`: the single field's
/// value of the parsed reply, exactly when the reply parses to a one-field
/// document.
fn unwrap_engine_value(bytes: &Vec<u8>) -> (r: Option<Value>)
    ensures
        r is Some <==> (parse_doc(bytes@) is Some && parse_doc(bytes@).unwrap().len() == 1),
        r is Some ==> {
            &&& r.unwrap().deep_view() == parse_doc(bytes@).unwrap()[0].1
            &&& wf_value(r.unwrap().deep_view())
        },
{
    match decode_doc(bytes) {
        None => None,
        Some(d) => {
            if d.len() == 1 {
                proof {
                    lemma_parse_doc_wf(bytes@);
                    lemma_wf_doc_entry(d.deep_view(), 0);
                    assert(d.deep_view()[0] == d@[0].deep_view());
                }
                let mut d2 = d;
                let e = d2.remove(0);
                Some(e.value)
            } else {
                None
            }
        },
    }
}

/// An envelope with one field.
pub(crate) fn make_doc1(k: Vec<u8>, v: Value) -> (d: Document)
    requires
        wf_key(k@),
        wf_value(v.deep_view()),
    ensures
        d.deep_view() == seq![(k@, v.deep_view())],
        wf_doc(d.deep_view()),
{
    proof {
        lemma_wf_doc_cons(k@, v.deep_view(), Seq::empty());
        assert(seq![(k@, v.deep_view())] + Seq::<(Seq<u8>, SpecValue)>::empty() =~= seq![
            (k@, v.deep_view()),
        ]);
    }
    let mut d: Vec<Entry> = Vec::new();
    d.push(Entry { key: k, value: v });
    assert(d.deep_view() =~= seq![(d@[0].key@, d@[0].value.deep_view())]);
    d
}

/// An envelope with two fields.
fn make_doc2(k1: Vec<u8>, v1: Value, k2: Vec<u8>, v2: Value) -> (d: Document)
    requires
        wf_key(k1@),
        wf_value(v1.deep_view()),
        wf_key(k2@),
        wf_value(v2.deep_view()),
    ensures
        d.deep_view() == seq![(k1@, v1.deep_view()), (k2@, v2.deep_view())],
        wf_doc(d.deep_view()),
{
    proof {
        lemma_wf_doc_cons(k2@, v2.deep_view(), Seq::empty());
        assert(seq![(k2@, v2.deep_view())] + Seq::<(Seq<u8>, SpecValue)>::empty() =~= seq![
            (k2@, v2.deep_view()),
        ]);
        lemma_wf_doc_cons(k1@, v1.deep_view(), seq![(k2@, v2.deep_view())]);
        assert(seq![(k1@, v1.deep_view())] + seq![(k2@, v2.deep_view())] =~= seq![
            (k1@, v1.deep_view()),
            (k2@, v2.deep_view()),
        ]);
    }
    let mut d: Vec<Entry> = Vec::new();
    d.push(Entry { key: k1, value: v1 });
    d.push(Entry { key: k2, value: v2 });
    assert(d.deep_view() =~= seq![
        (d@[0].key@, d@[0].value.deep_view()),
        (d@[1].key@, d@[1].value.deep_view()),
    ]);
    d
}

/// The connection handle: shared ownership of one open engine instance.
pub struct InternalPoloDbClient {
    pub db: EngineCell,
}

/// A named collection bound to its connection.
pub struct InternalPoloDbCollection {
    pub name: String,
    pub db: EngineCell,
}

impl InternalPoloDbClient {
    /// Open the engine at a storage path; failure surfaces synchronously.
    pub fn new(path: &str) -> (r: Result<InternalPoloDbClient, BridgeError>)
        ensures
            r is Err ==> r->Err_0 is Engine,
    {
        match open_file_engine(path) {
            Ok(db) => Ok(InternalPoloDbClient { db }),
            Err(m) => Err(BridgeError::Engine(m)),
        }
    }

    /// Open an engine with no storage on disk, for tests and tools.
    pub fn open_memory() -> (r: Result<InternalPoloDbClient, BridgeError>)
        ensures
            r is Err ==> r->Err_0 is Engine,
    {
        match open_memory_engine() {
            Ok(db) => Ok(InternalPoloDbClient { db }),
            Err(m) => Err(BridgeError::Engine(m)),
        }
    }

    /// A collection handle bound to this connection's engine cell;
    /// synchronous, always succeeds, touches no lock.
    pub fn collection(&self, name: String) -> (c: InternalPoloDbCollection)
        ensures
            c.name@ == name@,
            c.db == self.db,
    {
        InternalPoloDbCollection { name, db: share_engine(&self.db) }
    }
}

impl InternalPoloDbCollection {
    /// Insert one wire document. Malformed input fails before any dispatch;
    /// success delivers the envelope `{inserted_id}`.
    pub fn insert_one(&self, doc: &str) -> (c: Completion)
        ensures
            decode_wire(doc@) is None <==> c matches Completion::Failed(BridgeError::Decode),
            c matches Completion::Done(w) ==> {
                &&& decode_wire(doc@) is Some
                &&& w is Some
                &&& exists|idv: SpecValue|
                    #![auto]
                    wf_value(idv) && w.unwrap()@ == encode_wire(seq![(key_inserted_id(), idv)])
            },
    {
        match decode_input(doc) {
            None => Completion::Failed(BridgeError::Decode),
            Some((_d, bytes)) => match engine_insert_one(&self.db, self.name.as_str(), &bytes) {
                Err(e) => Completion::Failed(e),
                Ok(vb) => match unwrap_engine_value(&vb) {
                    None => Completion::Failed(
                        BridgeError::Engine("engine value outside the wire model".to_string()),
                    ),
                    Some(idv) => {
                        let ghost iv = idv.deep_view();
                        let env = make_doc1(key_inserted_id_exec(), idv);
                        let w = bson_to_hex(&env);
                        assert(wf_value(iv) && w@ == encode_wire(seq![(key_inserted_id(), iv)]));
                        Completion::Done(Some(w))
                    },
                },
            },
        }
    }

    /// Insert a batch. Every element is decoded before anything is
    /// dispatched; the first malformed element fails the whole call and the
    /// engine is never invoked. Success delivers `{inserted_ids}`, one
    /// identifier per input document.
    pub fn insert_many(&self, docs: &Vec<String>) -> (c: Completion)
        ensures
            (exists|i: int|
                #![auto]
                0 <= i < docs.deep_view().len() && decode_wire(docs.deep_view()[i]) is None)
                <==> c matches Completion::Failed(BridgeError::Decode),
            c matches Completion::Done(w) ==> {
                &&& forall|i: int|
                    #![auto]
                    0 <= i < docs.deep_view().len() ==> decode_wire(docs.deep_view()[i]) is Some
                &&& w is Some
                &&& exists|ids: Seq<SpecValue>|
                    #![auto]
                    ids.len() == docs@.len() && wf_value(SpecValue::Array(ids)) && w.unwrap()@
                        == encode_wire(seq![(key_inserted_ids(), SpecValue::Array(ids))])
            },
    {
        let mut batch: Vec<Vec<u8>> = Vec::new();
        let mut i: usize = 0;
        while i < docs.len()
            invariant
                i <= docs@.len(),
                batch@.len() == i,
                forall|j: int|
                    #![auto]
                    0 <= j < i ==> decode_wire(docs.deep_view()[j]) is Some,
            decreases docs@.len() - i,
        {
            assert(docs.deep_view()[i as int] == docs@[i as int]@);
            match decode_input(docs[i].as_str()) {
                None => {
                    proof {
                        assert(decode_wire(docs.deep_view()[i as int]) is None);
                    }
                    return Completion::Failed(BridgeError::Decode);
                },
                Some((_d, bytes)) => {
                    batch.push(bytes);
                },
            }
            i = i + 1;
        }
        proof {
            assert forall|t: int|
                #![auto]
                0 <= t < docs.deep_view().len() implies decode_wire(docs.deep_view()[t])
                is Some by {}
        }
        match engine_insert_many(&self.db, self.name.as_str(), &batch) {
            Err(e) => Completion::Failed(e),
            Ok(vbs) => {
                let mut ids: Vec<Value> = Vec::new();
                let mut j: usize = 0;
                while j < vbs.len()
                    invariant
                        j <= vbs@.len(),
                        ids@.len() == j,
                        forall|t: int|
                            #![auto]
                            0 <= t < docs.deep_view().len() ==> decode_wire(docs.deep_view()[t])
                                is Some,
                        forall|t: int|
                            0 <= t < j ==> wf_value(#[trigger] ids@[t].deep_view()),
                    decreases vbs@.len() - j,
                {
                    match unwrap_engine_value(&vbs[j]) {
                        None => {
                            return Completion::Failed(
                                BridgeError::Engine(
                                    "engine value outside the wire model".to_string(),
                                ),
                            );
                        },
                        Some(v) => {
                            ids.push(v);
                        },
                    }
                    j = j + 1;
                }
                proof {
                    assert forall|t: int| 0 <= t < ids.deep_view().len() implies wf_value(
                        #[trigger] ids.deep_view()[t],
                    ) by {
                        assert(ids.deep_view()[t] == ids@[t].deep_view());
                    }
                    lemma_wf_items_pointwise(ids.deep_view(), 0);
                    lemma_array_view(ids);
                }
                let ghost idsv = ids.deep_view();
                let env = make_doc1(key_inserted_ids_exec(), Value::Array(ids));
                let w = bson_to_hex(&env);
                assert(idsv.len() == docs@.len() && wf_value(SpecValue::Array(idsv)) && w@
                    == encode_wire(seq![(key_inserted_ids(), SpecValue::Array(idsv))]));
                Completion::Done(Some(w))
            },
        }
    }

    /// Look one document up. Absence of a match is a success with an empty
    /// result; a found document is re-encoded to the wire.
    pub fn find_one(&self, filter: &str) -> (c: Completion)
        ensures
            decode_wire(filter@) is None <==> c matches Completion::Failed(BridgeError::Decode),
            c matches Completion::Done(w) ==> {
                &&& decode_wire(filter@) is Some
                &&& (w is Some ==> exists|es: Seq<(Seq<u8>, SpecValue)>|
                    #![auto]
                    wf_doc(es) && w.unwrap()@ == encode_wire(es))
            },
    {
        match decode_input(filter) {
            None => Completion::Failed(BridgeError::Decode),
            Some((_d, bytes)) => match engine_find_one(&self.db, self.name.as_str(), &bytes) {
                Err(e) => Completion::Failed(e),
                Ok(None) => Completion::Done(None),
                Ok(Some(fb)) => match decode_doc(&fb) {
                    None => Completion::Failed(
                        BridgeError::Engine("engine value outside the wire model".to_string()),
                    ),
                    Some(found) => {
                        proof {
                            lemma_parse_doc_wf(fb@);
                        }
                        let ghost es = found.deep_view();
                        let w = bson_to_hex(&found);
                        assert(wf_doc(es) && w@ == encode_wire(es));
                        Completion::Done(Some(w))
                    },
                },
            },
        }
    }

    /// Update the first match. Success delivers
    /// `{matched_count, modified_count}`; this engine line reports the
    /// modified count, which also stands as the matched count.
    pub fn update_one(&self, filter: &str, update: &str) -> (c: Completion)
        ensures
            (decode_wire(filter@) is None || decode_wire(update@) is None) <==> c matches
                Completion::Failed(BridgeError::Decode),
            c matches Completion::Done(w) ==> {
                &&& decode_wire(filter@) is Some
                &&& decode_wire(update@) is Some
                &&& w is Some
                &&& exists|m: u64|
                    #![auto]
                    m <= 1 && w.unwrap()@ == counts_wire(m)
            },
    {
        let fd = decode_input(filter);
        let ud = decode_input(update);
        match (fd, ud) {
            (Some((_f, fb)), Some((_u, ub))) => {
                match engine_update_one(&self.db, self.name.as_str(), &fb, &ub) {
                    Err(e) => Completion::Failed(e),
                    Ok(m) => Completion::Done(Some(counts_envelope(m))),
                }
            },
            _ => Completion::Failed(BridgeError::Decode),
        }
    }

    /// Update every match; otherwise as `update_one`.
    pub fn update_many(&self, filter: &str, update: &str) -> (c: Completion)
        ensures
            (decode_wire(filter@) is None || decode_wire(update@) is None) <==> c matches
                Completion::Failed(BridgeError::Decode),
            c matches Completion::Done(w) ==> {
                &&& decode_wire(filter@) is Some
                &&& decode_wire(update@) is Some
                &&& w is Some
                &&& exists|m: u64| #![auto] w.unwrap()@ == counts_wire(m)
            },
    {
        let fd = decode_input(filter);
        let ud = decode_input(update);
        match (fd, ud) {
            (Some((_f, fb)), Some((_u, ub))) => {
                match engine_update_many(&self.db, self.name.as_str(), &fb, &ub) {
                    Err(e) => Completion::Failed(e),
                    Ok(m) => Completion::Done(Some(counts_envelope(m))),
                }
            },
            _ => Completion::Failed(BridgeError::Decode),
        }
    }

    /// Delete the first match. Success delivers `{deleted_count}`.
    pub fn delete_one(&self, filter: &str) -> (c: Completion)
        ensures
            decode_wire(filter@) is None <==> c matches Completion::Failed(BridgeError::Decode),
            c matches Completion::Done(w) ==> {
                &&& decode_wire(filter@) is Some
                &&& w is Some
                &&& exists|m: u64|
                    #![auto]
                    m <= 1 && w.unwrap()@ == deleted_wire(m)
            },
    {
        match decode_input(filter) {
            None => Completion::Failed(BridgeError::Decode),
            Some((_d, fb)) => match engine_delete_one(&self.db, self.name.as_str(), &fb) {
                Err(e) => Completion::Failed(e),
                Ok(m) => Completion::Done(Some(deleted_envelope(m))),
            },
        }
    }

    /// Delete every match. Success delivers `{deleted_count}`.
    pub fn delete_many(&self, filter: &str) -> (c: Completion)
        ensures
            decode_wire(filter@) is None <==> c matches Completion::Failed(BridgeError::Decode),
            c matches Completion::Done(w) ==> {
                &&& decode_wire(filter@) is Some
                &&& w is Some
                &&& exists|m: u64| #![auto] w.unwrap()@ == deleted_wire(m)
            },
    {
        match decode_input(filter) {
            None => Completion::Failed(BridgeError::Decode),
            Some((_d, fb)) => match engine_delete_many(&self.db, self.name.as_str(), &fb) {
                Err(e) => Completion::Failed(e),
                Ok(m) => Completion::Done(Some(deleted_envelope(m))),
            },
        }
    }
}

/// The wire string of the `{matched_count, modified_count}` envelope for a
/// count `m`; this engine line reports one count, standing as both fields.
pub open spec fn counts_wire(m: u64) -> Seq<char> {
    encode_wire(
        seq![
            (key_matched_count(), SpecValue::Int64(crate::wire::i64_of_u64(m))),
            (key_modified_count(), SpecValue::Int64(crate::wire::i64_of_u64(m))),
        ],
    )
}

/// The wire string of the `{deleted_count}` envelope for a count `m`.
pub open spec fn deleted_wire(m: u64) -> Seq<char> {
    encode_wire(seq![(key_deleted_count(), SpecValue::Int64(crate::wire::i64_of_u64(m)))])
}

/// The `{matched_count, modified_count}` envelope for the engine's count.
fn counts_envelope(m: u64) -> (w: String)
    ensures
        w@ == counts_wire(m),
{
    let mi: i64 = crate::wire::i64_from_u64(m);
    let env = make_doc2(
        key_matched_count_exec(),
        Value::Int64(mi),
        key_modified_count_exec(),
        Value::Int64(mi),
    );
    bson_to_hex(&env)
}

/// The `{deleted_count}` envelope for the engine's count.
fn deleted_envelope(m: u64) -> (w: String)
    ensures
        w@ == deleted_wire(m),
{
    let mi: i64 = crate::wire::i64_from_u64(m);
    let env = make_doc1(key_deleted_count_exec(), Value::Int64(mi));
    bson_to_hex(&env)
}

} // verus!
