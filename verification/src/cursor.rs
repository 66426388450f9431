//! The deferred cursor builder.
//!
//! `find` decodes its filter synchronously and hands back a builder; `skip`,
//! `limit` and `sort` each record one parameter and return the same builder;
//! nothing touches the engine until `to_array`. Materialization applies the
//! accumulated parameters in a fixed order — filter (by the engine), then
//! sort, then skip, then limit — whatever order the builder calls came in.
//! This engine line returns matches unordered and unwindowed, so ordering
//! and windowing are applied here, by the sort document's first field:
//! ascending, or descending when that field's value is a negative integer.
//! Further sort keys are not interpreted.

use vstd::prelude::*;
use crate::codec::{bson_to_hex, decode_wire, encode_wire};
use crate::dispatch::{BridgeError, Completion};
use crate::engine::{EngineCell, engine_find_all, share_engine};
use crate::model::{
    Document, SpecValue, Value, lemma_array_view, lemma_wf_items_pointwise, wf_doc, wf_value,
};
use crate::wire::{decode_doc, encode_doc, lemma_parse_doc_wf, u64_of_i64};
use crate::client::{InternalPoloDbCollection, key_results, key_results_exec, make_doc1};

verus! {

/// The first Int64 field named `k`, from index `i` on.
pub open spec fn doc_key_i64(es: Seq<(Seq<u8>, SpecValue)>, k: Seq<u8>, i: int) -> Option<i64>
    decreases es.len() - i,
{
    if 0 <= i < es.len() {
        if es[i].0 == k {
            match es[i].1 {
                SpecValue::Int32(v) => Some(v as i64),
                SpecValue::Int64(v) => Some(v),
                SpecValue::DateTime(v) => Some(v),
                _ => None,
            }
        } else {
            doc_key_i64(es, k, i + 1)
        }
    } else {
        None
    }
}

/// Ordering of two ranking keys: a document without the field ranks lowest.
pub open spec fn key_le(x: Option<i64>, y: Option<i64>) -> bool {
    match (x, y) {
        (Option::None, _) => true,
        (Option::Some(_), Option::None) => false,
        (Option::Some(a), Option::Some(b)) => a <= b,
    }
}

/// Ranking by a field, ascending or descending.
pub open spec fn le_by(
    a: Seq<(Seq<u8>, SpecValue)>,
    b: Seq<(Seq<u8>, SpecValue)>,
    k: Seq<u8>,
    asc: bool,
) -> bool {
    if asc {
        key_le(doc_key_i64(a, k, 0), doc_key_i64(b, k, 0))
    } else {
        key_le(doc_key_i64(b, k, 0), doc_key_i64(a, k, 0))
    }
}

/// Insert a document into an ordered run, after its equals.
pub open spec fn insert_sorted(
    x: Seq<(Seq<u8>, SpecValue)>,
    t: Seq<Seq<(Seq<u8>, SpecValue)>>,
    k: Seq<u8>,
    asc: bool,
) -> Seq<Seq<(Seq<u8>, SpecValue)>>
    decreases t.len(),
{
    if t.len() == 0 {
        seq![x]
    } else if le_by(t[0], x, k, asc) {
        seq![t[0]] + insert_sorted(x, t.drop_first(), k, asc)
    } else {
        seq![x] + t
    }
}

/// Insertion sort by a field, in the given direction; stable.
pub open spec fn sort_by_key(s: Seq<Seq<(Seq<u8>, SpecValue)>>, k: Seq<u8>, asc: bool) -> Seq<
    Seq<(Seq<u8>, SpecValue)>,
>
    decreases s.len(),
{
    if s.len() == 0 {
        Seq::empty()
    } else {
        insert_sorted(s[0], sort_by_key(s.drop_first(), k, asc), k, asc)
    }
}

/// The direction a sort document asks for: descending exactly when its first
/// field's value is a negative integer.
pub open spec fn sort_dir(sd: Seq<(Seq<u8>, SpecValue)>) -> bool {
    match sd[0].1 {
        SpecValue::Int64(v) => v >= 0,
        _ => true,
    }
}

/// The skip/limit window of a run.
pub open spec fn window<A>(s: Seq<A>, skip: Option<u64>, limit: Option<u64>) -> Seq<A> {
    let start: int = match skip {
        Some(n) => if n as int <= s.len() {
            n as int
        } else {
            s.len() as int
        },
        None => 0,
    };
    let end: int = match limit {
        Some(n) => if start + n as int <= s.len() {
            start + n as int
        } else {
            s.len() as int
        },
        None => s.len() as int,
    };
    s.subrange(start, end)
}

/// What materializing a plan over the engine's matches yields: sort, then
/// skip, then limit, in that order.
pub open spec fn plan_results(
    found: Seq<Seq<(Seq<u8>, SpecValue)>>,
    sort: Option<Seq<(Seq<u8>, SpecValue)>>,
    skip: Option<u64>,
    limit: Option<u64>,
) -> Seq<Seq<(Seq<u8>, SpecValue)>> {
    let ordered = match sort {
        Some(sd) => if sd.len() > 0 {
            sort_by_key(found, sd[0].0, sort_dir(sd))
        } else {
            found
        },
        None => found,
    };
    window(ordered, skip, limit)
}

/// Every document of a run fits the wire model.
pub open spec fn wf_docs(s: Seq<Seq<(Seq<u8>, SpecValue)>>) -> bool {
    forall|j: int| 0 <= j < s.len() ==> wf_doc(#[trigger] s[j])
}

/// A run is ordered: each document ranks no higher than its successor.
pub open spec fn sorted_run(s: Seq<Seq<(Seq<u8>, SpecValue)>>, k: Seq<u8>, asc: bool) -> bool {
    forall|i: int| 0 <= i < s.len() - 1 ==> le_by(#[trigger] s[i], s[i + 1], k, asc)
}

proof fn lemma_le_by_total(
    a: Seq<(Seq<u8>, SpecValue)>,
    b: Seq<(Seq<u8>, SpecValue)>,
    k: Seq<u8>,
    asc: bool,
)
    ensures
        le_by(a, b, k, asc) || le_by(b, a, k, asc),
{
}

proof fn lemma_cons_multiset<A>(a: A, t: Seq<A>)
    ensures
        (seq![a] + t).to_multiset() =~= t.to_multiset().insert(a),
{
    broadcast use vstd::seq_lib::group_to_multiset_ensures;
    broadcast use vstd::multiset::group_multiset_axioms;

    let s = seq![a] + t;
    assert(s.remove(0) =~= t);
    assert(s.remove(0).to_multiset() =~= s.to_multiset().remove(s[0]));
    assert(s.contains(a)) by {
        assert(s[0] == a);
    }
    assert(s.to_multiset().count(a) > 0);
    assert forall|x: A| t.to_multiset().insert(a).count(x) == s.to_multiset().count(x) by {
        assert(t.to_multiset().count(x) == s.to_multiset().remove(s[0]).count(x));
    }
}

proof fn lemma_insert_sorted_props(
    x: Seq<(Seq<u8>, SpecValue)>,
    t: Seq<Seq<(Seq<u8>, SpecValue)>>,
    k: Seq<u8>,
    asc: bool,
)
    requires
        sorted_run(t, k, asc),
    ensures
        sorted_run(insert_sorted(x, t, k, asc), k, asc),
        insert_sorted(x, t, k, asc).to_multiset() =~= t.to_multiset().insert(x),
        insert_sorted(x, t, k, asc).len() == t.len() + 1,
    decreases t.len(),
{
    broadcast use vstd::seq_lib::group_to_multiset_ensures;
    broadcast use vstd::multiset::group_multiset_axioms;

    let r = insert_sorted(x, t, k, asc);
    if t.len() == 0 {
        assert(r =~= seq![x] + Seq::<Seq<(Seq<u8>, SpecValue)>>::empty());
        lemma_cons_multiset(x, Seq::<Seq<(Seq<u8>, SpecValue)>>::empty());
        let e = Seq::<Seq<(Seq<u8>, SpecValue)>>::empty();
        assert forall|y: Seq<(Seq<u8>, SpecValue)>| e.to_multiset().count(y) == 0 by {
            assert(!e.contains(y));
        }
        assert(e.to_multiset() =~= vstd::multiset::Multiset::empty());
    } else if le_by(t[0], x, k, asc) {
        let t2 = t.drop_first();
        assert(sorted_run(t2, k, asc)) by {
            assert forall|i: int| 0 <= i < t2.len() - 1 implies le_by(
                #[trigger] t2[i],
                t2[i + 1],
                k,
                asc,
            ) by {
                assert(t2[i] == t[i + 1] && t2[i + 1] == t[i + 2]);
            }
        }
        lemma_insert_sorted_props(x, t2, k, asc);
        let r2 = insert_sorted(x, t2, k, asc);
        assert(r == seq![t[0]] + r2);
        assert(le_by(t[0], r2[0], k, asc)) by {
            if t2.len() == 0 {
                assert(r2[0] == x);
            } else if le_by(t2[0], x, k, asc) {
                assert(r2[0] == t2[0] && t2[0] == t[1]);
            } else {
                assert(r2[0] == x);
            }
        }
        assert forall|i: int| 0 <= i < r.len() - 1 implies le_by(
            #[trigger] r[i],
            r[i + 1],
            k,
            asc,
        ) by {
            if i == 0 {
                assert(r[0] == t[0] && r[1] == r2[0]);
            } else {
                assert(r[i] == r2[i - 1] && r[i + 1] == r2[i]);
            }
        }
        lemma_cons_multiset(t[0], r2);
        assert(t =~= seq![t[0]] + t2);
        lemma_cons_multiset(t[0], t2);
        assert(r.to_multiset() =~= t.to_multiset().insert(x)) by {
            assert(r.to_multiset() =~= r2.to_multiset().insert(t[0]));
            assert(r2.to_multiset() =~= t2.to_multiset().insert(x));
            assert(t.to_multiset() =~= t2.to_multiset().insert(t[0]));
        }
    } else {
        lemma_le_by_total(t[0], x, k, asc);
        assert(le_by(x, t[0], k, asc));
        assert(r == seq![x] + t);
        assert forall|i: int| 0 <= i < r.len() - 1 implies le_by(
            #[trigger] r[i],
            r[i + 1],
            k,
            asc,
        ) by {
            if i == 0 {
                assert(r[0] == x && r[1] == t[0]);
            } else {
                assert(r[i] == t[i - 1] && r[i + 1] == t[i]);
            }
        }
        lemma_cons_multiset(x, t);
    }
}

/// Sorting orders the run and keeps exactly the same documents.
pub proof fn lemma_sort_by_key_props(s: Seq<Seq<(Seq<u8>, SpecValue)>>, k: Seq<u8>, asc: bool)
    ensures
        sorted_run(sort_by_key(s, k, asc), k, asc),
        sort_by_key(s, k, asc).to_multiset() =~= s.to_multiset(),
        sort_by_key(s, k, asc).len() == s.len(),
    decreases s.len(),
{
    broadcast use vstd::seq_lib::group_to_multiset_ensures;
    broadcast use vstd::multiset::group_multiset_axioms;

    if s.len() == 0 {
    } else {
        lemma_sort_by_key_props(s.drop_first(), k, asc);
        lemma_insert_sorted_props(s[0], sort_by_key(s.drop_first(), k, asc), k, asc);
        assert(s =~= seq![s[0]] + s.drop_first());
        lemma_cons_multiset(s[0], s.drop_first());
    }
}

/// A window of an ordered run is ordered.
proof fn lemma_window_sorted(s: Seq<Seq<(Seq<u8>, SpecValue)>>, k: Seq<u8>, asc: bool, skip: Option<
    u64,
>, limit: Option<u64>)
    requires
        sorted_run(s, k, asc),
    ensures
        sorted_run(window(s, skip, limit), k, asc),
{
    let w = window(s, skip, limit);
    assert forall|i: int| 0 <= i < w.len() - 1 implies le_by(#[trigger] w[i], w[i + 1], k, asc) by {
        let start: int = match skip {
            Some(n) => if n as int <= s.len() {
                n as int
            } else {
                s.len() as int
            },
            None => 0,
        };
        assert(w[i] == s[start + i] && w[i + 1] == s[start + i + 1]);
    }
}

/// Cursor composition: when a sort document with a key is recorded, the
/// materialized results are a contiguous skip/limit window of an ordered
/// permutation of what the engine returned — complete within the window, in
/// rank order, with nothing added.
pub proof fn lemma_plan_results_ranked(
    found: Seq<Seq<(Seq<u8>, SpecValue)>>,
    sd: Seq<(Seq<u8>, SpecValue)>,
    skip: Option<u64>,
    limit: Option<u64>,
)
    requires
        sd.len() > 0,
    ensures
        ({
            let ordered = sort_by_key(found, sd[0].0, sort_dir(sd));
            &&& ordered.to_multiset() =~= found.to_multiset()
            &&& ordered.len() == found.len()
            &&& sorted_run(ordered, sd[0].0, sort_dir(sd))
            &&& plan_results(found, Some(sd), skip, limit) == window(ordered, skip, limit)
            &&& sorted_run(plan_results(found, Some(sd), skip, limit), sd[0].0, sort_dir(sd))
        }),
{
    lemma_sort_by_key_props(found, sd[0].0, sort_dir(sd));
    lemma_window_sorted(sort_by_key(found, sd[0].0, sort_dir(sd)), sd[0].0, sort_dir(sd), skip, limit);
}

/// The wire string of the `{results}` envelope for a plan applied to what
/// the engine returned.
pub open spec fn results_wire(
    found: Seq<Seq<(Seq<u8>, SpecValue)>>,
    sort: Option<Seq<(Seq<u8>, SpecValue)>>,
    skip: Option<u64>,
    limit: Option<u64>,
) -> Seq<char> {
    encode_wire(
        seq![
            (
                key_results(),
                SpecValue::Array(
                    plan_results(found, sort, skip, limit).map_values(
                        |d: Seq<(Seq<u8>, SpecValue)>| SpecValue::Doc(d),
                    ),
                ),
            ),
        ],
    )
}

/// The recorded sort document's model, if one was recorded.
pub open spec fn sort_view(s: Option<Document>) -> Option<Seq<(Seq<u8>, SpecValue)>> {
    match s {
        Some(sd) => Some(sd.deep_view()),
        None => None,
    }
}

/// The deferred cursor: a filter plus optional skip, limit and sort,
/// applied only at materialization.
pub struct InternalPoloDbCursor {
    pub filter: Document,
    pub name: String,
    pub db: EngineCell,
    pub skip: Option<u64>,
    pub limit: Option<u64>,
    pub sort: Option<Document>,
}

impl InternalPoloDbCollection {
    /// Decode the filter synchronously and hand back a builder; no engine
    /// access happens yet.
    pub fn find(&self, filter: &str) -> (r: Result<InternalPoloDbCursor, BridgeError>)
        ensures
            r is Err <==> decode_wire(filter@) is None,
            r is Err ==> r->Err_0 is Decode,
            r is Ok ==> {
                &&& decode_wire(filter@) == Some(r->Ok_0.filter.deep_view())
                &&& r->Ok_0.name@ == self.name@
                &&& r->Ok_0.db == self.db
                &&& r->Ok_0.skip is None
                &&& r->Ok_0.limit is None
                &&& r->Ok_0.sort is None
            },
    {
        match crate::codec::hex_to_bson(filter) {
            None => Err(BridgeError::Decode),
            Some(d) => Ok(
                InternalPoloDbCursor {
                    filter: d,
                    name: self.name.clone(),
                    db: share_engine(&self.db),
                    skip: None,
                    limit: None,
                    sort: None,
                },
            ),
        }
    }
}

impl InternalPoloDbCursor {
    /// Record how many leading results to drop; counts wrap as two's
    /// complement, as the wire's signed argument does.
    pub fn skip(self, n: i64) -> (r: Self)
        ensures
            r.skip == Some(u64_of_i64(n)),
            r.limit == self.limit,
            r.sort == self.sort,
            r.filter == self.filter,
            r.name == self.name,
            r.db == self.db,
    {
        let u = crate::wire::u64_from_i64(n);
        InternalPoloDbCursor { skip: Some(u), ..self }
    }

    /// Record how many results to keep at most.
    pub fn limit(self, n: i64) -> (r: Self)
        ensures
            r.limit == Some(u64_of_i64(n)),
            r.skip == self.skip,
            r.sort == self.sort,
            r.filter == self.filter,
            r.name == self.name,
            r.db == self.db,
    {
        let u = crate::wire::u64_from_i64(n);
        InternalPoloDbCursor { limit: Some(u), ..self }
    }

    /// Decode and record the sort document; fails fast on malformed input,
    /// leaving the builder unchanged.
    pub fn sort(&mut self, sort_doc: &str) -> (r: Result<(), BridgeError>)
        ensures
            r is Err <==> decode_wire(sort_doc@) is None,
            r is Err ==> r->Err_0 is Decode && *final(self) == *old(self),
            r is Ok ==> {
                &&& final(self).sort is Some
                &&& Some(final(self).sort.unwrap().deep_view()) == decode_wire(sort_doc@)
                &&& final(self).skip == old(self).skip
                &&& final(self).limit == old(self).limit
                &&& final(self).filter == old(self).filter
                &&& final(self).name == old(self).name
                &&& final(self).db == old(self).db
            },
    {
        match crate::codec::hex_to_bson(sort_doc) {
            None => Err(BridgeError::Decode),
            Some(d) => {
                self.sort = Some(d);
                Ok(())
            },
        }
    }

    /// Materialize: fetch every match, apply sort, skip and limit in that
    /// fixed order, and deliver the `{results}` envelope with the full
    /// ordered sequence; a failure while fetching returns no partial result.
    pub fn to_array(&self) -> (c: Completion)
        ensures
            c matches Completion::Failed(BridgeError::Decode) <==> !wf_doc(
                self.filter.deep_view(),
            ),
            c matches Completion::Done(w) ==> {
                &&& w is Some
                &&& exists|found: Seq<Seq<(Seq<u8>, SpecValue)>>|
                    wf_docs(plan_results(found, sort_view(self.sort), self.skip, self.limit))
                        && w.unwrap()@ == #[trigger] results_wire(
                        found,
                        sort_view(self.sort),
                        self.skip,
                        self.limit,
                    )
            },
    {
        if !wf_check_doc(&self.filter) {
            return Completion::Failed(BridgeError::Decode);
        }
        let fb = encode_doc(&self.filter);
        match engine_find_all(&self.db, self.name.as_str(), &fb) {
            Err(e) => Completion::Failed(e),
            Ok(raw) => {
                let mut found: Vec<Document> = Vec::new();
                let mut i: usize = 0;
                while i < raw.len()
                    invariant
                        i <= raw@.len(),
                        found@.len() == i,
                        wf_doc(self.filter.deep_view()),
                        forall|t: int|
                            0 <= t < i ==> wf_doc(#[trigger] found@[t].deep_view()),
                    decreases raw@.len() - i,
                {
                    match decode_doc(&raw[i]) {
                        None => {
                            return Completion::Failed(
                                BridgeError::Engine(
                                    "engine value outside the wire model".to_string(),
                                ),
                            );
                        },
                        Some(d) => {
                            proof {
                                lemma_parse_doc_wf(raw@[i as int]@);
                            }
                            found.push(d);
                        },
                    }
                    i = i + 1;
                }
                let ghost found0 = found.deep_view();
                let ordered = match &self.sort {
                    Some(sd) => {
                        if sd.len() > 0 {
                            let k = clone_bytes(&sd[0].key);
                            let asc = match &sd[0].value {
                                Value::Int64(v) => *v >= 0,
                                _ => true,
                            };
                            assert(sd.deep_view()[0] == sd@[0].deep_view());
                            assert(asc == sort_dir(sd.deep_view()));
                            sort_docs(found, &k, asc)
                        } else {
                            found
                        }
                    },
                    None => found,
                };
                let windowed = window_docs(ordered, self.skip, self.limit);
                let ghost sortdv = sort_view(self.sort);
                assert(windowed.deep_view() == plan_results(found0, sortdv, self.skip, self.limit));
                if !docs_all_wf(&windowed) {
                    return Completion::Failed(
                        BridgeError::Engine("engine value outside the wire model".to_string()),
                    );
                }
                proof {
                    assert forall|j: int|
                        0 <= j < plan_results(found0, sortdv, self.skip, self.limit).len()
                        implies wf_doc(
                        #[trigger] plan_results(found0, sortdv, self.skip, self.limit)[j],
                    ) by {
                        assert(plan_results(found0, sortdv, self.skip, self.limit)[j]
                            == windowed.deep_view()[j]);
                    }
                }
                let c2 = results_envelope(windowed);
                proof {
                    match &c2 {
                        Completion::Done(w) => {
                            assert(wf_docs(plan_results(found0, sortdv, self.skip, self.limit))
                                && w.unwrap()@ == results_wire(
                                found0,
                                sortdv,
                                self.skip,
                                self.limit,
                            ));
                        },
                        _ => {},
                    }
                }
                c2
            },
        }
    }
}

/// Every fetched document fits the wire model.
fn docs_all_wf(docs: &Vec<Document>) -> (r: bool)
    ensures
        r ==> forall|t: int|
            0 <= t < docs.deep_view().len() ==> wf_doc(#[trigger] docs.deep_view()[t]),
{
    let mut i: usize = 0;
    while i < docs.len()
        invariant
            i <= docs@.len(),
            forall|t: int| 0 <= t < i ==> wf_doc(#[trigger] docs@[t].deep_view()),
        decreases docs@.len() - i,
    {
        if !wf_check_doc(&docs[i]) {
            return false;
        }
        i = i + 1;
    }
    proof {
        assert forall|t: int| 0 <= t < docs.deep_view().len() implies wf_doc(
            #[trigger] docs.deep_view()[t],
        ) by {
            assert(docs.deep_view()[t] == docs@[t].deep_view());
        }
    }
    true
}

/// A copy of a byte vector.
fn clone_bytes(b: &Vec<u8>) -> (r: Vec<u8>)
    ensures
        r@ == b@,
{
    let mut out: Vec<u8> = Vec::new();
    let mut i: usize = 0;
    while i < b.len()
        invariant
            i <= b@.len(),
            out@ == b@.take(i as int),
        decreases b@.len() - i,
    {
        out.push(b[i]);
        assert(out@ =~= b@.take(i as int + 1));
        i = i + 1;
    }
    assert(b@.take(b@.len() as int) =~= b@);
    out
}

/// Check a document against the wire model, field by field. Callers outside
/// verified code can test `bson_to_hex`'s and `encode_doc`'s precondition
/// with it.
pub fn wf_check_doc(d: &Document) -> (r: bool)
    ensures
        r == wf_doc(d.deep_view()),
{
    // The filter of a cursor always comes from the decoder and is
    // representable; this run-time check keeps the builder total even for a
    // filter assembled by hand.
    wf_check_entries(d, 0)
}

fn wf_check_entries(d: &Vec<crate::model::Entry>, i: usize) -> (r: bool)
    requires
        i <= d@.len(),
    ensures
        r == crate::model::wf_doc_from(d.deep_view(), i as int),
    decreases d, d@.len() - i, 1int,
{
    if i < d.len() {
        assert(d.deep_view()[i as int] == d@[i as int].deep_view());
        let kok = bytes_no_nul(&d[i].key);
        if !kok {
            return false;
        }
        let vok = wf_check_value(&d[i].value);
        if !vok {
            return false;
        }
        wf_check_entries(d, i + 1)
    } else {
        true
    }
}

fn wf_check_value(v: &Value) -> (r: bool)
    ensures
        r == wf_value(v.deep_view()),
    decreases v, 0int, 0int,
{
    match v {
        Value::Double(_) => true,
        Value::Int32(_) => true,
        Value::Int64(_) => true,
        Value::DateTime(_) => true,
        Value::Text(b) => b.len() < 0xffff_ffff,
        Value::Bool(_) => true,
        Value::Null => true,
        Value::Id(b) => b.len() == 12,
        Value::Doc(es) => {
            proof {
                crate::model::lemma_doc_view(*es);
            }
            wf_check_entries(es, 0)
        },
        Value::Array(vs) => {
            proof {
                lemma_array_view(*vs);
            }
            wf_check_items(vs, 0)
        },
    }
}

fn wf_check_items(vs: &Vec<Value>, i: usize) -> (r: bool)
    requires
        i <= vs@.len(),
    ensures
        r == crate::model::wf_items_from(vs.deep_view(), i as int),
    decreases vs, vs@.len() - i, 1int,
{
    if i < vs.len() {
        assert(vs.deep_view()[i as int] == vs@[i as int].deep_view());
        let ok = wf_check_value(&vs[i]);
        if !ok {
            return false;
        }
        wf_check_items(vs, i + 1)
    } else {
        true
    }
}

fn bytes_no_nul(b: &Vec<u8>) -> (r: bool)
    ensures
        r == crate::model::wf_key(b@),
{
    let mut i: usize = 0;
    while i < b.len()
        invariant
            i <= b@.len(),
            forall|j: int| 0 <= j < i ==> b@[j] != 0u8,
        decreases b@.len() - i,
    {
        if b[i] == 0 {
            return false;
        }
        i = i + 1;
    }
    true
}

fn bytes_eq(a: &Vec<u8>, b: &Vec<u8>) -> (r: bool)
    ensures
        r <==> a@ == b@,
{
    if a.len() != b.len() {
        assert(a@ != b@);
        return false;
    }
    let mut i: usize = 0;
    while i < a.len()
        invariant
            i <= a@.len(),
            a@.len() == b@.len(),
            forall|j: int| 0 <= j < i ==> a@[j] == b@[j],
        decreases a@.len() - i,
    {
        if a[i] != b[i] {
            return false;
        }
        i = i + 1;
    }
    assert(a@ =~= b@);
    true
}

fn doc_key_i64_at(d: &Document, k: &Vec<u8>, i: usize) -> (r: Option<i64>)
    requires
        i <= d@.len(),
    ensures
        r == doc_key_i64(d.deep_view(), k@, i as int),
    decreases d@.len() - i,
{
    if i < d.len() {
        assert(d.deep_view()[i as int] == d@[i as int].deep_view());
        if bytes_eq(&d[i].key, k) {
            match &d[i].value {
                Value::Int32(v) => Some(*v as i64),
                Value::Int64(v) => Some(*v),
                Value::DateTime(v) => Some(*v),
                _ => None,
            }
        } else {
            doc_key_i64_at(d, k, i + 1)
        }
    } else {
        None
    }
}

fn key_le_exec(x: Option<i64>, y: Option<i64>) -> (r: bool)
    ensures
        r == key_le(x, y),
{
    match (x, y) {
        (Option::None, _) => true,
        (Option::Some(_), Option::None) => false,
        (Option::Some(a), Option::Some(b)) => a <= b,
    }
}

fn le_by_exec(a: &Document, b: &Document, k: &Vec<u8>, asc: bool) -> (r: bool)
    ensures
        r == le_by(a.deep_view(), b.deep_view(), k@, asc),
{
    let ka = doc_key_i64_at(a, k, 0);
    let kb = doc_key_i64_at(b, k, 0);
    if asc {
        key_le_exec(ka, kb)
    } else {
        key_le_exec(kb, ka)
    }
}

fn insert_sorted_exec(x: Document, t: Vec<Document>, k: &Vec<u8>, asc: bool) -> (r: Vec<Document>)
    ensures
        r.deep_view() == insert_sorted(x.deep_view(), t.deep_view(), k@, asc),
    decreases t@.len(),
{
    let ghost tdv = t.deep_view();
    if t.len() == 0 {
        let mut r: Vec<Document> = Vec::new();
        r.push(x);
        assert(r.deep_view() =~= seq![r@[0].deep_view()]);
        r
    } else if le_by_exec(&t[0], &x, k, asc) {
        assert(tdv[0] == t@[0].deep_view());
        let mut t2 = t;
        let h = t2.remove(0);
        proof {
            assert forall|j: int| 0 <= j < t2@.len() implies #[trigger] t2.deep_view()[j]
                == tdv.drop_first()[j] by {
                assert(t2@[j].deep_view() == tdv[j + 1]);
            }
            assert(t2.deep_view() =~= tdv.drop_first());
        }
        let rest = insert_sorted_exec(x, t2, k, asc);
        let ghost rdv = rest.deep_view();
        let mut r = rest;
        r.insert(0, h);
        proof {
            assert forall|j: int| 0 <= j < r@.len() implies #[trigger] r.deep_view()[j] == (seq![
                tdv[0],
            ] + rdv)[j] by {
                if j == 0 {
                } else {
                    assert(r@[j] == rest@[j - 1]);
                }
            }
            assert(r.deep_view() =~= seq![tdv[0]] + rdv);
        }
        r
    } else {
        let ghost xdv = x.deep_view();
        let mut r = t;
        r.insert(0, x);
        proof {
            assert forall|j: int| 0 <= j < r@.len() implies #[trigger] r.deep_view()[j] == (seq![
                xdv,
            ] + tdv)[j] by {
                if j > 0 {
                    assert(r@[j].deep_view() == tdv[j - 1]);
                }
            }
            assert(r.deep_view() =~= seq![xdv] + tdv);
        }
        r
    }
}

/// Order the fetched documents by the sort field, in the given direction.
fn sort_docs(docs: Vec<Document>, k: &Vec<u8>, asc: bool) -> (r: Vec<Document>)
    ensures
        r.deep_view() == sort_by_key(docs.deep_view(), k@, asc),
    decreases docs@.len(),
{
    let ghost ddv = docs.deep_view();
    if docs.len() == 0 {
        assert(docs.deep_view() =~= Seq::<Seq<(Seq<u8>, SpecValue)>>::empty());
        docs
    } else {
        let mut d2 = docs;
        let h = d2.remove(0);
        proof {
            assert forall|j: int| 0 <= j < d2@.len() implies #[trigger] d2.deep_view()[j]
                == ddv.drop_first()[j] by {
                assert(d2@[j].deep_view() == ddv[j + 1]);
            }
            assert(d2.deep_view() =~= ddv.drop_first());
            assert(h.deep_view() == ddv[0]);
        }
        let sorted = sort_docs(d2, k, asc);
        insert_sorted_exec(h, sorted, k, asc)
    }
}

/// Apply skip and limit to the ordered run.
fn window_docs(docs: Vec<Document>, skip: Option<u64>, limit: Option<u64>) -> (r: Vec<Document>)
    ensures
        r.deep_view() == window(docs.deep_view(), skip, limit),
{
    let ghost ddv = docs.deep_view();
    let n = docs.len();
    let start: usize = match skip {
        Some(s) => if s < n as u64 {
            s as usize
        } else {
            n
        },
        None => 0,
    };
    let end: usize = match limit {
        Some(l) => if (n - start) as u64 > l {
            start + l as usize
        } else {
            n
        },
        None => n,
    };
    let mut d2 = docs;
    d2.truncate(end);
    proof {
        assert forall|j: int| 0 <= j < d2@.len() implies #[trigger] d2@[j].deep_view() == ddv[j]
            by {}
    }
    let mut i: usize = 0;
    while i < start
        invariant
            i <= start,
            start <= end <= n,
            d2@.len() == end - i,
            forall|j: int|
                0 <= j < d2@.len() ==> #[trigger] d2@[j].deep_view() == ddv[j + i],
        decreases start - i,
    {
        let ghost pre = d2@;
        d2.remove(0);
        proof {
            assert forall|j: int| 0 <= j < d2@.len() implies #[trigger] d2@[j].deep_view() == ddv[j + i + 1] by {
                assert(d2@[j] == pre[j + 1]);
            }
        }
        i = i + 1;
    }
    proof {
        assert forall|j: int| 0 <= j < d2@.len() implies #[trigger] d2.deep_view()[j] == window(
            ddv,
            skip,
            limit,
        )[j] by {
            assert(d2.deep_view()[j] == d2@[j].deep_view());
        }
        assert(d2.deep_view() =~= window(ddv, skip, limit));
    }
    d2
}

/// Build and encode the `{results}` envelope.
fn results_envelope(docs: Vec<Document>) -> (c: Completion)
    requires
        forall|t: int| 0 <= t < docs.deep_view().len() ==> wf_doc(#[trigger] docs.deep_view()[t]),
    ensures
        c matches Completion::Done(w) && w is Some && w.unwrap()@ == encode_wire(
            seq![
                (
                    key_results(),
                    SpecValue::Array(
                        docs.deep_view().map_values(|d: Seq<(Seq<u8>, SpecValue)>| SpecValue::Doc(d)),
                    ),
                ),
            ],
        ),
{
    let ghost ddv = docs.deep_view();
    let mut items: Vec<Value> = Vec::new();
    let mut docs2 = docs;
    while docs2.len() > 0
        invariant
            items@.len() + docs2@.len() == ddv.len(),
            forall|t: int| 0 <= t < ddv.len() ==> wf_doc(#[trigger] ddv[t]),
            forall|j: int|
                0 <= j < docs2@.len() ==> #[trigger] docs2@[j].deep_view() == ddv[j + items@.len()],
            forall|j: int|
                0 <= j < items@.len() ==> (#[trigger] items@[j].deep_view()) == SpecValue::Doc(
                    ddv[j],
                ) && wf_value(items@[j].deep_view()),
        decreases docs2@.len(),
    {
        let ghost k = items@.len() as int;
        let ghost pre = docs2@;
        let d = docs2.remove(0);
        proof {
            assert(d.deep_view() == ddv[k]);
            assert(wf_doc(ddv[k]));
            crate::model::lemma_doc_view(d);
        }
        items.push(Value::Doc(d));
        proof {
            assert forall|j: int| 0 <= j < docs2@.len() implies #[trigger] docs2@[j].deep_view()
                == ddv[j + k + 1] by {
                assert(docs2@[j] == pre[j + 1]);
            }
        }
    }
    proof {
        assert forall|t: int| 0 <= t < items.deep_view().len() implies wf_value(
            #[trigger] items.deep_view()[t],
        ) by {
            assert(items.deep_view()[t] == items@[t].deep_view());
        }
        lemma_wf_items_pointwise(items.deep_view(), 0);
        lemma_array_view(items);
        assert(items.deep_view() =~= ddv.map_values(
            |d: Seq<(Seq<u8>, SpecValue)>| SpecValue::Doc(d),
        ));
    }
    let env = make_doc1(key_results_exec(), Value::Array(items));
    let w = bson_to_hex(&env);
    Completion::Done(Some(w))
}

} // verus!
