//! The trusted boundary to the embedded engine.
//!
//! The engine instance sits behind one mutex shared by every handle derived
//! from a connection; each wrapper here acquires that mutex for the duration
//! of one engine call, so all engine access on a connection is serialized.
//! Beside the mutex sits an explicit closed flag, the exec image of the
//! Open/Closed model in `dispatch`: every wrapper checks it before acquiring
//! and reports `ConnectionClosed` when it is set; the first acquisition that
//! observes a poisoned mutex (a holder failed while holding it) sets the
//! flag, and nothing ever clears it, so closure is permanent as
//! `lemma_closed_is_permanent` states of the model.
//!
//! Documents cross this boundary as wire bytes. Engine values come back
//! wrapped as the single-field document `{"v": value}`, so that verified
//! code can parse and validate them with the library's own codec.

use vstd::prelude::*;
use crate::dispatch::BridgeError;

verus! {

#[verifier::external_type_specification]
#[verifier::external_body]
#[verifier::reject_recursive_types(T)]
pub struct ExMutex<T: ?Sized>(std::sync::Mutex<T>);

#[verifier::external_type_specification]
#[verifier::external_body]
pub struct ExDatabase(polodb_core::Database);

#[verifier::external_type_specification]
#[verifier::external_body]
pub struct ExBson(bson::Bson);

/// The shared engine cell: the lockable engine instance and the connection's
/// explicit closed flag.
pub type EngineCell = std::sync::Arc<
    (std::sync::Mutex<polodb_core::Database>, std::sync::atomic::AtomicBool),
>;

/// Relies on std::sync::atomic::AtomicBool::load: whether the connection has
/// been marked closed.
#[verifier::external_body]
fn cell_closed(db: &EngineCell) -> (r: bool)
{
    db.1.load(std::sync::atomic::Ordering::SeqCst)
}

/// Relies on std::sync::atomic::AtomicBool::store: mark the connection
/// closed; nothing in the crate ever clears the flag.
#[verifier::external_body]
fn mark_closed(db: &EngineCell)
{
    db.1.store(true, std::sync::atomic::Ordering::SeqCst);
}

/// Relies on polodb_core::Database::open_file: opens or creates the engine's
/// storage at the given path; failures surface synchronously as text.
#[verifier::external_body]
pub(crate) fn open_file_engine(path: &str) -> (r: Result<EngineCell, String>)
{
    match polodb_core::Database::open_file(path) {
        Ok(db) => Ok(std::sync::Arc::new((std::sync::Mutex::new(db), std::sync::atomic::AtomicBool::new(false)))),
        Err(e) => Err(e.to_string()),
    }
}

/// Relies on polodb_core::Database::open_memory: an engine with no storage
/// on disk, for tests and tools.
#[verifier::external_body]
pub(crate) fn open_memory_engine() -> (r: Result<EngineCell, String>)
{
    match polodb_core::Database::open_memory() {
        Ok(db) => Ok(std::sync::Arc::new((std::sync::Mutex::new(db), std::sync::atomic::AtomicBool::new(false)))),
        Err(e) => Err(e.to_string()),
    }
}

/// Relies on std::sync::Arc::clone: another owner of the same engine cell;
/// the result denotes the same cell as the argument.
#[verifier::external_body]
pub(crate) fn share_engine(db: &EngineCell) -> (r: EngineCell)
    ensures
        r == *db,
{
    std::sync::Arc::clone(db)
}

/// Relies on polodb_core::Collection::insert_one, under the connection lock;
/// returns the engine-assigned identifier as `{"v": id}` wire bytes.
#[verifier::external_body]
pub(crate) fn engine_insert_one(db: &EngineCell, name: &str, doc: &Vec<u8>) -> (r: Result<
    Vec<u8>,
    BridgeError,
>)
    ensures
        r is Err ==> r->Err_0 is ConnectionClosed || r->Err_0 is Engine,
{
    if cell_closed(db) { return Err(BridgeError::ConnectionClosed); }
    let guard = db.0.lock().map_err(|_| { mark_closed(db); BridgeError::ConnectionClosed })?;
    let d = bson::Document::from_reader(doc.as_slice()).map_err(|e| BridgeError::Engine(e.to_string()))?;
    let res = guard.collection::<bson::Document>(name).insert_one(d).map_err(|e| BridgeError::Engine(e.to_string()))?;
    let mut out = bson::Document::new();
    out.insert("v", res.inserted_id);
    bson::to_vec(&out).map_err(|e| BridgeError::Engine(e.to_string()))
}

/// Relies on polodb_core::Collection::insert_many, under the connection
/// lock; returns the engine's identifiers, one per input document, in input
/// order.
#[verifier::external_body]
fn engine_insert_many_ids(db: &EngineCell, name: &str, docs: &Vec<Vec<u8>>) -> (r: Result<
    Vec<bson::Bson>,
    BridgeError,
>)
    ensures
        r is Ok ==> r->Ok_0@.len() == docs@.len(),
        r is Err ==> r->Err_0 is ConnectionClosed || r->Err_0 is Engine,
{
    if cell_closed(db) { return Err(BridgeError::ConnectionClosed); }
    let guard = db.0.lock().map_err(|_| { mark_closed(db); BridgeError::ConnectionClosed })?;
    let parsed: Result<Vec<bson::Document>, _> = docs.iter().map(|b| bson::Document::from_reader(b.as_slice())).collect();
    let parsed = parsed.map_err(|e| BridgeError::Engine(e.to_string()))?;
    let res = guard.collection::<bson::Document>(name).insert_many(parsed).map_err(|e| BridgeError::Engine(e.to_string()))?;
    Ok((0..docs.len()).map(|i| res.inserted_ids.get(&i).cloned().unwrap_or(bson::Bson::Null)).collect())
}

/// Relies on bson::to_vec: each engine value becomes `{"v": value}` bytes.
#[verifier::external_body]
fn engine_values_to_bytes(ids: Vec<bson::Bson>) -> (r: Result<Vec<Vec<u8>>, BridgeError>)
    ensures
        r is Ok ==> r->Ok_0@.len() == ids@.len(),
        r is Err ==> r->Err_0 is Engine,
{
    let mut out = Vec::new();
    for id in ids {
        let mut d = bson::Document::new();
        d.insert("v", id);
        out.push(bson::to_vec(&d).map_err(|e| BridgeError::Engine(e.to_string()))?);
    }
    Ok(out)
}

/// The batch insert: the engine call, then the reply conversion.
pub(crate) fn engine_insert_many(db: &EngineCell, name: &str, docs: &Vec<Vec<u8>>) -> (r: Result<
    Vec<Vec<u8>>,
    BridgeError,
>)
    ensures
        r is Ok ==> r->Ok_0@.len() == docs@.len(),
        r is Err ==> r->Err_0 is ConnectionClosed || r->Err_0 is Engine,
{
    match engine_insert_many_ids(db, name, docs) {
        Ok(ids) => engine_values_to_bytes(ids),
        Err(e) => Err(e),
    }
}

/// Relies on polodb_core::Collection::find_one, under the connection lock;
/// absence of a match is a success, not an error.
#[verifier::external_body]
pub(crate) fn engine_find_one(db: &EngineCell, name: &str, filter: &Vec<u8>) -> (r: Result<
    Option<Vec<u8>>,
    BridgeError,
>)
    ensures
        r is Err ==> r->Err_0 is ConnectionClosed || r->Err_0 is Engine,
{
    if cell_closed(db) { return Err(BridgeError::ConnectionClosed); }
    let guard = db.0.lock().map_err(|_| { mark_closed(db); BridgeError::ConnectionClosed })?;
    let f = bson::Document::from_reader(filter.as_slice()).map_err(|e| BridgeError::Engine(e.to_string()))?;
    match guard.collection::<bson::Document>(name).find_one(f) {
        Ok(Some(d)) => Ok(Some(bson::to_vec(&d).map_err(|e| BridgeError::Engine(e.to_string()))?)),
        Ok(None) => Ok(None),
        Err(e) => Err(BridgeError::Engine(e.to_string())),
    }
}

/// Relies on polodb_core::Collection::find, under the connection lock;
/// returns every matching document. A failure while the result sequence is
/// being consumed is an iteration failure, distinct from an engine failure.
#[verifier::external_body]
pub(crate) fn engine_find_all(db: &EngineCell, name: &str, filter: &Vec<u8>) -> (r: Result<
    Vec<Vec<u8>>,
    BridgeError,
>)
    ensures
        r is Err ==> r->Err_0 is ConnectionClosed || r->Err_0 is Engine || r->Err_0 is Iteration,
{
    if cell_closed(db) { return Err(BridgeError::ConnectionClosed); }
    let guard = db.0.lock().map_err(|_| { mark_closed(db); BridgeError::ConnectionClosed })?;
    let f = bson::Document::from_reader(filter.as_slice()).map_err(|e| BridgeError::Engine(e.to_string()))?;
    let cur = guard.collection::<bson::Document>(name).find(f).map_err(|e| BridgeError::Engine(e.to_string()))?;
    let mut out = Vec::new();
    for item in cur {
        let d = item.map_err(|e| BridgeError::Iteration(e.to_string()))?;
        out.push(bson::to_vec(&d).map_err(|e| BridgeError::Iteration(e.to_string()))?);
    }
    Ok(out)
}

/// Relies on polodb_core::Collection::update_one, under the connection lock;
/// returns the engine's modified count, which is at most one: the compiled
/// single-update program leaves the scan after its first result.
#[verifier::external_body]
pub(crate) fn engine_update_one(db: &EngineCell, name: &str, filter: &Vec<u8>, update: &Vec<u8>) -> (r:
    Result<u64, BridgeError>)
    ensures
        r is Ok ==> r->Ok_0 <= 1,
        r is Err ==> r->Err_0 is ConnectionClosed || r->Err_0 is Engine,
{
    if cell_closed(db) { return Err(BridgeError::ConnectionClosed); }
    let guard = db.0.lock().map_err(|_| { mark_closed(db); BridgeError::ConnectionClosed })?;
    let f = bson::Document::from_reader(filter.as_slice()).map_err(|e| BridgeError::Engine(e.to_string()))?;
    let u = bson::Document::from_reader(update.as_slice()).map_err(|e| BridgeError::Engine(e.to_string()))?;
    match guard.collection::<bson::Document>(name).update_one(f, u) {
        Ok(res) => Ok(res.modified_count),
        Err(e) => Err(BridgeError::Engine(e.to_string())),
    }
}

/// Relies on polodb_core::Collection::update_many, under the connection
/// lock; returns the engine's modified count.
#[verifier::external_body]
pub(crate) fn engine_update_many(db: &EngineCell, name: &str, filter: &Vec<u8>, update: &Vec<u8>) -> (r:
    Result<u64, BridgeError>)
    ensures
        r is Err ==> r->Err_0 is ConnectionClosed || r->Err_0 is Engine,
{
    if cell_closed(db) { return Err(BridgeError::ConnectionClosed); }
    let guard = db.0.lock().map_err(|_| { mark_closed(db); BridgeError::ConnectionClosed })?;
    let f = bson::Document::from_reader(filter.as_slice()).map_err(|e| BridgeError::Engine(e.to_string()))?;
    let u = bson::Document::from_reader(update.as_slice()).map_err(|e| BridgeError::Engine(e.to_string()))?;
    match guard.collection::<bson::Document>(name).update_many(f, u) {
        Ok(res) => Ok(res.modified_count),
        Err(e) => Err(BridgeError::Engine(e.to_string())),
    }
}

/// Relies on polodb_core::Collection::delete_one, under the connection lock;
/// returns the engine's deleted count, which is at most one: the compiled
/// single-delete program leaves the scan after its first result.
#[verifier::external_body]
pub(crate) fn engine_delete_one(db: &EngineCell, name: &str, filter: &Vec<u8>) -> (r: Result<
    u64,
    BridgeError,
>)
    ensures
        r is Ok ==> r->Ok_0 <= 1,
        r is Err ==> r->Err_0 is ConnectionClosed || r->Err_0 is Engine,
{
    if cell_closed(db) { return Err(BridgeError::ConnectionClosed); }
    let guard = db.0.lock().map_err(|_| { mark_closed(db); BridgeError::ConnectionClosed })?;
    let f = bson::Document::from_reader(filter.as_slice()).map_err(|e| BridgeError::Engine(e.to_string()))?;
    match guard.collection::<bson::Document>(name).delete_one(f) {
        Ok(res) => Ok(res.deleted_count),
        Err(e) => Err(BridgeError::Engine(e.to_string())),
    }
}

/// Relies on polodb_core::Collection::delete_many, under the connection
/// lock; returns the engine's deleted count.
#[verifier::external_body]
pub(crate) fn engine_delete_many(db: &EngineCell, name: &str, filter: &Vec<u8>) -> (r: Result<
    u64,
    BridgeError,
>)
    ensures
        r is Err ==> r->Err_0 is ConnectionClosed || r->Err_0 is Engine,
{
    if cell_closed(db) { return Err(BridgeError::ConnectionClosed); }
    let guard = db.0.lock().map_err(|_| { mark_closed(db); BridgeError::ConnectionClosed })?;
    let f = bson::Document::from_reader(filter.as_slice()).map_err(|e| BridgeError::Engine(e.to_string()))?;
    match guard.collection::<bson::Document>(name).delete_many(f) {
        Ok(res) => Ok(res.deleted_count),
        Err(e) => Err(BridgeError::Engine(e.to_string())),
    }
}

} // verus!
