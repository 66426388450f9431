//! An asynchronous command bridge over an embedded document database:
//! a verified hex/byte wire codec for documents, a connection handle with
//! an irreversible closed state, collection operations that decode all
//! inputs before any dispatch, a deferred cursor builder, and a per-call
//! dispatch state machine that delivers its completion exactly once.

pub mod client;
pub mod codec;
pub mod cursor;
pub mod dispatch;
pub mod engine;
pub mod model;
pub mod wire;
