//! The per-call dispatch state machine and the connection's status model.
//!
//! Every operation runs through the same states: it is submitted, its inputs
//! are decoded, and it either fails at decode time or is dispatched to a
//! worker, which fails to acquire the connection, fails in the engine, or
//! succeeds. Exactly one transition of a run delivers the completion
//! callback. The connection is Open or Closed; once Closed it never grants
//! an acquisition again.

use vstd::prelude::*;

verus! {

/// The failure kinds an operation can report.
#[derive(Debug)]
pub enum BridgeError {
    /// Malformed wire input, detected before dispatch.
    Decode,
    /// The connection's lock is poisoned; permanent.
    ConnectionClosed,
    /// The engine rejected the operation; its message as opaque text.
    Engine(String),
    /// A failure while consuming a query's result sequence.
    Iteration(String),
}

/// The single completion an operation delivers: a failure, or a result
/// (which is absent for a lookup that matched nothing).
#[derive(Debug)]
pub enum Completion {
    Failed(BridgeError),
    Done(Option<String>),
}

// ---------- per-call state machine ----------

#[derive(Clone, Copy, Debug, PartialEq, Eq, Structural)]
pub enum CallState {
    Submitted,
    Decoding,
    DecodeFailed,
    Dispatched,
    LockFailed,
    EngineFailed,
    Succeeded,
}

#[derive(Clone, Copy, Debug, PartialEq, Eq, Structural)]
pub enum CallEvent {
    Begin,
    DecodeErr,
    DecodeOk,
    LockErr,
    EngineErr,
    EngineOk,
}

pub open spec fn is_terminal(s: CallState) -> bool {
    match s {
        CallState::DecodeFailed | CallState::LockFailed | CallState::EngineFailed
            | CallState::Succeeded => true,
        _ => false,
    }
}

/// One transition: the next state, and whether this transition delivers
/// the completion callback.
pub open spec fn spec_step(s: CallState, e: CallEvent) -> (CallState, bool) {
    match (s, e) {
        (CallState::Submitted, CallEvent::Begin) => (CallState::Decoding, false),
        (CallState::Decoding, CallEvent::DecodeErr) => (CallState::DecodeFailed, true),
        (CallState::Decoding, CallEvent::DecodeOk) => (CallState::Dispatched, false),
        (CallState::Dispatched, CallEvent::LockErr) => (CallState::LockFailed, true),
        (CallState::Dispatched, CallEvent::EngineErr) => (CallState::EngineFailed, true),
        (CallState::Dispatched, CallEvent::EngineOk) => (CallState::Succeeded, true),
        (s, _) => (s, false),
    }
}

/// The transition function, for a caller driving one call through its states.
pub fn step(s: CallState, e: CallEvent) -> (r: (CallState, bool))
    ensures
        r == spec_step(s, e),
{
    match (s, e) {
        (CallState::Submitted, CallEvent::Begin) => (CallState::Decoding, false),
        (CallState::Decoding, CallEvent::DecodeErr) => (CallState::DecodeFailed, true),
        (CallState::Decoding, CallEvent::DecodeOk) => (CallState::Dispatched, false),
        (CallState::Dispatched, CallEvent::LockErr) => (CallState::LockFailed, true),
        (CallState::Dispatched, CallEvent::EngineErr) => (CallState::EngineFailed, true),
        (CallState::Dispatched, CallEvent::EngineOk) => (CallState::Succeeded, true),
        (s2, _) => (s2, false),
    }
}

/// The state after a run of events.
pub open spec fn run_state(s: CallState, evs: Seq<CallEvent>) -> CallState
    decreases evs.len(),
{
    if evs.len() == 0 {
        s
    } else {
        run_state(spec_step(s, evs[0]).0, evs.drop_first())
    }
}

/// How many transitions of a run deliver the callback.
pub open spec fn run_deliveries(s: CallState, evs: Seq<CallEvent>) -> nat
    decreases evs.len(),
{
    if evs.len() == 0 {
        0
    } else {
        (if spec_step(s, evs[0]).1 {
            1nat
        } else {
            0nat
        }) + run_deliveries(spec_step(s, evs[0]).0, evs.drop_first())
    }
}

/// A transition delivers the callback exactly when it enters a terminal
/// state, and terminal states never step anywhere.
proof fn lemma_step_shape(s: CallState, e: CallEvent)
    ensures
        spec_step(s, e).1 == (!is_terminal(s) && is_terminal(spec_step(s, e).0)),
        is_terminal(s) ==> spec_step(s, e).0 == s,
{
    match s {
        CallState::Submitted => match e {
            CallEvent::Begin => {},
            _ => {},
        },
        CallState::Decoding => match e {
            CallEvent::DecodeErr => {},
            CallEvent::DecodeOk => {},
            _ => {},
        },
        CallState::Dispatched => match e {
            CallEvent::LockErr => {},
            CallEvent::EngineErr => {},
            CallEvent::EngineOk => {},
            _ => {},
        },
        _ => {},
    }
}

/// A terminal state stays where it is.
proof fn lemma_terminal_absorbs(s: CallState, evs: Seq<CallEvent>)
    requires
        is_terminal(s),
    ensures
        run_state(s, evs) == s,
    decreases evs.len(),
{
    if evs.len() > 0 {
        lemma_step_shape(s, evs[0]);
        lemma_terminal_absorbs(s, evs.drop_first());
    }
}

/// A run delivers the callback exactly once if it reaches a terminal state
/// from a live one, and never otherwise.
proof fn lemma_deliveries_shape(s: CallState, evs: Seq<CallEvent>)
    ensures
        run_deliveries(s, evs) == if !is_terminal(s) && is_terminal(run_state(s, evs)) {
            1nat
        } else {
            0nat
        },
    decreases evs.len(),
{
    if evs.len() > 0 {
        lemma_step_shape(s, evs[0]);
        let s2 = spec_step(s, evs[0]).0;
        lemma_deliveries_shape(s2, evs.drop_first());
        if is_terminal(s2) {
            lemma_terminal_absorbs(s2, evs.drop_first());
        }
    }
}

/// Exactly-once: however a call runs, the callback fires at most once, and
/// exactly once on every run that ends in a terminal state.
pub proof fn lemma_callback_exactly_once(evs: Seq<CallEvent>)
    ensures
        run_deliveries(CallState::Submitted, evs) <= 1,
        is_terminal(run_state(CallState::Submitted, evs)) ==> run_deliveries(
            CallState::Submitted,
            evs,
        ) == 1,
{
    lemma_deliveries_shape(CallState::Submitted, evs);
}

// ---------- connection status ----------

/// A connection is Open, or permanently Closed.
#[derive(Clone, Copy, Debug, PartialEq, Eq, Structural)]
pub enum ConnStatus {
    Open,
    Closed,
}

/// One acquisition attempt: the status after it, and whether access was
/// granted. Observing a poisoned lock closes the connection for good.
pub open spec fn spec_observe(st: ConnStatus, poisoned: bool) -> (ConnStatus, bool) {
    match st {
        ConnStatus::Closed => (ConnStatus::Closed, false),
        ConnStatus::Open => if poisoned {
            (ConnStatus::Closed, false)
        } else {
            (ConnStatus::Open, true)
        },
    }
}

/// The acquisition bookkeeping, for a caller tracking one connection.
pub fn observe_acquire(st: ConnStatus, poisoned: bool) -> (r: (ConnStatus, bool))
    ensures
        r == spec_observe(st, poisoned),
{
    match st {
        ConnStatus::Closed => (ConnStatus::Closed, false),
        ConnStatus::Open => if poisoned {
            (ConnStatus::Closed, false)
        } else {
            (ConnStatus::Open, true)
        },
    }
}

/// The status after a sequence of acquisition attempts.
pub open spec fn run_conn(st: ConnStatus, obs: Seq<bool>) -> ConnStatus
    decreases obs.len(),
{
    if obs.len() == 0 {
        st
    } else {
        run_conn(spec_observe(st, obs[0]).0, obs.drop_first())
    }
}

proof fn lemma_run_closed(obs: Seq<bool>)
    ensures
        run_conn(ConnStatus::Closed, obs) == ConnStatus::Closed,
    decreases obs.len(),
{
    if obs.len() > 0 {
        lemma_run_closed(obs.drop_first());
    }
}

/// Permanent closure: once the connection is Closed, it stays Closed under
/// every later sequence of acquisition attempts, and every one of them is
/// denied.
pub proof fn lemma_closed_is_permanent(obs: Seq<bool>, k: int)
    requires
        0 <= k <= obs.len(),
    ensures
        run_conn(ConnStatus::Closed, obs) == ConnStatus::Closed,
        spec_observe(run_conn(ConnStatus::Closed, obs.take(k)), true).1 == false,
        spec_observe(run_conn(ConnStatus::Closed, obs.take(k)), false).1 == false,
{
    lemma_run_closed(obs);
    lemma_run_closed(obs.take(k));
}

} // verus!
