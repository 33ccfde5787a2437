use vstd::prelude::*;
use crate::state::StateKey;

verus! {

/// The library's error taxonomy. Persistence itself happens outside the
/// library; `PersistenceError` is the variant callers use to surface a
/// failed write of the persisted documents.
#[derive(Clone, Copy, PartialEq, Eq, Structural, Debug)]
pub enum SimError {
    SessionNotFound,
    DuplicateSession,
    CorruptState,
    InvalidBaseline,
    FetchError,
    DecodeError,
    BalanceOverflow,
    PersistenceError,
}

/// The result of a session operation: done, failed, or blocked on a remote
/// read. `NeedRemote(k)` asks the caller to fetch `k` at the frozen
/// baseline, record the answer with `note_remote`, and call again; the
/// session is left unchanged in that case.
pub enum Outcome<T> {
    Done(T),
    Failed(SimError),
    NeedRemote(StateKey),
}

} // verus!
