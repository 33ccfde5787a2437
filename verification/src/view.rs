use vstd::prelude::*;
use crate::state::{StateKey, DeltaEntry, KeyModel, EntryModel};
use crate::delta::Delta;

verus! {

/// What one combined read can observe.
pub enum ReadModel {
    Value(Seq<u8>),
    Absent,
    Unknown,
}

/// The combined answer for key `k`: the overlay's entry if it has one (a
/// tombstone reads as absent and never falls through), else the memoized
/// remote answer at the frozen baseline, else absent for a purely local
/// session and unknown for a forked one whose cache has not seen `k` yet.
pub open spec fn combined_lookup(
    d: Map<KeyModel, EntryModel>,
    c: Map<KeyModel, EntryModel>,
    forked: bool,
    k: KeyModel,
) -> ReadModel {
    if d.contains_key(k) {
        match d[k] {
            EntryModel::Value(v) => ReadModel::Value(v),
            EntryModel::Tombstone => ReadModel::Absent,
        }
    } else if c.contains_key(k) {
        match c[k] {
            EntryModel::Value(v) => ReadModel::Value(v),
            EntryModel::Tombstone => ReadModel::Absent,
        }
    } else if !forked {
        ReadModel::Absent
    } else {
        ReadModel::Unknown
    }
}

/// The executable result of one combined read. `NeedsRemote` asks the
/// caller to fetch the key from the remote source at the frozen baseline
/// and record the answer before retrying.
pub enum ReadResult {
    Value(Vec<u8>),
    Absent,
    NeedsRemote,
}

impl View for ReadResult {
    type V = ReadModel;

    open spec fn view(&self) -> ReadModel {
        match self {
            ReadResult::Value(v) => ReadModel::Value(v@),
            ReadResult::Absent => ReadModel::Absent,
            ReadResult::NeedsRemote => ReadModel::Unknown,
        }
    }
}

/// Read `k` through the overlay, then the remote cache. The remote source
/// is never consulted directly here; a forked session's uncached key comes
/// back as `NeedsRemote`.
pub fn combined_get(d: &Delta, c: &Delta, forked: bool, k: &StateKey) -> (r: ReadResult)
    requires
        d.wf(),
        c.wf(),
    ensures
        r@ == combined_lookup(d@, c@, forked, k@),
{
    match d.get(k) {
        Some(e) => match e {
            DeltaEntry::Value(v) => {
                let w = crate::bytes::copy_range(v, 0, v.len());
                proof {
                    assert(w@ =~= v@);
                }
                ReadResult::Value(w)
            },
            DeltaEntry::Tombstone => ReadResult::Absent,
        },
        None => match c.get(k) {
            Some(e) => match e {
                DeltaEntry::Value(v) => {
                    let w = crate::bytes::copy_range(v, 0, v.len());
                    proof {
                        assert(w@ =~= v@);
                    }
                    ReadResult::Value(w)
                },
                DeltaEntry::Tombstone => ReadResult::Absent,
            },
            None => {
                if !forked {
                    ReadResult::Absent
                } else {
                    ReadResult::NeedsRemote
                }
            },
        },
    }
}

/// A value written to the overlay is read back, whatever the remote source
/// holds for the key.
pub proof fn lemma_put_then_get(
    d: Map<KeyModel, EntryModel>,
    c: Map<KeyModel, EntryModel>,
    forked: bool,
    k: KeyModel,
    v: Seq<u8>,
)
    ensures
        combined_lookup(d.insert(k, EntryModel::Value(v)), c, forked, k) == ReadModel::Value(v),
{
}

/// A key deleted in the overlay reads as absent, whatever the remote source
/// holds for it: the tombstone takes precedence and never falls through.
pub proof fn lemma_delete_then_get(
    d: Map<KeyModel, EntryModel>,
    c: Map<KeyModel, EntryModel>,
    forked: bool,
    k: KeyModel,
)
    ensures
        combined_lookup(d.insert(k, EntryModel::Tombstone), c, forked, k) == ReadModel::Absent,
{
}

/// Applying an empty write-set leaves the overlay's mapping, and therefore
/// its persisted document, exactly as it was.
pub proof fn lemma_empty_write_set(m: Map<KeyModel, EntryModel>)
    ensures
        crate::delta::overwrite(m, Seq::<(KeyModel, EntryModel)>::empty()) == m,
{
}

} // verus!
