//! Laws of reading through pending changes.
use crate::model::{apply_changes, read, ChangesView, Key, StoreView};
use vstd::prelude::*;

verus! {

/// After a key is written in a transaction, reading it through the
/// transaction gives the written value, whatever the base holds there.
pub proof fn read_your_own_writes(base: StoreView, pending: ChangesView, k: Key, v: Seq<u8>)
    ensures
        read(apply_changes(base, pending.insert(k, Some(v))), k) == Some(v),
{
}

/// After a key is deleted in a transaction, reading it through the
/// transaction finds nothing, whatever the base holds there.
pub proof fn tombstone_precedence(base: StoreView, pending: ChangesView, k: Key)
    ensures
        read(apply_changes(base, pending.insert(k, None)), k) is None,
{
}

/// What a commit leaves in the base reflects each pending write and
/// deletion, and every key with nothing pending keeps what it had.
pub proof fn commit_reflects_pending(base: StoreView, pending: ChangesView, k: Key)
    ensures
        pending.contains_key(k) ==> read(apply_changes(base, pending), k) == pending[k],
        !pending.contains_key(k) ==> read(apply_changes(base, pending), k) == read(base, k),
{
}

/// Two transactions over the same base read the same for any key that
/// neither has written or deleted.
pub proof fn unwritten_keys_agree(base: StoreView, p1: ChangesView, p2: ChangesView, k: Key)
    requires
        !p1.contains_key(k),
        !p2.contains_key(k),
    ensures
        read(apply_changes(base, p1), k) == read(apply_changes(base, p2), k),
{
}

/// Laying no changes over a base shows the base as it is.
pub proof fn no_changes_is_identity(base: StoreView)
    ensures
        apply_changes(base, Map::empty()) == base,
{
    assert(apply_changes(base, Map::empty()) =~= base);
}

} // verus!
