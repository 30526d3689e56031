//! The base store: the canonical, committed key-value data.
use crate::model::{
    apply_one, apply_seq, has_key, keys_unique, lemma_index, lemma_len, lemma_push, lemma_remove,
    lemma_update, seq_to_map, Key, StoreView,
};
use crate::record::{changes_seq, copy_bytes, entries_seq, find_index, opt_bytes, Record};
use vstd::prelude::*;

verus! {

/// What can go wrong when reading, writing or committing.
#[derive(Clone, Copy, Debug, PartialEq, Eq, Structural)]
pub enum StorageError {
    /// The store refused a write: it holds as many keys as it may.
    StoreIo,
    /// The store refused a batch as a whole; nothing of it was applied.
    Commit,
    /// The transaction has committed already.
    AlreadyCommitted,
    /// An earlier commit of the transaction failed; it must not be reused.
    TransactionFailed,
}

/// The map that stored entries stand for.
pub open spec fn entries_map(s: Seq<Record<Vec<u8>>>) -> StoreView {
    seq_to_map(entries_seq(s))
}

proof fn lemma_absent(s: Seq<Record<Vec<u8>>>, k: Key)
    requires
        forall|j: int| 0 <= j < s.len() ==> #[trigger] s[j].key_view() != k,
    ensures
        !has_key(entries_seq(s), k),
        !entries_map(s).contains_key(k),
{
    if has_key(entries_seq(s), k) {
        let i = choose|i: int| 0 <= i < entries_seq(s).len() && #[trigger] entries_seq(s)[i].0 == k;
        assert(s[i].key_view() == k);
    }
}

/// Writes `value` under the key, whether or not the key is present.
fn upsert(entries: &mut Vec<Record<Vec<u8>>>, namespace: Vec<u8>, key: Vec<u8>, value: Vec<u8>)
    requires
        keys_unique(entries_seq(old(entries)@)),
    ensures
        keys_unique(entries_seq(final(entries)@)),
        entries_map(final(entries)@) == entries_map(old(entries)@).insert(
            (namespace@, key@),
            value@,
        ),
{
    let ghost s = entries_seq(entries@);
    let ghost k = (namespace@, key@);
    let ghost v = value@;
    match find_index(entries, &namespace, &key) {
        Some(i) => {
            proof {
                lemma_update(s, i as int, v);
            }
            entries.set(i, Record { namespace, key, value });
            assert(entries_seq(entries@) =~= s.update(i as int, (s[i as int].0, v)));
        },
        None => {
            proof {
                lemma_absent(entries@, k);
                lemma_push(s, k, v);
            }
            entries.push(Record { namespace, key, value });
            assert(entries_seq(entries@) =~= s.push((k, v)));
        },
    }
}

/// Removes the key, if present.
fn remove_key(entries: &mut Vec<Record<Vec<u8>>>, namespace: &Vec<u8>, key: &Vec<u8>)
    requires
        keys_unique(entries_seq(old(entries)@)),
    ensures
        keys_unique(entries_seq(final(entries)@)),
        entries_map(final(entries)@) == entries_map(old(entries)@).remove((namespace@, key@)),
{
    let ghost s = entries_seq(entries@);
    match find_index(entries, namespace, key) {
        Some(i) => {
            proof {
                lemma_remove(s, i as int);
            }
            entries.remove(i);
            assert(entries_seq(entries@) =~= s.remove(i as int));
        },
        None => {
            proof {
                lemma_absent(entries@, (namespace@, key@));
            }
            assert(entries_map(entries@) =~= entries_map(entries@).remove((namespace@, key@)));
        },
    }
}

/// A deep copy of the entries.
fn copy_entries(entries: &Vec<Record<Vec<u8>>>) -> (r: Vec<Record<Vec<u8>>>)
    ensures
        entries_seq(r@) == entries_seq(entries@),
{
    let mut r: Vec<Record<Vec<u8>>> = Vec::new();
    let mut i: usize = 0;
    while i < entries.len()
        invariant
            0 <= i <= entries@.len(),
            r@.len() == i,
            entries_seq(r@) == entries_seq(entries@).subrange(0, i as int),
        decreases entries@.len() - i,
    {
        let e = &entries[i];
        let ghost prev = r@;
        r.push(
            Record {
                namespace: copy_bytes(&e.namespace),
                key: copy_bytes(&e.key),
                value: copy_bytes(&e.value),
            },
        );
        i = i + 1;
        assert forall|j: int| 0 <= j < i implies #[trigger] entries_seq(r@)[j] == entries_seq(
            entries@,
        )[j] by {
            if j < i - 1 {
                assert(r@[j] == prev[j]);
                assert(entries_seq(prev)[j] == entries_seq(entries@).subrange(0, i - 1)[j]);
            }
        }
        assert(entries_seq(r@) =~= entries_seq(entries@).subrange(0, i as int));
    }
    assert(entries_seq(entries@).subrange(0, i as int) =~= entries_seq(entries@));
    r
}

/// An in-memory key-value store, keyed by (namespace, key), that holds at
/// most `max_entries` keys.
pub struct Database {
    entries: Vec<Record<Vec<u8>>>,
    max_entries: usize,
}

impl View for Database {
    type V = StoreView;

    closed spec fn view(&self) -> StoreView {
        entries_map(self.entries@)
    }
}

impl Database {
    /// Keys are unique and their number within the limit.
    pub closed spec fn wf(&self) -> bool {
        &&& keys_unique(entries_seq(self.entries@))
        &&& self.entries@.len() <= self.max_entries
    }

    /// The most keys the store may hold.
    pub closed spec fn limit(&self) -> nat {
        self.max_entries as nat
    }

    proof fn lemma_size(&self)
        requires
            self.wf(),
        ensures
            self@.dom().finite(),
            self@.dom().len() == self.entries@.len(),
            self@.dom().len() <= self.limit(),
    {
        lemma_len(entries_seq(self.entries@));
    }

    /// An empty store with no limit but the machine's.
    pub fn new() -> (r: Database)
        ensures
            r.wf(),
            r@ == Map::<Key, Seq<u8>>::empty(),
            r.limit() == usize::MAX,
    {
        Database::with_max_entries(usize::MAX)
    }

    /// An empty store that holds at most `max_entries` keys.
    pub fn with_max_entries(max_entries: usize) -> (r: Database)
        ensures
            r.wf(),
            r@ == Map::<Key, Seq<u8>>::empty(),
            r.limit() == max_entries,
    {
        let r = Database { entries: Vec::new(), max_entries };
        assert(r@ =~= Map::<Key, Seq<u8>>::empty());
        r
    }

    pub fn max_entries(&self) -> (r: usize)
        ensures
            r == self.limit(),
    {
        self.max_entries
    }

    /// The number of keys held.
    pub fn len(&self) -> (r: usize)
        requires
            self.wf(),
        ensures
            self@.dom().finite(),
            r == self@.dom().len(),
    {
        proof {
            self.lemma_size();
        }
        self.entries.len()
    }

    /// A copy of the store's data and limit, independent of `self`.
    pub fn snapshot(&self) -> (r: Database)
        requires
            self.wf(),
        ensures
            r.wf(),
            r@ == self@,
            r.limit() == self.limit(),
    {
        Database { entries: copy_entries(&self.entries), max_entries: self.max_entries }
    }

    /// The value under (`namespace`, `key`), if any.
    pub fn get(&self, namespace: &Vec<u8>, key: &Vec<u8>) -> (r: Option<Vec<u8>>)
        requires
            self.wf(),
        ensures
            opt_bytes(r) == crate::model::read(self@, (namespace@, key@)),
    {
        match find_index(&self.entries, namespace, key) {
            Some(i) => {
                proof {
                    lemma_index(entries_seq(self.entries@), i as int);
                }
                Some(copy_bytes(&self.entries[i].value))
            },
            None => {
                proof {
                    lemma_absent(self.entries@, (namespace@, key@));
                }
                None
            },
        }
    }

    /// Writes `value` under (`namespace`, `key`). A new key is refused with
    /// `StoreIo` when the store is full; the store is then unchanged.
    pub fn put(&mut self, namespace: Vec<u8>, key: Vec<u8>, value: Vec<u8>) -> (r: Result<
        (),
        StorageError,
    >)
        requires
            old(self).wf(),
        ensures
            final(self).wf(),
            final(self).limit() == old(self).limit(),
            r is Ok <==> (old(self)@.contains_key((namespace@, key@)) || old(self)@.dom().len()
                < old(self).limit()),
            r is Ok ==> final(self)@ == old(self)@.insert((namespace@, key@), value@),
            r is Err ==> r == Err::<(), StorageError>(StorageError::StoreIo) && final(self)@
                == old(self)@,
    {
        proof {
            self.lemma_size();
        }
        let ghost s = entries_seq(self.entries@);
        match find_index(&self.entries, &namespace, &key) {
            Some(i) => {
                proof {
                    lemma_index(s, i as int);
                }
            },
            None => {
                proof {
                    lemma_absent(self.entries@, (namespace@, key@));
                }
                if self.entries.len() >= self.max_entries {
                    return Err(StorageError::StoreIo);
                }
            },
        }
        let ghost k = (namespace@, key@);
        upsert(&mut self.entries, namespace, key, value);
        proof {
            lemma_len(entries_seq(self.entries@));
            assert(self@.dom() =~= old(self)@.dom().insert(k));
        }
        Ok(())
    }

    /// Removes (`namespace`, `key`); a missing key is no error.
    pub fn delete(&mut self, namespace: &Vec<u8>, key: &Vec<u8>)
        requires
            old(self).wf(),
        ensures
            final(self).wf(),
            final(self).limit() == old(self).limit(),
            final(self)@ == old(self)@.remove((namespace@, key@)),
    {
        proof {
            self.lemma_size();
        }
        remove_key(&mut self.entries, namespace, key);
        proof {
            lemma_len(entries_seq(self.entries@));
            assert(self@.dom() =~= old(self)@.dom().remove((namespace@, key@)));
        }
    }

    /// Applies an ordered batch of changes (`None` deletes) as one step: the
    /// whole batch lands, or, when the result would hold more keys than
    /// allowed, nothing does and `Commit` is returned.
    pub fn apply_batch(&mut self, batch: &Vec<Record<Option<Vec<u8>>>>) -> (r: Result<
        (),
        StorageError,
    >)
        requires
            old(self).wf(),
        ensures
            final(self).wf(),
            final(self).limit() == old(self).limit(),
            apply_seq(old(self)@, changes_seq(batch@)).dom().finite(),
            r is Ok <==> apply_seq(old(self)@, changes_seq(batch@)).dom().len() <= old(
                self,
            ).limit(),
            r is Ok ==> final(self)@ == apply_seq(old(self)@, changes_seq(batch@)),
            r is Err ==> r == Err::<(), StorageError>(StorageError::Commit) && *final(self)
                == *old(self),
    {
        let ghost cs = changes_seq(batch@);
        let mut staging = copy_entries(&self.entries);
        let mut i: usize = 0;
        while i < batch.len()
            invariant
                0 <= i <= batch@.len(),
                cs == changes_seq(batch@),
                self.wf(),
                keys_unique(entries_seq(staging@)),
                entries_map(staging@) == apply_seq(self@, cs.subrange(0, i as int)),
            decreases batch@.len() - i,
        {
            let change = &batch[i];
            match &change.value {
                Some(v) => {
                    upsert(
                        &mut staging,
                        copy_bytes(&change.namespace),
                        copy_bytes(&change.key),
                        copy_bytes(v),
                    );
                },
                None => {
                    remove_key(&mut staging, &change.namespace, &change.key);
                },
            }
            proof {
                let p = cs.subrange(0, i as int + 1);
                assert(p.drop_last() =~= cs.subrange(0, i as int));
                assert(p.last() == cs[i as int]);
            }
            i = i + 1;
        }
        assert(cs.subrange(0, i as int) =~= cs);
        proof {
            lemma_len(entries_seq(staging@));
        }
        if staging.len() <= self.max_entries {
            self.entries = staging;
            Ok(())
        } else {
            Err(StorageError::Commit)
        }
    }
}

} // verus!
