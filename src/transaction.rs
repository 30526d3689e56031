//! A transaction: pending writes and tombstones buffered over a base store
//! or over an enclosing transaction.
use crate::database::{Database, StorageError};
use crate::model::{
    apply_changes, apply_seq, has_key, keys_unique, lemma_apply_insert, lemma_apply_seq_unique,
    lemma_index, lemma_push, lemma_update, read, seq_to_map, ChangesView, Key, StoreView,
};
use crate::record::{changes_seq, copy_bytes, find_index, opt_bytes, Record};
use vstd::prelude::*;

verus! {

/// Where a transaction stands. `Committed` and `Failed` are final.
#[derive(Clone, Copy, Debug, PartialEq, Eq, Structural)]
pub enum TransactionState {
    Open,
    Committed,
    Failed,
}

proof fn lemma_absent(s: Seq<Record<Option<Vec<u8>>>>, k: Key)
    requires
        forall|j: int| 0 <= j < s.len() ==> #[trigger] s[j].key_view() != k,
    ensures
        !has_key(changes_seq(s), k),
        !seq_to_map(changes_seq(s)).contains_key(k),
{
    if has_key(changes_seq(s), k) {
        let i = choose|i: int| 0 <= i < changes_seq(s).len() && #[trigger] changes_seq(s)[i].0 == k;
        assert(s[i].key_view() == k);
    }
}

/// Records a pending value (or, for `None`, a tombstone) under the key,
/// replacing what was pending there.
fn record(
    changes: &mut Vec<Record<Option<Vec<u8>>>>,
    namespace: Vec<u8>,
    key: Vec<u8>,
    value: Option<Vec<u8>>,
)
    requires
        keys_unique(changes_seq(old(changes)@)),
    ensures
        keys_unique(changes_seq(final(changes)@)),
        seq_to_map(changes_seq(final(changes)@)) == seq_to_map(changes_seq(old(changes)@)).insert(
            (namespace@, key@),
            opt_bytes(value),
        ),
{
    let ghost s = changes_seq(changes@);
    let ghost k = (namespace@, key@);
    let ghost v = opt_bytes(value);
    match find_index(changes, &namespace, &key) {
        Some(i) => {
            proof {
                lemma_update(s, i as int, v);
            }
            changes.set(i, Record { namespace, key, value });
            assert(changes_seq(changes@) =~= s.update(i as int, (s[i as int].0, v)));
        },
        None => {
            proof {
                lemma_absent(changes@, k);
                lemma_push(s, k, v);
            }
            changes.push(Record { namespace, key, value });
            assert(changes_seq(changes@) =~= s.push((k, v)));
        },
    }
}

/// What a transaction reads through to and commits into: the base store,
/// or an enclosing transaction.
pub enum DataSource {
    Base(Database),
    Parent(Box<DatabaseTransaction>),
}

/// A speculative write session over a base store or over another
/// transaction. Reads see the source with the pending changes laid over it;
/// the source itself changes only when a commit succeeds, and at most one
/// commit ever does.
pub struct DatabaseTransaction {
    changes: Vec<Record<Option<Vec<u8>>>>,
    source: DataSource,
    state: TransactionState,
}

impl View for DatabaseTransaction {
    type V = StoreView;

    /// What reads through the transaction see.
    closed spec fn view(&self) -> StoreView {
        self.overlay_view()
    }
}

impl DatabaseTransaction {
    closed spec fn overlay_view(&self) -> StoreView
        decreases self,
    {
        let below = match self.source {
            DataSource::Base(db) => db@,
            DataSource::Parent(p) => p.overlay_view(),
        };
        apply_changes(below, self.pending())
    }

    pub closed spec fn wf(&self) -> bool
        decreases self,
    {
        &&& keys_unique(changes_seq(self.changes@))
        &&& match self.source {
            DataSource::Base(db) => db.wf(),
            DataSource::Parent(p) => p.wf(),
        }
    }

    /// The pending writes (`Some`) and tombstones (`None`).
    pub closed spec fn pending(&self) -> ChangesView {
        seq_to_map(changes_seq(self.changes@))
    }

    /// What the transaction reads through to.
    pub closed spec fn source(&self) -> DataSource {
        self.source
    }

    /// What reads of the source see.
    pub open spec fn source_view(&self) -> StoreView {
        match self.source() {
            DataSource::Base(db) => db@,
            DataSource::Parent(p) => p@,
        }
    }

    /// The base store at the root of the chain.
    pub closed spec fn root(&self) -> Database
        decreases self,
    {
        match self.source {
            DataSource::Base(db) => db,
            DataSource::Parent(p) => p.root(),
        }
    }

    pub closed spec fn status(&self) -> TransactionState {
        self.state
    }

    pub proof fn lemma_view(&self)
        ensures
            self@ == apply_changes(self.source_view(), self.pending()),
    {
    }

    proof fn lemma_source_wf(&self)
        requires
            self.wf(),
        ensures
            keys_unique(changes_seq(self.changes@)),
            self.source() is Base ==> self.source()->Base_0.wf(),
            self.source() is Parent ==> self.source()->Parent_0.wf(),
    {
    }

    /// Opens a transaction over `database` with nothing pending.
    pub fn begin(database: Database) -> (r: DatabaseTransaction)
        requires
            database.wf(),
        ensures
            r.wf(),
            r.source() == DataSource::Base(database),
            r.pending() == Map::<Key, Option<Seq<u8>>>::empty(),
            r.status() == TransactionState::Open,
            r@ == database@,
    {
        let r = DatabaseTransaction {
            changes: Vec::new(),
            source: DataSource::Base(database),
            state: TransactionState::Open,
        };
        assert(r.pending() =~= Map::<Key, Option<Seq<u8>>>::empty());
        assert(r@ =~= database@);
        r
    }

    /// Opens a transaction nested in this one: it reads through to `self`
    /// and commits into it.
    pub fn transaction(self) -> (r: DatabaseTransaction)
        requires
            self.wf(),
        ensures
            r.wf(),
            r.source() is Parent,
            *r.source()->Parent_0 == self,
            r.pending() == Map::<Key, Option<Seq<u8>>>::empty(),
            r.status() == TransactionState::Open,
            r@ == self@,
    {
        let r = DatabaseTransaction {
            changes: Vec::new(),
            source: DataSource::Parent(Box::new(self)),
            state: TransactionState::Open,
        };
        assert(r.pending() =~= Map::<Key, Option<Seq<u8>>>::empty());
        assert(r@ =~= self@);
        r
    }

    /// What reads through the transaction give for (`namespace`, `key`):
    /// a pending value, nothing for a tombstone, else the source's answer.
    pub fn get(&self, namespace: &Vec<u8>, key: &Vec<u8>) -> (r: Option<Vec<u8>>)
        requires
            self.wf(),
        ensures
            opt_bytes(r) == read(self@, (namespace@, key@)),
            self.pending().contains_key((namespace@, key@)) ==> opt_bytes(r) == self.pending()[(
            namespace@,
            key@,
            )],
            !self.pending().contains_key((namespace@, key@)) ==> opt_bytes(r) == read(
                self.source_view(),
                (namespace@, key@),
            ),
        decreases self,
    {
        match find_index(&self.changes, namespace, key) {
            Some(i) => {
                proof {
                    lemma_index(changes_seq(self.changes@), i as int);
                }
                match &self.changes[i].value {
                    Some(v) => Some(copy_bytes(v)),
                    None => None,
                }
            },
            None => {
                proof {
                    lemma_absent(self.changes@, (namespace@, key@));
                }
                match &self.source {
                    DataSource::Base(db) => db.get(namespace, key),
                    DataSource::Parent(p) => p.get(namespace, key),
                }
            },
        }
    }

    /// Writes `value` in the transaction only; the last write to a key wins.
    pub fn put(&mut self, namespace: Vec<u8>, key: Vec<u8>, value: Vec<u8>)
        requires
            old(self).wf(),
        ensures
            final(self).wf(),
            final(self).pending() == old(self).pending().insert((namespace@, key@), Some(value@)),
            final(self).source() == old(self).source(),
            final(self).status() == old(self).status(),
    {
        record(&mut self.changes, namespace, key, Some(value));
    }

    /// Records a tombstone for the key in the transaction only.
    pub fn delete(&mut self, namespace: Vec<u8>, key: Vec<u8>)
        requires
            old(self).wf(),
        ensures
            final(self).wf(),
            final(self).pending() == old(self).pending().insert((namespace@, key@), None),
            final(self).source() == old(self).source(),
            final(self).status() == old(self).status(),
    {
        record(&mut self.changes, namespace, key, None);
    }

    /// Writes every pending change into the enclosing transaction `parent`,
    /// which then reads as this transaction did.
    fn merge_into(&self, parent: &mut DatabaseTransaction)
        requires
            self.wf(),
            old(parent).wf(),
        ensures
            final(parent).wf(),
            final(parent)@ == apply_changes(old(parent)@, self.pending()),
            final(parent).source() == old(parent).source(),
            final(parent).status() == old(parent).status(),
    {
        let ghost cs = changes_seq(self.changes@);
        let ghost start = parent@;
        let mut i: usize = 0;
        while i < self.changes.len()
            invariant
                0 <= i <= self.changes@.len(),
                cs == changes_seq(self.changes@),
                parent.wf(),
                parent@ == apply_seq(start, cs.subrange(0, i as int)),
                parent.source() == old(parent).source(),
                parent.status() == old(parent).status(),
            decreases self.changes@.len() - i,
        {
            let change = &self.changes[i];
            proof {
                lemma_apply_insert(parent.source_view(), parent.pending(), cs[i as int].0, cs[i as int].1);
            }
            match &change.value {
                Some(v) => parent.put(copy_bytes(&change.namespace), copy_bytes(&change.key), copy_bytes(v)),
                None => parent.delete(copy_bytes(&change.namespace), copy_bytes(&change.key)),
            }
            proof {
                let p = cs.subrange(0, i as int + 1);
                assert(p.drop_last() =~= cs.subrange(0, i as int));
                assert(p.last() == cs[i as int]);
            }
            i = i + 1;
        }
        assert(cs.subrange(0, i as int) =~= cs);
        proof {
            lemma_apply_seq_unique(start, cs);
        }
    }

    /// Merges the pending changes into the source as one step. On success
    /// the source reads as the transaction did, nothing is pending, and the
    /// transaction is `Committed`. A commit into an enclosing transaction
    /// always succeeds. A base store may refuse the batch: it is then
    /// unchanged and the transaction is `Failed`. A transaction that is not
    /// open is left as it is and says why.
    pub fn commit(&mut self) -> (r: Result<(), StorageError>)
        requires
            old(self).wf(),
        ensures
            final(self).wf(),
            final(self).source() is Base <==> old(self).source() is Base,
            final(self).source() is Base ==> final(self).source()->Base_0.limit() == old(
                self,
            ).source()->Base_0.limit(),
            old(self).status() == TransactionState::Committed ==> r == Err::<(), StorageError>(
                StorageError::AlreadyCommitted,
            ) && *final(self) == *old(self),
            old(self).status() == TransactionState::Failed ==> r == Err::<(), StorageError>(
                StorageError::TransactionFailed,
            ) && *final(self) == *old(self),
            old(self).status() == TransactionState::Open && old(self).source() is Base ==> {
                &&& old(self)@.dom().finite()
                &&& (r is Ok <==> old(self)@.dom().len() <= old(self).source()->Base_0.limit())
            },
            old(self).status() == TransactionState::Open && old(self).source() is Parent ==> {
                &&& r is Ok
                &&& final(self).source()->Parent_0.source() == old(self).source()->Parent_0.source()
                &&& final(self).source()->Parent_0.status() == old(self).source()->Parent_0.status()
            },
            r is Ok ==> {
                &&& old(self).status() == TransactionState::Open
                &&& final(self).source_view() == old(self)@
                &&& final(self).pending() == Map::<Key, Option<Seq<u8>>>::empty()
                &&& final(self).status() == TransactionState::Committed
            },
            old(self).status() == TransactionState::Open && r is Err ==> {
                &&& r == Err::<(), StorageError>(StorageError::Commit)
                &&& final(self).source() == old(self).source()
                &&& final(self).pending() == old(self).pending()
                &&& final(self).status() == TransactionState::Failed
            },
    {
        match self.state {
            TransactionState::Committed => Err(StorageError::AlreadyCommitted),
            TransactionState::Failed => Err(StorageError::TransactionFailed),
            TransactionState::Open => {
                proof {
                    lemma_apply_seq_unique(self.source_view(), changes_seq(self.changes@));
                    self.lemma_source_wf();
                }
                let mut source = DataSource::Base(Database::new());
                core::mem::swap(&mut self.source, &mut source);
                match source {
                    DataSource::Base(mut db) => {
                        let applied = db.apply_batch(&self.changes);
                        self.source = DataSource::Base(db);
                        match applied {
                            Ok(()) => {
                                self.changes = Vec::new();
                                self.state = TransactionState::Committed;
                                assert(self.pending() =~= Map::<Key, Option<Seq<u8>>>::empty());
                                Ok(())
                            },
                            Err(_) => {
                                self.state = TransactionState::Failed;
                                Err(StorageError::Commit)
                            },
                        }
                    },
                    DataSource::Parent(p) => {
                        let mut parent = *p;
                        self.merge_into(&mut parent);
                        self.source = DataSource::Parent(Box::new(parent));
                        self.changes = Vec::new();
                        self.state = TransactionState::Committed;
                        assert(self.pending() =~= Map::<Key, Option<Seq<u8>>>::empty());
                        Ok(())
                    },
                }
            },
        }
    }

    pub fn state(&self) -> (r: TransactionState)
        ensures
            r == self.status(),
    {
        self.state
    }

    /// The base store at the root of the chain, as committed so far.
    pub fn database(&self) -> (r: &Database)
        ensures
            *r == self.root(),
            self.wf() ==> r.wf(),
            self.source() is Base ==> *r == self.source()->Base_0,
        decreases self,
    {
        match &self.source {
            DataSource::Base(db) => db,
            DataSource::Parent(p) => p.database(),
        }
    }

    /// Ends the transaction and hands back its source. Whatever is still
    /// pending is discarded without touching the source.
    pub fn into_source(self) -> (r: DataSource)
        ensures
            r == self.source(),
    {
        self.source
    }

    /// Ends the transaction, and every enclosing one, and hands back the
    /// base store at the root. Whatever is still pending is discarded.
    pub fn into_database(self) -> (r: Database)
        ensures
            r == self.root(),
            self.wf() ==> r.wf(),
            self.source() is Base ==> r == self.source()->Base_0,
        decreases self,
    {
        match self.source {
            DataSource::Base(db) => db,
            DataSource::Parent(p) => p.into_database(),
        }
    }
}

impl Database {
    /// Opens a transaction over this store.
    pub fn transaction(self) -> (r: DatabaseTransaction)
        requires
            self.wf(),
        ensures
            r.wf(),
            r.source() == DataSource::Base(self),
            r.pending() == Map::<Key, Option<Seq<u8>>>::empty(),
            r.status() == TransactionState::Open,
    {
        DatabaseTransaction::begin(self)
    }
}

impl Default for DatabaseTransaction {
    /// A transaction over a fresh, empty store with no limit.
    fn default() -> (r: DatabaseTransaction)
        ensures
            r.wf(),
            r.source() is Base,
            r.source_view() == Map::<Key, Seq<u8>>::empty(),
            r.source()->Base_0.limit() == usize::MAX,
            r.pending() == Map::<Key, Option<Seq<u8>>>::empty(),
            r.status() == TransactionState::Open,
    {
        DatabaseTransaction::begin(Database::new())
    }
}

} // verus!
