use transactional::database::{Database, StorageError};
use transactional::record::Record;
use transactional::transaction::{DataSource, DatabaseTransaction, TransactionState};

fn b(s: &str) -> Vec<u8> {
    s.as_bytes().to_vec()
}

fn base_with(pairs: &[(&str, &str, &str)]) -> Database {
    let mut db = Database::new();
    for (ns, k, v) in pairs {
        assert_eq!(db.put(b(ns), b(k), b(v)), Ok(()));
    }
    db
}

#[test]
fn put_then_delete_then_commit_scenario() {
    let db = Database::new();
    let mut t = DatabaseTransaction::begin(db);
    t.put(b("ns"), b("a"), b("1"));
    t.put(b("ns"), b("b"), b("2"));
    t.delete(b("ns"), b("a"));
    assert_eq!(t.commit(), Ok(()));
    let db = t.into_database();
    assert_eq!(db.get(&b("ns"), &b("a")), None);
    assert_eq!(db.get(&b("ns"), &b("b")), Some(b("2")));
    assert_eq!(db.len(), 1);
}

#[test]
fn writes_are_invisible_to_base_before_commit() {
    let mut t = base_with(&[("ns", "k", "old")]).transaction();
    t.put(b("ns"), b("k"), b("new"));
    t.put(b("ns"), b("other"), b("x"));
    t.delete(b("ns"), b("k"));
    assert_eq!(t.database().get(&b("ns"), &b("k")), Some(b("old")));
    assert_eq!(t.database().get(&b("ns"), &b("other")), None);
    assert_eq!(t.database().len(), 1);
}

#[test]
fn read_your_own_writes_over_base_value() {
    let mut t = base_with(&[("ns", "k", "base")]).transaction();
    assert_eq!(t.get(&b("ns"), &b("k")), Some(b("base")));
    t.put(b("ns"), b("k"), b("mine"));
    assert_eq!(t.get(&b("ns"), &b("k")), Some(b("mine")));
    t.put(b("ns"), b("k"), b("again"));
    assert_eq!(t.get(&b("ns"), &b("k")), Some(b("again")));
}

#[test]
fn tombstone_hides_base_value() {
    let mut t = base_with(&[("ns", "k", "base")]).transaction();
    t.delete(b("ns"), b("k"));
    assert_eq!(t.get(&b("ns"), &b("k")), None);
    t.put(b("ns"), b("k"), b("back"));
    assert_eq!(t.get(&b("ns"), &b("k")), Some(b("back")));
}

#[test]
fn namespaces_are_separate() {
    let mut t = DatabaseTransaction::default();
    t.put(b("one"), b("k"), b("1"));
    assert_eq!(t.get(&b("two"), &b("k")), None);
    assert_eq!(t.get(&b("one"), &b("k")), Some(b("1")));
}

#[test]
fn commit_changes_only_pending_keys() {
    let db = base_with(&[("ns", "keep", "1"), ("ns", "gone", "2"), ("ns", "edit", "3")]);
    let mut t = DatabaseTransaction::begin(db);
    t.delete(b("ns"), b("gone"));
    t.put(b("ns"), b("edit"), b("33"));
    t.put(b("ns"), b("new"), b("4"));
    t.delete(b("ns"), b("never"));
    assert_eq!(t.commit(), Ok(()));
    assert_eq!(t.state(), TransactionState::Committed);
    let db = t.into_database();
    assert_eq!(db.get(&b("ns"), &b("keep")), Some(b("1")));
    assert_eq!(db.get(&b("ns"), &b("gone")), None);
    assert_eq!(db.get(&b("ns"), &b("edit")), Some(b("33")));
    assert_eq!(db.get(&b("ns"), &b("new")), Some(b("4")));
    assert_eq!(db.get(&b("ns"), &b("never")), None);
    assert_eq!(db.len(), 3);
}

#[test]
fn second_commit_is_refused() {
    let mut t = DatabaseTransaction::default();
    t.put(b("ns"), b("a"), b("1"));
    assert_eq!(t.commit(), Ok(()));
    t.put(b("ns"), b("a"), b("2"));
    assert_eq!(t.commit(), Err(StorageError::AlreadyCommitted));
    assert_eq!(t.database().get(&b("ns"), &b("a")), Some(b("1")));
}

#[test]
fn refused_batch_leaves_base_unchanged() {
    let mut db = Database::with_max_entries(2);
    assert_eq!(db.put(b("ns"), b("a"), b("1")), Ok(()));
    let mut t = db.transaction();
    t.put(b("ns"), b("b"), b("2"));
    t.put(b("ns"), b("c"), b("3"));
    t.put(b("ns"), b("a"), b("9"));
    assert_eq!(t.commit(), Err(StorageError::Commit));
    assert_eq!(t.state(), TransactionState::Failed);
    assert_eq!(t.database().len(), 1);
    assert_eq!(t.database().get(&b("ns"), &b("a")), Some(b("1")));
    assert_eq!(t.commit(), Err(StorageError::TransactionFailed));
}

#[test]
fn commit_within_limit_after_deletes() {
    let mut db = Database::with_max_entries(2);
    assert_eq!(db.put(b("ns"), b("a"), b("1")), Ok(()));
    assert_eq!(db.put(b("ns"), b("b"), b("2")), Ok(()));
    let mut t = db.transaction();
    t.put(b("ns"), b("c"), b("3"));
    t.delete(b("ns"), b("a"));
    assert_eq!(t.commit(), Ok(()));
    assert_eq!(t.database().len(), 2);
}

#[test]
fn discarding_leaves_base_unchanged() {
    let db = base_with(&[("ns", "a", "1"), ("ns", "b", "2")]);
    let mut t = DatabaseTransaction::begin(db);
    t.put(b("ns"), b("a"), b("x"));
    t.delete(b("ns"), b("b"));
    t.put(b("ns"), b("c"), b("3"));
    assert_eq!(t.state(), TransactionState::Open);
    let db = t.into_database();
    assert_eq!(db.get(&b("ns"), &b("a")), Some(b("1")));
    assert_eq!(db.get(&b("ns"), &b("b")), Some(b("2")));
    assert_eq!(db.get(&b("ns"), &b("c")), None);
    assert_eq!(db.len(), 2);
}

#[test]
fn transactions_from_one_base_agree_on_unwritten_keys() {
    let db = base_with(&[("ns", "shared", "s"), ("ns", "x", "0")]);
    let mut t1 = DatabaseTransaction::begin(db.snapshot());
    let mut t2 = DatabaseTransaction::begin(db.snapshot());
    t1.put(b("ns"), b("x"), b("1"));
    t2.delete(b("ns"), b("x"));
    assert_eq!(t1.get(&b("ns"), &b("shared")), t2.get(&b("ns"), &b("shared")));
    assert_eq!(t1.get(&b("ns"), &b("shared")), Some(b("s")));
    assert_eq!(t1.get(&b("ns"), &b("absent")), t2.get(&b("ns"), &b("absent")));
    assert_eq!(t1.get(&b("ns"), &b("x")), Some(b("1")));
    assert_eq!(t2.get(&b("ns"), &b("x")), None);
}

#[test]
fn default_transaction_is_empty_and_open() {
    let t = DatabaseTransaction::default();
    assert_eq!(t.state(), TransactionState::Open);
    assert_eq!(t.database().len(), 0);
    assert_eq!(t.database().max_entries(), usize::MAX);
    assert_eq!(t.get(&b("ns"), &b("a")), None);
}

#[test]
fn full_store_refuses_new_key_only() {
    let mut db = Database::with_max_entries(1);
    assert_eq!(db.put(b("ns"), b("a"), b("1")), Ok(()));
    assert_eq!(db.put(b("ns"), b("b"), b("2")), Err(StorageError::StoreIo));
    assert_eq!(db.put(b("ns"), b("a"), b("3")), Ok(()));
    assert_eq!(db.get(&b("ns"), &b("a")), Some(b("3")));
    assert_eq!(db.get(&b("ns"), &b("b")), None);
}

#[test]
fn store_delete_of_missing_key_is_harmless() {
    let mut db = base_with(&[("ns", "a", "1")]);
    db.delete(&b("ns"), &b("zzz"));
    assert_eq!(db.len(), 1);
    db.delete(&b("ns"), &b("a"));
    assert_eq!(db.len(), 0);
    assert_eq!(db.get(&b("ns"), &b("a")), None);
}

#[test]
fn batch_applies_in_order() {
    let mut db = base_with(&[("ns", "a", "1")]);
    let batch = vec![
        Record { namespace: b("ns"), key: b("b"), value: Some(b("2")) },
        Record { namespace: b("ns"), key: b("b"), value: None },
        Record { namespace: b("ns"), key: b("a"), value: Some(b("10")) },
        Record { namespace: b("ns"), key: b("c"), value: None },
        Record { namespace: b("ns"), key: b("c"), value: Some(b("3")) },
    ];
    assert_eq!(db.apply_batch(&batch), Ok(()));
    assert_eq!(db.get(&b("ns"), &b("a")), Some(b("10")));
    assert_eq!(db.get(&b("ns"), &b("b")), None);
    assert_eq!(db.get(&b("ns"), &b("c")), Some(b("3")));
    assert_eq!(db.len(), 2);
}

#[test]
fn batch_over_limit_is_refused_whole() {
    let mut db = Database::with_max_entries(2);
    assert_eq!(db.put(b("ns"), b("a"), b("1")), Ok(()));
    let batch = vec![
        Record { namespace: b("ns"), key: b("a"), value: None },
        Record { namespace: b("ns"), key: b("b"), value: Some(b("2")) },
        Record { namespace: b("ns"), key: b("c"), value: Some(b("3")) },
        Record { namespace: b("ns"), key: b("d"), value: Some(b("4")) },
    ];
    assert_eq!(db.apply_batch(&batch), Err(StorageError::Commit));
    assert_eq!(db.len(), 1);
    assert_eq!(db.get(&b("ns"), &b("a")), Some(b("1")));
}

#[test]
fn snapshot_is_independent() {
    let mut db = base_with(&[("ns", "a", "1")]);
    let copy = db.snapshot();
    assert_eq!(db.put(b("ns"), b("a"), b("2")), Ok(()));
    assert_eq!(copy.get(&b("ns"), &b("a")), Some(b("1")));
    assert_eq!(copy.max_entries(), db.max_entries());
}

#[test]
fn nested_transaction_reads_through_parent() {
    let mut outer = base_with(&[("ns", "base", "b"), ("ns", "hidden", "h")]).transaction();
    outer.put(b("ns"), b("outer"), b("o"));
    outer.delete(b("ns"), b("hidden"));
    let mut inner = outer.transaction();
    assert_eq!(inner.get(&b("ns"), &b("base")), Some(b("b")));
    assert_eq!(inner.get(&b("ns"), &b("outer")), Some(b("o")));
    assert_eq!(inner.get(&b("ns"), &b("hidden")), None);
    inner.put(b("ns"), b("outer"), b("i"));
    assert_eq!(inner.get(&b("ns"), &b("outer")), Some(b("i")));
    assert_eq!(inner.database().get(&b("ns"), &b("hidden")), Some(b("h")));
}

#[test]
fn nested_commit_lands_in_parent_only() {
    let mut outer = base_with(&[("ns", "a", "1"), ("ns", "b", "2")]).transaction();
    outer.put(b("ns"), b("c"), b("3"));
    let mut inner = outer.transaction();
    inner.put(b("ns"), b("a"), b("10"));
    inner.delete(b("ns"), b("c"));
    inner.delete(b("ns"), b("b"));
    assert_eq!(inner.commit(), Ok(()));
    assert_eq!(inner.commit(), Err(StorageError::AlreadyCommitted));
    assert_eq!(inner.database().get(&b("ns"), &b("a")), Some(b("1")));
    let mut outer = match inner.into_source() {
        DataSource::Parent(p) => *p,
        DataSource::Base(_) => panic!("expected an enclosing transaction"),
    };
    assert_eq!(outer.state(), TransactionState::Open);
    assert_eq!(outer.get(&b("ns"), &b("a")), Some(b("10")));
    assert_eq!(outer.get(&b("ns"), &b("b")), None);
    assert_eq!(outer.get(&b("ns"), &b("c")), None);
    assert_eq!(outer.commit(), Ok(()));
    let db = outer.into_database();
    assert_eq!(db.get(&b("ns"), &b("a")), Some(b("10")));
    assert_eq!(db.get(&b("ns"), &b("b")), None);
    assert_eq!(db.get(&b("ns"), &b("c")), None);
    assert_eq!(db.len(), 1);
}

#[test]
fn discarding_nested_transaction_leaves_parent_unchanged() {
    let mut outer = DatabaseTransaction::default();
    outer.put(b("ns"), b("a"), b("1"));
    let mut inner = outer.transaction();
    inner.put(b("ns"), b("a"), b("2"));
    inner.put(b("ns"), b("b"), b("3"));
    let outer = match inner.into_source() {
        DataSource::Parent(p) => *p,
        DataSource::Base(_) => panic!("expected an enclosing transaction"),
    };
    assert_eq!(outer.get(&b("ns"), &b("a")), Some(b("1")));
    assert_eq!(outer.get(&b("ns"), &b("b")), None);
}
