//! Records keyed by (namespace, key), and the byte helpers that go with them.
use crate::model::Key;
use vstd::prelude::*;

verus! {

/// A value stored under a namespace and a key.
#[derive(Debug)]
pub struct Record<V> {
    pub namespace: Vec<u8>,
    pub key: Vec<u8>,
    pub value: V,
}

impl<V> Record<V> {
    pub open spec fn key_view(&self) -> Key {
        (self.namespace@, self.key@)
    }
}

/// The bytes of an optional value.
pub open spec fn opt_bytes(o: Option<Vec<u8>>) -> Option<Seq<u8>> {
    match o {
        Some(v) => Some(v@),
        None => None,
    }
}

/// Stored entries as (key, bytes) pairs.
pub open spec fn entries_seq(s: Seq<Record<Vec<u8>>>) -> Seq<(Key, Seq<u8>)> {
    s.map_values(|r: Record<Vec<u8>>| (r.key_view(), r.value@))
}

/// Pending changes as (key, value or tombstone) pairs.
pub open spec fn changes_seq(s: Seq<Record<Option<Vec<u8>>>>) -> Seq<(Key, Option<Seq<u8>>)> {
    s.map_values(|r: Record<Option<Vec<u8>>>| (r.key_view(), opt_bytes(r.value)))
}

pub fn bytes_eq(a: &Vec<u8>, b: &Vec<u8>) -> (r: bool)
    ensures
        r == (a@ == b@),
{
    if a.len() != b.len() {
        return false;
    }
    let mut i: usize = 0;
    while i < a.len()
        invariant
            a@.len() == b@.len(),
            0 <= i <= a@.len(),
            forall|j: int| 0 <= j < i ==> a@[j] == b@[j],
        decreases a@.len() - i,
    {
        if a[i] != b[i] {
            return false;
        }
        i = i + 1;
    }
    assert(a@ =~= b@);
    true
}

pub fn copy_bytes(a: &Vec<u8>) -> (r: Vec<u8>)
    ensures
        r@ == a@,
{
    let mut r: Vec<u8> = Vec::new();
    let mut i: usize = 0;
    while i < a.len()
        invariant
            0 <= i <= a@.len(),
            r@ == a@.subrange(0, i as int),
        decreases a@.len() - i,
    {
        r.push(a[i]);
        i = i + 1;
        assert(r@ =~= a@.subrange(0, i as int));
    }
    assert(a@.subrange(0, a@.len() as int) =~= a@);
    r
}

/// The position of the record under (`namespace`, `key`), if any.
pub fn find_index<V>(records: &Vec<Record<V>>, namespace: &Vec<u8>, key: &Vec<u8>) -> (r: Option<
    usize,
>)
    ensures
        match r {
            Some(i) => i < records@.len() && records@[i as int].key_view() == (namespace@, key@),
            None => forall|j: int|
                0 <= j < records@.len() ==> #[trigger] records@[j].key_view() != (namespace@, key@),
        },
{
    let mut i: usize = 0;
    while i < records.len()
        invariant
            0 <= i <= records@.len(),
            forall|j: int|
                0 <= j < i ==> #[trigger] records@[j].key_view() != (namespace@, key@),
        decreases records@.len() - i,
    {
        if bytes_eq(&records[i].namespace, namespace) && bytes_eq(&records[i].key, key) {
            return Some(i);
        }
        i = i + 1;
    }
    None
}

} // verus!
