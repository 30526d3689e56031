//! Mathematical model of the key-value data: a store is a finite map from
//! (namespace, key) to bytes, and a set of pending changes maps a key to a
//! value or to a tombstone (`None`).
use vstd::prelude::*;

verus! {

/// A (namespace, key) pair.
pub type Key = (Seq<u8>, Seq<u8>);

/// What a store holds.
pub type StoreView = Map<Key, Seq<u8>>;

/// Pending writes: `Some(v)` writes `v`, `None` is a tombstone.
pub type ChangesView = Map<Key, Option<Seq<u8>>>;

/// The answer of a point read.
pub open spec fn read(view: StoreView, k: Key) -> Option<Seq<u8>> {
    if view.contains_key(k) {
        Some(view[k])
    } else {
        None
    }
}

/// The store `base` as seen through `changes`: a pending entry wins over
/// the base, a tombstone hides the key, other keys fall through.
pub open spec fn apply_changes(base: StoreView, changes: ChangesView) -> StoreView {
    Map::new(
        |k: Key|
            if changes.contains_key(k) {
                changes[k] is Some
            } else {
                base.contains_key(k)
            },
        |k: Key|
            if changes.contains_key(k) {
                changes[k]->Some_0
            } else {
                base[k]
            },
    )
}

/// One change applied to a store.
pub open spec fn apply_one(m: StoreView, c: (Key, Option<Seq<u8>>)) -> StoreView {
    match c.1 {
        Some(v) => m.insert(c.0, v),
        None => m.remove(c.0),
    }
}

/// An ordered batch of changes applied one after the other.
pub open spec fn apply_seq(m: StoreView, s: Seq<(Key, Option<Seq<u8>>)>) -> StoreView
    decreases s.len(),
{
    if s.len() == 0 {
        m
    } else {
        apply_one(apply_seq(m, s.drop_last()), s.last())
    }
}

/// No key occurs twice in `s`.
pub open spec fn keys_unique<W>(s: Seq<(Key, W)>) -> bool {
    forall|i: int, j: int|
        0 <= i < s.len() && 0 <= j < s.len() && #[trigger] s[i].0 == #[trigger] s[j].0 ==> i == j
}

/// `k` is the key of some element of `s`.
pub open spec fn has_key<W>(s: Seq<(Key, W)>, k: Key) -> bool {
    exists|i: int| 0 <= i < s.len() && #[trigger] s[i].0 == k
}

/// The map that a sequence of (key, value) pairs stands for.
pub open spec fn seq_to_map<W>(s: Seq<(Key, W)>) -> Map<Key, W> {
    Map::new(
        |k: Key| has_key(s, k),
        |k: Key| s[choose|i: int| 0 <= i < s.len() && #[trigger] s[i].0 == k].1,
    )
}

pub proof fn lemma_index<W>(s: Seq<(Key, W)>, i: int)
    requires
        keys_unique(s),
        0 <= i < s.len(),
    ensures
        seq_to_map(s).contains_key(s[i].0),
        seq_to_map(s)[s[i].0] == s[i].1,
{
    let k = s[i].0;
    assert(has_key(s, k));
    let j = choose|j: int| 0 <= j < s.len() && #[trigger] s[j].0 == k;
    assert(s[j].0 == s[i].0);
}

pub proof fn lemma_push<W>(s: Seq<(Key, W)>, k: Key, w: W)
    requires
        keys_unique(s),
        !has_key(s, k),
    ensures
        keys_unique(s.push((k, w))),
        seq_to_map(s.push((k, w))) == seq_to_map(s).insert(k, w),
{
    let t = s.push((k, w));
    assert forall|i: int, j: int|
        0 <= i < t.len() && 0 <= j < t.len() && #[trigger] t[i].0 == #[trigger] t[j].0 implies i
        == j by {
        if i < s.len() && j < s.len() {
            assert(s[i].0 == s[j].0);
        } else if i < s.len() {
            assert(s[i].0 == k);
        } else if j < s.len() {
            assert(s[j].0 == k);
        }
    }
    let a = seq_to_map(t);
    let b = seq_to_map(s).insert(k, w);
    assert forall|x: Key| #[trigger] a.contains_key(x) == b.contains_key(x) by {
        if has_key(s, x) {
            let i = choose|i: int| 0 <= i < s.len() && #[trigger] s[i].0 == x;
            assert(t[i].0 == x);
        }
        if x == k {
            assert(t[s.len() as int].0 == k);
        }
        if has_key(t, x) && x != k {
            let i = choose|i: int| 0 <= i < t.len() && #[trigger] t[i].0 == x;
            assert(s[i].0 == x);
        }
    }
    assert forall|x: Key| #[trigger] a.contains_key(x) implies a[x] == b[x] by {
        if x == k {
            lemma_index(t, s.len() as int);
        } else {
            let i = choose|i: int| 0 <= i < t.len() && #[trigger] t[i].0 == x;
            lemma_index(t, i);
            assert(s[i] == t[i]);
            lemma_index(s, i);
        }
    }
    assert(a =~= b);
}

pub proof fn lemma_update<W>(s: Seq<(Key, W)>, i: int, w: W)
    requires
        keys_unique(s),
        0 <= i < s.len(),
    ensures
        keys_unique(s.update(i, (s[i].0, w))),
        seq_to_map(s.update(i, (s[i].0, w))) == seq_to_map(s).insert(s[i].0, w),
{
    let k = s[i].0;
    let t = s.update(i, (k, w));
    assert forall|a: int, b: int|
        0 <= a < t.len() && 0 <= b < t.len() && #[trigger] t[a].0 == #[trigger] t[b].0 implies a
        == b by {
        assert(s[a].0 == t[a].0 && s[b].0 == t[b].0);
    }
    let m1 = seq_to_map(t);
    let m2 = seq_to_map(s).insert(k, w);
    assert forall|x: Key| #[trigger] m1.contains_key(x) == m2.contains_key(x) by {
        if has_key(s, x) {
            let j = choose|j: int| 0 <= j < s.len() && #[trigger] s[j].0 == x;
            assert(t[j].0 == x);
        }
        if has_key(t, x) {
            let j = choose|j: int| 0 <= j < t.len() && #[trigger] t[j].0 == x;
            assert(s[j].0 == x);
        }
        if x == k {
            assert(t[i].0 == k);
        }
    }
    assert forall|x: Key| #[trigger] m1.contains_key(x) implies m1[x] == m2[x] by {
        let j = choose|j: int| 0 <= j < t.len() && #[trigger] t[j].0 == x;
        lemma_index(t, j);
        if j != i {
            assert(s[j] == t[j]);
            lemma_index(s, j);
        }
    }
    assert(m1 =~= m2);
}

pub proof fn lemma_remove<W>(s: Seq<(Key, W)>, i: int)
    requires
        keys_unique(s),
        0 <= i < s.len(),
    ensures
        keys_unique(s.remove(i)),
        seq_to_map(s.remove(i)) == seq_to_map(s).remove(s[i].0),
{
    let k = s[i].0;
    let t = s.remove(i);
    assert forall|a: int| 0 <= a < t.len() implies #[trigger] t[a] == s[if a < i { a } else { a + 1 }] by {}
    assert forall|a: int, b: int|
        0 <= a < t.len() && 0 <= b < t.len() && #[trigger] t[a].0 == #[trigger] t[b].0 implies a
        == b by {
        let a1 = if a < i { a } else { a + 1 };
        let b1 = if b < i { b } else { b + 1 };
        assert(s[a1].0 == s[b1].0);
    }
    let m1 = seq_to_map(t);
    let m2 = seq_to_map(s).remove(k);
    assert forall|x: Key| #[trigger] m1.contains_key(x) == m2.contains_key(x) by {
        if has_key(s, x) && x != k {
            let j = choose|j: int| 0 <= j < s.len() && #[trigger] s[j].0 == x;
            assert(j != i);
            let j1 = if j < i { j } else { j - 1 };
            assert(t[j1] == s[j]);
        }
        if has_key(t, x) {
            let j = choose|j: int| 0 <= j < t.len() && #[trigger] t[j].0 == x;
            let j1 = if j < i { j } else { j + 1 };
            assert(s[j1].0 == x);
            assert(j1 != i);
        }
    }
    assert forall|x: Key| #[trigger] m1.contains_key(x) implies m1[x] == m2[x] by {
        let j = choose|j: int| 0 <= j < t.len() && #[trigger] t[j].0 == x;
        let j1 = if j < i { j } else { j + 1 };
        lemma_index(t, j);
        assert(s[j1] == t[j]);
        lemma_index(s, j1);
    }
    assert(m1 =~= m2);
}

/// With unique keys, the map has exactly as many keys as the sequence has
/// elements.
pub proof fn lemma_len<W>(s: Seq<(Key, W)>)
    requires
        keys_unique(s),
    ensures
        seq_to_map(s).dom().finite(),
        seq_to_map(s).dom().len() == s.len(),
    decreases s.len(),
{
    if s.len() == 0 {
        assert(seq_to_map(s).dom() =~= Set::empty());
    } else {
        let t = s.drop_last();
        assert forall|i: int, j: int|
            0 <= i < t.len() && 0 <= j < t.len() && #[trigger] t[i].0 == #[trigger] t[j].0 implies i
            == j by {
            assert(s[i].0 == s[j].0);
        }
        lemma_len(t);
        if has_key(t, s.last().0) {
            let j = choose|j: int| 0 <= j < t.len() && #[trigger] t[j].0 == s.last().0;
            assert(s[j].0 == s[s.len() - 1].0);
        }
        lemma_push(t, s.last().0, s.last().1);
        assert(t.push(s.last()) =~= s);
    }
}

/// Applying one more change to the overlaid store is the same as recording
/// it among the changes.
pub proof fn lemma_apply_insert(m: StoreView, c: ChangesView, k: Key, o: Option<Seq<u8>>)
    ensures
        apply_one(apply_changes(m, c), (k, o)) == apply_changes(m, c.insert(k, o)),
{
    assert(apply_one(apply_changes(m, c), (k, o)) =~= apply_changes(m, c.insert(k, o)));
}

/// An ordered batch whose keys are unique has the effect of its map.
pub proof fn lemma_apply_seq_unique(m: StoreView, s: Seq<(Key, Option<Seq<u8>>)>)
    requires
        keys_unique(s),
    ensures
        apply_seq(m, s) == apply_changes(m, seq_to_map(s)),
    decreases s.len(),
{
    if s.len() == 0 {
        assert(apply_changes(m, seq_to_map(s)) =~= m);
    } else {
        let t = s.drop_last();
        assert forall|i: int, j: int|
            0 <= i < t.len() && 0 <= j < t.len() && #[trigger] t[i].0 == #[trigger] t[j].0 implies i
            == j by {
            assert(s[i].0 == s[j].0);
        }
        lemma_apply_seq_unique(m, t);
        if has_key(t, s.last().0) {
            let j = choose|j: int| 0 <= j < t.len() && #[trigger] t[j].0 == s.last().0;
            assert(s[j].0 == s[s.len() - 1].0);
        }
        lemma_push(t, s.last().0, s.last().1);
        assert(t.push(s.last()) =~= s);
        lemma_apply_insert(m, seq_to_map(t), s.last().0, s.last().1);
    }
}

} // verus!
