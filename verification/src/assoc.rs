//! Association lists in specifications: a sequence of pairs of a key and a value
//! in which no key occurs twice. The order of the pairs is the order in which the
//! keys were first put, and it is the order in which a weighted choice walks them.

use vstd::prelude::*;

verus! {

/// A key in specifications: the characters of an item's name.
pub type Key = Seq<char>;

/// An association list in specifications.
pub type Assoc<V> = Seq<(Key, V)>;

/// Whether some pair of `e` has the key `k`.
pub open spec fn has_key<V>(e: Assoc<V>, k: Key) -> bool {
    exists|i: int| 0 <= i < e.len() && (#[trigger] e[i]).0 == k
}

/// The place of a pair with the key `k`, where `e` has one.
pub open spec fn key_index<V>(e: Assoc<V>, k: Key) -> int {
    choose|i: int| 0 <= i < e.len() && (#[trigger] e[i]).0 == k
}

/// No key occurs in two pairs of `e`.
pub open spec fn distinct_keys<V>(e: Assoc<V>) -> bool {
    forall|i: int, j: int|
        0 <= i < e.len() && 0 <= j < e.len() && i != j ==> (#[trigger] e[i]).0 != (#[trigger] e[j]).0
}

/// The value that `e` gives to `k`, if any.
pub open spec fn lookup<V>(e: Assoc<V>, k: Key) -> Option<V> {
    if has_key(e, k) {
        Some(e[key_index(e, k)].1)
    } else {
        None
    }
}

/// `e` with `k` bound to `v`: in place where `k` is already a key, else at the end.
pub open spec fn put<V>(e: Assoc<V>, k: Key, v: V) -> Assoc<V> {
    if has_key(e, k) {
        e.update(key_index(e, k), (k, v))
    } else {
        e.push((k, v))
    }
}

/// `e` without the pair of `k`; the other pairs keep their order.
pub open spec fn without<V>(e: Assoc<V>, k: Key) -> Assoc<V> {
    if has_key(e, k) {
        e.remove(key_index(e, k))
    } else {
        e
    }
}

/// The finite map that `e` stands for.
pub open spec fn as_map<V>(e: Assoc<V>) -> Map<Key, V> {
    Map::new(|k: Key| has_key(e, k), |k: Key| e[key_index(e, k)].1)
}

/// In a list with distinct keys, a key's place is the one place where it stands.
pub proof fn lemma_key_index<V>(e: Assoc<V>, i: int)
    requires
        distinct_keys(e),
        0 <= i < e.len(),
    ensures
        has_key(e, e[i].0),
        key_index(e, e[i].0) == i,
        lookup(e, e[i].0) == Some(e[i].1),
{
    let j = key_index(e, e[i].0);
    assert(0 <= j < e.len() && e[j].0 == e[i].0);
}

/// `put` keeps the keys distinct, binds `k` to `v` and leaves every other key as it was.
pub proof fn lemma_put<V>(e: Assoc<V>, k: Key, v: V)
    requires
        distinct_keys(e),
    ensures
        distinct_keys(put(e, k, v)),
        has_key(put(e, k, v), k),
        lookup(put(e, k, v), k) == Some(v),
        forall|o: Key| o != k ==> has_key(put(e, k, v), o) == has_key(e, o),
        forall|o: Key| o != k ==> lookup(put(e, k, v), o) == lookup(e, o),
        as_map(put(e, k, v)) == as_map(e).insert(k, v),
{
    let p = put(e, k, v);
    // the place of the new pair, and that every other pair of `e` keeps its place
    let at = if has_key(e, k) {
        key_index(e, k)
    } else {
        e.len() as int
    };
    assert(p[at] == (k, v));
    assert forall|i: int| 0 <= i < e.len() && i != at implies #[trigger] p[i] == e[i] by {}
    assert(distinct_keys(p)) by {
        assert forall|i: int, j: int| 0 <= i < p.len() && 0 <= j < p.len() && i != j implies (
        #[trigger] p[i]).0 != (#[trigger] p[j]).0 by {
            if i != at && j != at {
                assert(p[i] == e[i] && p[j] == e[j]);
            } else if i != at {
                assert(p[i] == e[i]);
            } else {
                assert(p[j] == e[j]);
            }
        }
    }
    lemma_key_index(p, at);
    assert forall|o: Key| o != k implies has_key(p, o) == has_key(e, o) && lookup(p, o) == lookup(
        e,
        o,
    ) by {
        if has_key(e, o) {
            let i = key_index(e, o);
            assert(p[i] == e[i]);
            lemma_key_index(p, i);
        }
        if has_key(p, o) {
            let i = key_index(p, o);
            assert(p[i] == e[i]);
        }
    }
    assert(as_map(p) =~= as_map(e).insert(k, v));
}

/// `without` keeps the keys distinct, drops `k` and leaves every other key as it was.
pub proof fn lemma_without<V>(e: Assoc<V>, k: Key)
    requires
        distinct_keys(e),
    ensures
        distinct_keys(without(e, k)),
        !has_key(without(e, k), k),
        lookup(without(e, k), k) == None::<V>,
        forall|o: Key| o != k ==> has_key(without(e, k), o) == has_key(e, o),
        forall|o: Key| o != k ==> lookup(without(e, k), o) == lookup(e, o),
        as_map(without(e, k)) == as_map(e).remove(k),
{
    let p = without(e, k);
    if has_key(e, k) {
        let at = key_index(e, k);
        // where a pair of `p` stood in `e`
        let from = |i: int|
            if i < at {
                i
            } else {
                i + 1
            };
        assert forall|i: int| 0 <= i < p.len() implies #[trigger] p[i] == e[from(i)] by {}
        assert(distinct_keys(p)) by {
            assert forall|i: int, j: int| 0 <= i < p.len() && 0 <= j < p.len() && i != j implies (
            #[trigger] p[i]).0 != (#[trigger] p[j]).0 by {
                assert(p[i] == e[from(i)] && p[j] == e[from(j)]);
            }
        }
        if has_key(p, k) {
            let i = key_index(p, k);
            assert(p[i] == e[from(i)]);
            assert(e[from(i)].0 == e[at].0);
        }
        assert forall|o: Key| o != k implies has_key(p, o) == has_key(e, o) && lookup(p, o)
            == lookup(e, o) by {
            if has_key(e, o) {
                let i = key_index(e, o);
                let to = if i < at {
                    i
                } else {
                    i - 1
                };
                assert(p[to] == e[i]);
                lemma_key_index(p, to);
            }
            if has_key(p, o) {
                let i = key_index(p, o);
                assert(p[i] == e[from(i)]);
                lemma_key_index(e, from(i));
            }
        }
    }
    assert(as_map(p) =~= as_map(e).remove(k));
}

} // verus!
