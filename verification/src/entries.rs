//! Ordered key/value entries: the top level of a configuration document, with
//! the map operations that the formats perform on it.

use vstd::prelude::*;

use crate::sorting::ev;
use crate::text::same_text;

verus! {

/// Whether no key occurs twice in `m`.
pub open spec fn keys_distinct<V>(m: Seq<(Seq<char>, V)>) -> bool {
    forall|i: int, j: int| 0 <= i < j < m.len() ==> #[trigger] m[i].0 != #[trigger] m[j].0
}

/// Whether `k` is a key of `m`.
pub open spec fn has_key<V>(m: Seq<(Seq<char>, V)>, k: Seq<char>) -> bool {
    exists|i: int| 0 <= i < m.len() && #[trigger] m[i].0 == k
}

/// The value of `k` in `m` (its first entry), if any.
pub open spec fn lookup<V>(m: Seq<(Seq<char>, V)>, k: Seq<char>) -> Option<V> {
    if has_key(m, k) {
        Some(m[key_index(m, k)].1)
    } else {
        None
    }
}

/// `m` with `k` bound to `v`: replaced in place when `k` is a key of `m`,
/// added at the end otherwise.
pub open spec fn assoc_insert<V>(m: Seq<(Seq<char>, V)>, k: Seq<char>, v: V) -> Seq<(Seq<char>, V)> {
    if has_key(m, k) {
        m.update(key_index(m, k), (k, v))
    } else {
        m.push((k, v))
    }
}

/// The position of `k` in `m` (its first entry), meaningful when `k` is a key.
pub open spec fn key_index<V>(m: Seq<(Seq<char>, V)>, k: Seq<char>) -> int {
    choose|i: int| 0 <= i < m.len() && #[trigger] m[i].0 == k
}

/// Where `k` stands in `m`, if it is a key of `m`.
pub fn find_key<V>(m: &Vec<(String, V)>, k: &str) -> (r: Option<usize>)
    requires
        keys_distinct(ev(m@)),
    ensures
        match r {
            Some(i) => has_key(ev(m@), k@) && i == key_index(ev(m@), k@) && i < m@.len()
                && m@[i as int].0@ == k@,
            None => !has_key(ev(m@), k@),
        },
{
    let ghost v = ev(m@);
    let mut i: usize = 0;
    while i < m.len()
        invariant
            i <= m@.len(),
            v == ev(m@),
            keys_distinct(v),
            forall|j: int| 0 <= j < i ==> #[trigger] v[j].0 != k@,
        decreases m.len() - i,
    {
        if same_text(m[i].0.as_str(), k) {
            proof {
                assert(v[i as int].0 == k@);
                let w = key_index(v, k@);
                assert(0 <= w < v.len() && v[w].0 == k@);
                assert(w == i);
            }
            return Some(i);
        }
        i = i + 1;
    }
    None
}

/// Binds `k` to `value` in `m`: in place when `k` is a key, at the end otherwise.
pub fn insert_entry<V>(m: &mut Vec<(String, V)>, k: String, value: V)
    requires
        keys_distinct(ev(old(m)@)),
    ensures
        ev(final(m)@) == assoc_insert(ev(old(m)@), k@, value),
        keys_distinct(ev(final(m)@)),
{
    let ghost before = ev(m@);
    let ghost kv = k@;
    let ghost vv = value;
    match find_key(m, k.as_str()) {
        Some(i) => {
            m.set(i, (k, value));
            proof {
                assert(ev(m@) =~= before.update(i as int, (kv, vv)));
                let n = ev(m@);
                assert forall|a: int, b: int| 0 <= a < b < n.len() implies #[trigger] n[a].0 != #[trigger] n[b].0 by {
                    if a != i && b != i {
                        assert(n[a] == before[a] && n[b] == before[b]);
                    } else if a == i {
                        assert(n[b] == before[b]);
                    } else {
                        assert(n[a] == before[a]);
                    }
                }
            }
        },
        None => {
            m.push((k, value));
            assert(ev(m@) =~= before.push((kv, vv)));
        },
    }
}

/// `m` without the entry of `k`, the others keeping their order, when `k` is a
/// key of `m`.
pub open spec fn remove_key<V>(m: Seq<(Seq<char>, V)>, k: Seq<char>) -> Seq<(Seq<char>, V)> {
    if has_key(m, k) {
        m.remove(key_index(m, k))
    } else {
        m
    }
}

/// Removes the entry of `k` from `m`, the others keeping their order, and
/// returns its value.
pub fn shift_remove_entry<V>(m: &mut Vec<(String, V)>, k: &str) -> (r: Option<V>)
    requires
        keys_distinct(ev(old(m)@)),
    ensures
        ev(final(m)@) == remove_key(ev(old(m)@), k@),
        r == lookup(ev(old(m)@), k@),
        keys_distinct(ev(final(m)@)),
{
    let ghost before = ev(m@);
    match find_key(m, k) {
        Some(i) => {
            let e = m.remove(i);
            proof {
                assert(ev(m@) =~= before.remove(i as int));
                let n = ev(m@);
                assert forall|a: int, b: int| 0 <= a < b < n.len() implies #[trigger] n[a].0 != #[trigger] n[b].0 by {
                    let a2 = if a < i { a } else { a + 1 };
                    let b2 = if b < i { b } else { b + 1 };
                    assert(n[a] == before[a2] && n[b] == before[b2]);
                }
            }
            Some(e.1)
        },
        None => None,
    }
}


/// In a map with distinct keys, `key_index` finds the one entry of a key.
pub proof fn lemma_key_index<V>(m: Seq<(Seq<char>, V)>, i: int)
    requires
        keys_distinct(m),
        0 <= i < m.len(),
    ensures
        has_key(m, m[i].0),
        key_index(m, m[i].0) == i,
        lookup(m, m[i].0) == Some(m[i].1),
{
    let k = m[i].0;
    assert(has_key(m, k));
    let w = key_index(m, k);
    assert(0 <= w < m.len() && m[w].0 == k);
}

/// Removing a key leaves the other keys and their values, and no key twice.
pub proof fn lemma_remove_key<V>(m: Seq<(Seq<char>, V)>, k: Seq<char>)
    requires
        keys_distinct(m),
    ensures
        keys_distinct(remove_key(m, k)),
        forall|k2: Seq<char>| #[trigger] has_key(remove_key(m, k), k2) == (has_key(m, k2) && k2 != k),
        forall|k2: Seq<char>| k2 != k && has_key(m, k2) ==> #[trigger] lookup(remove_key(m, k), k2) == lookup(m, k2),
{
    if has_key(m, k) {
        let w = key_index(m, k);
        let n = m.remove(w);
        assert(0 <= w < m.len() && m[w].0 == k);
        assert forall|a: int, b: int| 0 <= a < b < n.len() implies #[trigger] n[a].0 != #[trigger] n[b].0 by {
            let a2 = if a < w { a } else { a + 1 };
            let b2 = if b < w { b } else { b + 1 };
            assert(n[a] == m[a2] && n[b] == m[b2]);
        }
        assert forall|k2: Seq<char>| #[trigger] has_key(n, k2) == (has_key(m, k2) && k2 != k) by {
            if has_key(n, k2) {
                let j = key_index(n, k2);
                let j2 = if j < w { j } else { j + 1 };
                assert(n[j] == m[j2]);
                assert(m[j2].0 == k2);
            }
            if has_key(m, k2) && k2 != k {
                let j = key_index(m, k2);
                assert(j != w);
                let j2 = if j < w { j } else { j - 1 };
                assert(n[j2] == m[j]);
            }
        }
        assert forall|k2: Seq<char>| k2 != k && has_key(m, k2) implies #[trigger] lookup(n, k2) == lookup(m, k2) by {
            let j = key_index(m, k2);
            assert(j != w);
            let j2 = if j < w { j } else { j - 1 };
            assert(n[j2] == m[j]);
            lemma_key_index(n, j2);
            lemma_key_index(m, j);
        }
    }
}

/// Adding a new key at the end keeps the keys distinct and the other values.
pub proof fn lemma_push_key<V>(m: Seq<(Seq<char>, V)>, k: Seq<char>, v: V)
    requires
        keys_distinct(m),
        !has_key(m, k),
    ensures
        keys_distinct(m.push((k, v))),
        forall|k2: Seq<char>| #[trigger] has_key(m.push((k, v)), k2) == (has_key(m, k2) || k2 == k),
        lookup(m.push((k, v)), k) == Some(v),
        forall|k2: Seq<char>| k2 != k ==> #[trigger] lookup(m.push((k, v)), k2) == lookup(m, k2),
{
    let n = m.push((k, v));
    assert forall|a: int, b: int| 0 <= a < b < n.len() implies #[trigger] n[a].0 != #[trigger] n[b].0 by {
        if b == m.len() {
            assert(n[a] == m[a]);
            if m[a].0 == k {
                assert(has_key(m, k));
            }
        } else {
            assert(n[a] == m[a] && n[b] == m[b]);
        }
    }
    assert forall|k2: Seq<char>| #[trigger] has_key(n, k2) == (has_key(m, k2) || k2 == k) by {
        if has_key(m, k2) {
            let j = key_index(m, k2);
            assert(n[j] == m[j]);
        }
        if k2 == k {
            assert(n[m.len() as int].0 == k);
        }
        if has_key(n, k2) && k2 != k {
            let j = key_index(n, k2);
            assert(j < m.len());
            assert(n[j] == m[j]);
        }
    }
    lemma_key_index(n, m.len() as int);
    assert forall|k2: Seq<char>| k2 != k implies #[trigger] lookup(n, k2) == lookup(m, k2) by {
        if has_key(m, k2) {
            let j = key_index(m, k2);
            assert(n[j] == m[j]);
            lemma_key_index(n, j);
            lemma_key_index(m, j);
        }
    }
}

/// Entries in another order: with distinct keys, the same keys and values,
/// still distinct.
pub proof fn lemma_permuted_entries<V>(a: Seq<(Seq<char>, V)>, b: Seq<(Seq<char>, V)>)
    requires
        keys_distinct(a),
        b.to_multiset() == a.to_multiset(),
    ensures
        keys_distinct(b),
        forall|k: Seq<char>| #[trigger] has_key(b, k) == has_key(a, k),
        forall|k: Seq<char>| #[trigger] lookup(b, k) == lookup(a, k),
{
    broadcast use vstd::seq_lib::group_to_multiset_ensures;
    assert forall|x: (Seq<char>, V)| #[trigger] b.contains(x) == a.contains(x) by {
        assert(b.contains(x) <==> b.to_multiset().count(x) > 0);
        assert(a.contains(x) <==> a.to_multiset().count(x) > 0);
    }
    assert(a.no_duplicates()) by {
        assert forall|i: int, j: int| 0 <= i < a.len() && 0 <= j < a.len() && i != j implies a[i] != a[j] by {
            if i < j {
                assert(a[i].0 != a[j].0);
            } else {
                assert(a[j].0 != a[i].0);
            }
        }
    }
    a.lemma_multiset_has_no_duplicates();
    b.lemma_multiset_has_no_duplicates_conv();
    assert forall|i: int, j: int| 0 <= i < j < b.len() implies #[trigger] b[i].0 != #[trigger] b[j].0 by {
        assert(b.contains(b[i]) && b.contains(b[j]));
        let p = choose|p: int| 0 <= p < a.len() && a[p] == b[i];
        let q = choose|q: int| 0 <= q < a.len() && a[q] == b[j];
        assert(b[i] != b[j]);
        if p < q {
            assert(a[p].0 != a[q].0);
        } else if q < p {
            assert(a[q].0 != a[p].0);
        }
    }
    assert forall|k: Seq<char>| #[trigger] has_key(b, k) == has_key(a, k) by {
        if has_key(b, k) {
            let j = choose|j: int| 0 <= j < b.len() && #[trigger] b[j].0 == k;
            assert(b.contains(b[j]));
            let p = choose|p: int| 0 <= p < a.len() && a[p] == b[j];
            assert(a[p].0 == k);
        }
        if has_key(a, k) {
            let j = choose|j: int| 0 <= j < a.len() && #[trigger] a[j].0 == k;
            assert(a.contains(a[j]));
            assert(b.contains(a[j]));
            let p = choose|p: int| 0 <= p < b.len() && b[p] == a[j];
            assert(b[p].0 == k);
        }
    }
    assert forall|k: Seq<char>| #[trigger] lookup(b, k) == lookup(a, k) by {
        if has_key(a, k) {
            let j = key_index(a, k);
            assert(0 <= j < a.len() && a[j].0 == k);
            assert(a.contains(a[j]));
            assert(b.contains(a[j]));
            let p = choose|p: int| 0 <= p < b.len() && b[p] == a[j];
            lemma_key_index(a, j);
            lemma_key_index(b, p);
        }
    }
}

} // verus!
