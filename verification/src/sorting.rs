//! Stable sorting of keyed entries by a [`FieldOrder`].

use vstd::prelude::*;

use crate::order::{lemma_lex_order_basics, lemma_lex_order_transitive, lex_sign, FieldOrder};
use crate::entries::{keys_distinct, lemma_permuted_entries};
use crate::text::chars_of;

verus! {

/// The entries `entries` with each key taken by its characters.
pub open spec fn ev<V>(entries: Seq<(String, V)>) -> Seq<(Seq<char>, V)> {
    entries.map_values(|e: (String, V)| (e.0@, e.1))
}

/// Whether the keys of `entries` are in `order`.
pub open spec fn sorted_by<V>(order: FieldOrder, entries: Seq<(Seq<char>, V)>) -> bool {
    forall|i: int, j: int|
        0 <= i < j < entries.len() ==> order.relation(#[trigger] entries[i].0, #[trigger] entries[j].0) <= 0
}

/// Whether `r` is `entries` sorted by key under `order`: the same entries, in
/// order, and nothing moved at all under the order `Declaration`. With distinct
/// keys this fixes `r`.
pub open spec fn sorted_version<V>(order: FieldOrder, entries: Seq<(Seq<char>, V)>, r: Seq<(Seq<char>, V)>) -> bool {
    &&& order == FieldOrder::Declaration ==> r == entries
    &&& r.to_multiset() == entries.to_multiset()
    &&& sorted_by(order, r)
}

/// Every order is reflexive, and reading two keys the other way round
/// reverses their relation.
pub proof fn lemma_relation_basics(order: FieldOrder, a: Seq<char>, b: Seq<char>)
    ensures
        order.relation(a, a) == 0,
        order.relation(a, b) == -order.relation(b, a),
        -1 <= order.relation(a, b) <= 1,
{
    lemma_lex_order_basics(a, b);
    lemma_lex_order_basics(b, a);
}

/// Under the alphabetical orders two keys are level only when they are equal;
/// the reverse order is the alphabetical one read the other way round.
pub proof fn lemma_exact_relation(order: FieldOrder, a: Seq<char>, b: Seq<char>)
    ensures
        order != FieldOrder::Declaration ==> (order.relation(a, b) == 0 <==> a == b),
        FieldOrder::AlphabeticalReverse.relation(a, b) == FieldOrder::Alphabetical.relation(b, a),
        FieldOrder::Declaration.relation(a, b) == 0,
{
    lemma_lex_order_basics(a, b);
    lemma_lex_order_basics(b, a);
}

/// Every order is transitive.
pub proof fn lemma_relation_transitive(order: FieldOrder, a: Seq<char>, b: Seq<char>, c: Seq<char>)
    requires
        order.relation(a, b) <= 0,
        order.relation(b, c) <= 0,
    ensures
        order.relation(a, c) <= 0,
{
    match order {
        FieldOrder::Declaration => {},
        FieldOrder::Alphabetical => lemma_lex_order_transitive(a, b, c),
        FieldOrder::AlphabeticalReverse => lemma_lex_order_transitive(c, b, a),
    }
}

/// The relation of `a` to `b` under `order`: -1, 0 or 1.
pub fn relation_of(order: FieldOrder, a: &str, b: &str) -> (r: i8)
    ensures
        r == order.relation(a@, b@),
{
    match order {
        FieldOrder::Declaration => 0,
        FieldOrder::Alphabetical => {
            let x = chars_of(a);
            let y = chars_of(b);
            lex_sign(&x, &y)
        },
        FieldOrder::AlphabeticalReverse => {
            let x = chars_of(a);
            let y = chars_of(b);
            lex_sign(&y, &x)
        },
    }
}

proof fn lemma_multiset_insert_at<A>(s: Seq<A>, p: int, e: A)
    requires
        0 <= p <= s.len(),
    ensures
        s.insert(p, e).to_multiset() == s.to_multiset().insert(e),
{
    broadcast use vstd::seq_lib::group_to_multiset_ensures;
    let t = s.insert(p, e);
    assert(t.remove(p) == s);
    assert(t[p] == e);
    assert(t.contains(e));
    assert(t.to_multiset().remove(e) == s.to_multiset());
    assert(t.to_multiset().count(e) > 0);
    assert(t.to_multiset() =~= s.to_multiset().insert(e));
}

/// The entries of `m` whose key is `k`, in order.
pub open spec fn with_key<V>(m: Seq<(Seq<char>, V)>, k: Seq<char>) -> Seq<(Seq<char>, V)>
    decreases m.len(),
{
    if m.len() == 0 {
        seq![]
    } else if m.last().0 == k {
        with_key(m.drop_last(), k).push(m.last())
    } else {
        with_key(m.drop_last(), k)
    }
}

proof fn lemma_with_key_add<V>(a: Seq<(Seq<char>, V)>, b: Seq<(Seq<char>, V)>, k: Seq<char>)
    ensures
        with_key(a + b, k) == with_key(a, k) + with_key(b, k),
    decreases b.len(),
{
    if b.len() == 0 {
        assert(a + b == a);
        assert(with_key(a, k) + seq![] == with_key(a, k));
    } else {
        lemma_with_key_add(a, b.drop_last(), k);
        assert((a + b).drop_last() == a + b.drop_last());
        assert((a + b).last() == b.last());
        if b.last().0 == k {
            assert(with_key(a, k) + with_key(b.drop_last(), k).push(b.last())
                == (with_key(a, k) + with_key(b.drop_last(), k)).push(b.last()));
        }
    }
}

proof fn lemma_with_key_none<V>(s: Seq<(Seq<char>, V)>, k: Seq<char>)
    requires
        forall|i: int| 0 <= i < s.len() ==> #[trigger] s[i].0 != k,
    ensures
        with_key(s, k) == Seq::<(Seq<char>, V)>::empty(),
    decreases s.len(),
{
    if s.len() > 0 {
        assert forall|i: int| 0 <= i < s.drop_last().len() implies #[trigger] s.drop_last()[i].0 != k by {
            assert(s.drop_last()[i] == s[i]);
        }
        lemma_with_key_none(s.drop_last(), k);
    }
}

/// Inserting `e` before position `q` of `s`, where no earlier entry has its
/// key, leaves each key's entries as inserting it at the front does.
proof fn lemma_with_key_insert<V>(s: Seq<(Seq<char>, V)>, q: int, e: (Seq<char>, V), k: Seq<char>)
    requires
        0 <= q <= s.len(),
        forall|i: int| 0 <= i < q ==> #[trigger] s[i].0 != e.0,
    ensures
        with_key(s.insert(q, e), k) == with_key(s.insert(0, e), k),
{
    let a = s.take(q);
    let b = s.skip(q);
    let one = seq![e];
    assert(s.insert(q, e) == a + one + b);
    assert(s.insert(0, e) == one + (a + b));
    assert(s == a + b);
    lemma_with_key_add(a + one, b, k);
    lemma_with_key_add(a, one, k);
    lemma_with_key_add(one, a + b, k);
    lemma_with_key_add(a, b, k);
    assert(one.drop_last() == Seq::<(Seq<char>, V)>::empty());
    assert(with_key(Seq::<(Seq<char>, V)>::empty(), k) == Seq::<(Seq<char>, V)>::empty());
    if e.0 == k {
        assert forall|i: int| 0 <= i < a.len() implies #[trigger] a[i].0 != k by {
            assert(a[i] == s[i]);
        }
        lemma_with_key_none(a, k);
        assert(with_key(one, k) == seq![e]);
        assert(Seq::<(Seq<char>, V)>::empty() + seq![e] == seq![e]);
    } else {
        assert(with_key(one, k) == Seq::<(Seq<char>, V)>::empty());
        assert(with_key(a, k) + Seq::<(Seq<char>, V)>::empty() == with_key(a, k));
        assert(Seq::<(Seq<char>, V)>::empty() + with_key(a + b, k) == with_key(a + b, k));
    }
}

/// `entries` stably sorted by key under `order`: entries with level keys keep
/// their relative order, so the order `Declaration` changes nothing.
pub fn sort_entries<V>(entries: Vec<(String, V)>, order: FieldOrder) -> (r: Vec<(String, V)>)
    ensures
        sorted_version(order, ev(entries@), ev(r@)),
        forall|k: Seq<char>| #[trigger] with_key(ev(r@), k) == with_key(ev(entries@), k),
{
    if order == FieldOrder::Declaration {
        return entries;
    }
    let ghost orig = entries@;
    let mut rest = entries;
    let mut out: Vec<(String, V)> = Vec::new();
    assert(out@ == orig.skip(rest@.len() as int));
    while rest.len() > 0
        invariant
            orig.len() == rest@.len() + out@.len(),
            rest@ == orig.take(rest@.len() as int),
            ev(out@).to_multiset() == ev(orig.skip(rest@.len() as int)).to_multiset(),
            forall|k: Seq<char>| #[trigger] with_key(ev(out@), k) == with_key(ev(orig.skip(rest@.len() as int)), k),
            sorted_by(order, ev(out@)),
        decreases rest.len(),
    {
        let ghost n = rest@.len();
        let e = rest.pop().unwrap();
        assert(e == orig[n - 1]);
        let mut q: usize = 0;
        while q < out.len() && relation_of(order, out[q].0.as_str(), e.0.as_str()) < 0
            invariant
                q <= out.len(),
                forall|k: int| 0 <= k < q ==> order.relation(#[trigger] out@[k].0@, e.0@) < 0,
                ev(out@).len() == out@.len(),
            decreases out.len() - q,
        {
            q = q + 1;
        }
        proof {
            let ghost s = ev(out@);
            let ghost ee = (e.0@, e.1);
            let ghost t = s.insert(q as int, ee);
            assert forall|i: int, j: int| 0 <= i < j < t.len() implies order.relation(
                #[trigger] t[i].0,
                #[trigger] t[j].0,
            ) <= 0 by {
                if i < q && j == q {
                } else if i < q && j > q {
                    assert(t[j] == s[j - 1]);
                    lemma_relation_basics(order, s[q as int].0, e.0@);
                    if j - 1 > q {
                        lemma_relation_transitive(order, e.0@, s[q as int].0, s[j - 1].0);
                    }
                    lemma_relation_transitive(order, s[i].0, e.0@, s[j - 1].0);
                } else if i == q {
                    assert(t[j] == s[j - 1]);
                    lemma_relation_basics(order, s[q as int].0, e.0@);
                    if j - 1 > q {
                        lemma_relation_transitive(order, e.0@, s[q as int].0, s[j - 1].0);
                    }
                } else if i < q && j < q {
                } else {
                    assert(t[i] == s[i - 1]);
                    assert(t[j] == s[j - 1]);
                }
            }
            lemma_multiset_insert_at(s, q as int, ee);
            assert(orig.skip(n - 1) == orig.skip(n as int).insert(0, e));
            assert(ev(orig.skip(n - 1)) == ev(orig.skip(n as int)).insert(0, ee));
            lemma_multiset_insert_at(ev(orig.skip(n as int)), 0, ee);
            assert forall|i: int| 0 <= i < q implies #[trigger] s[i].0 != ee.0 by {
                lemma_relation_basics(order, s[i].0, e.0@);
            }
            let ghost o = ev(orig.skip(n as int));
            assert(s.insert(0, ee) == seq![ee] + s);
            assert(o.insert(0, ee) == seq![ee] + o);
            assert forall|k: Seq<char>| #[trigger] with_key(t, k) == with_key(ev(orig.skip(n - 1)), k) by {
                lemma_with_key_insert(s, q as int, ee, k);
                lemma_with_key_add(seq![ee], s, k);
                lemma_with_key_add(seq![ee], o, k);
            }
        }
        let ghost before = out@;
        out.insert(q, e);
        assert(ev(out@) == ev(before).insert(q as int, (e.0@, e.1)));
    }
    assert(orig.skip(0) == orig);
    out
}

proof fn lemma_sorted_unique<V>(order: FieldOrder, r1: Seq<(Seq<char>, V)>, r2: Seq<(Seq<char>, V)>)
    requires
        order != FieldOrder::Declaration,
        keys_distinct(r1),
        r1.to_multiset() == r2.to_multiset(),
        sorted_by(order, r1),
        sorted_by(order, r2),
    ensures
        r1 == r2,
    decreases r1.len(),
{
    broadcast use vstd::seq_lib::group_to_multiset_ensures;
    if r1.len() == 0 {
        assert(r2.to_multiset().len() == 0);
        assert(r2.len() == 0);
    } else {
        assert(r1.to_multiset().len() == r1.len());
        assert(r2.to_multiset().len() == r2.len());
        assert(r2.len() == r1.len());
        let x = r1[0];
        let y = r2[0];
        assert(r1.contains(x));
        assert(r1.to_multiset().count(x) > 0);
        assert(r2.contains(x));
        assert(r2.contains(y));
        assert(r2.to_multiset().count(y) > 0);
        assert(r1.contains(y));
        let j = choose|j: int| 0 <= j < r2.len() && r2[j] == x;
        let i = choose|i: int| 0 <= i < r1.len() && r1[i] == y;
        if j > 0 {
            assert(order.relation(r2[0].0, r2[j].0) <= 0);
            if i > 0 {
                assert(order.relation(r1[0].0, r1[i].0) <= 0);
            }
            lemma_relation_basics(order, x.0, y.0);
            lemma_exact_relation(order, x.0, y.0);
            if i > 0 {
                assert(r1[0].0 != r1[i].0);
            }
        }
        assert(x == y);
        assert(r1.remove(0) == r1.drop_first());
        assert(r2.remove(0) == r2.drop_first());
        let t1 = r1.drop_first();
        let t2 = r2.drop_first();
        assert forall|a: int, b: int| 0 <= a < b < t1.len() implies #[trigger] t1[a].0 != #[trigger] t1[b].0 by {
            assert(t1[a] == r1[a + 1] && t1[b] == r1[b + 1]);
        }
        assert forall|a: int, b: int| 0 <= a < b < t1.len() implies order.relation(#[trigger] t1[a].0, #[trigger] t1[b].0) <= 0 by {
            assert(t1[a] == r1[a + 1] && t1[b] == r1[b + 1]);
        }
        assert forall|a: int, b: int| 0 <= a < b < t2.len() implies order.relation(#[trigger] t2[a].0, #[trigger] t2[b].0) <= 0 by {
            assert(t2[a] == r2[a + 1] && t2[b] == r2[b + 1]);
        }
        lemma_sorted_unique(order, t1, t2);
        assert(r1 == seq![x] + t1);
        assert(r2 == seq![y] + t2);
    }
}

/// Sorting is deterministic: when no key occurs twice, a sequence of entries
/// has only one sorted version under an order.
pub proof fn lemma_sorted_version_unique<V>(
    order: FieldOrder,
    entries: Seq<(Seq<char>, V)>,
    r1: Seq<(Seq<char>, V)>,
    r2: Seq<(Seq<char>, V)>,
)
    requires
        keys_distinct(entries),
        sorted_version(order, entries, r1),
        sorted_version(order, entries, r2),
    ensures
        r1 == r2,
{
    if order != FieldOrder::Declaration {
        lemma_permuted_entries(entries, r1);
        lemma_sorted_unique(order, r1, r2);
    }
}

} // verus!
