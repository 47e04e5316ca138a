//! Merging a stored document with a fresh default one: stored values win, keys
//! missing from the store are added with their defaults, stale keys may be
//! dropped, and the result is ordered.

use vstd::prelude::*;

use crate::entries::{has_key, keys_distinct, lemma_key_index, lemma_permuted_entries, lemma_push_key, lookup};
use crate::keys::{declared_fields, declared_keys, field_key, insert_all};
use crate::metadata::{ConfigMetadata, FieldView};
use crate::options::{ConfigOptions, NamingStrategy};
use crate::sorting::{ev, sort_entries, sorted_version};
use crate::text::same_text;

verus! {

/// Whether `k` is the key of some field of `fields` that is not left out.
pub open spec fn is_valid_key(fields: Seq<FieldView>, s: NamingStrategy, k: Seq<char>) -> bool {
    exists|i: int| 0 <= i < fields.len() && !fields[i].exclude && #[trigger] field_key(fields[i], s) == k
}

proof fn lemma_declared_keys_valid(fields: Seq<FieldView>, s: NamingStrategy, n: nat, k: Seq<char>)
    requires
        n <= fields.len(),
    ensures
        has_key(declared_keys(fields, s, n), k) <==> exists|i: int|
            0 <= i < n && !fields[i].exclude && #[trigger] field_key(fields[i], s) == k,
    decreases n,
{
    if n > 0 {
        lemma_declared_keys_valid(fields, s, (n - 1) as nat, k);
        let prev = declared_keys(fields, s, (n - 1) as nat);
        let cur = declared_keys(fields, s, n);
        if !fields[n - 1].exclude {
            assert(cur == prev.push((field_key(fields[n - 1], s), ())));
            if has_key(cur, k) {
                let j = choose|j: int| 0 <= j < cur.len() && #[trigger] cur[j].0 == k;
                if j < prev.len() {
                    assert(cur[j] == prev[j]);
                    assert(has_key(prev, k));
                } else {
                    assert(field_key(fields[n - 1], s) == k);
                }
            }
            if exists|i: int| 0 <= i < n && !fields[i].exclude && #[trigger] field_key(fields[i], s) == k {
                let i = choose|i: int| 0 <= i < n && !fields[i].exclude && #[trigger] field_key(fields[i], s) == k;
                if i < n - 1 {
                    assert(has_key(prev, k));
                    let j = choose|j: int| 0 <= j < prev.len() && #[trigger] prev[j].0 == k;
                    assert(cur[j] == prev[j]);
                } else {
                    assert(cur[prev.len() as int].0 == k);
                }
            }
        }
    }
}

/// The keys that the fields of `metadata` are written under (see
/// [`is_valid_key`]).
pub fn build_valid_keys(metadata: &ConfigMetadata, options: &ConfigOptions) -> (r: Vec<(String, ())>)
    ensures
        forall|k: Seq<char>| #[trigger] has_key(ev(r@), k) == is_valid_key(metadata@.fields, options.naming_strategy, k),
{
    let (names, _) = declared_fields(metadata, options.naming_strategy);
    proof {
        assert forall|k: Seq<char>| #[trigger] has_key(ev(names@), k) == is_valid_key(metadata@.fields, options.naming_strategy, k) by {
            lemma_declared_keys_valid(metadata@.fields, options.naming_strategy, metadata@.fields.len(), k);
        }
    }
    names
}

/// Whether `k` is a key of `keys`.
fn contains_key<W>(keys: &Vec<(String, W)>, k: &str) -> (b: bool)
    ensures
        b == has_key(ev(keys@), k@),
{
    let mut i: usize = 0;
    while i < keys.len()
        invariant
            i <= keys@.len(),
            forall|j: int| 0 <= j < i ==> #[trigger] ev(keys@)[j].0 != k@,
        decreases keys.len() - i,
    {
        if same_text(keys[i].0.as_str(), k) {
            assert(ev(keys@)[i as int].0 == k@);
            return true;
        }
        i = i + 1;
    }
    false
}

/// `m` with each entry of `extra` whose key it lacks added at the end.
pub open spec fn or_insert_all<V>(m: Seq<(Seq<char>, V)>, extra: Seq<(Seq<char>, V)>) -> Seq<(Seq<char>, V)>
    decreases extra.len(),
{
    if extra.len() == 0 {
        m
    } else {
        let r = or_insert_all(m, extra.drop_last());
        if has_key(r, extra.last().0) {
            r
        } else {
            r.push(extra.last())
        }
    }
}

/// The first `n` entries of `m` whose keys are valid for `fields`.
pub open spec fn valid_upto<V>(m: Seq<(Seq<char>, V)>, fields: Seq<FieldView>, s: NamingStrategy, n: nat) -> Seq<(Seq<char>, V)>
    decreases n,
{
    if n == 0 {
        seq![]
    } else if is_valid_key(fields, s, m[n - 1].0) {
        valid_upto(m, fields, s, (n - 1) as nat).push(m[n - 1])
    } else {
        valid_upto(m, fields, s, (n - 1) as nat)
    }
}

/// The entries of a merge before ordering: the stored entries, then the
/// defaults of keys the store lacks; with `remove_orphans`, only keys that the
/// fields are written under.
pub open spec fn merged_unordered<V>(
    stored: Seq<(Seq<char>, V)>,
    defaults: Seq<(Seq<char>, V)>,
    fields: Seq<FieldView>,
    options: ConfigOptions,
) -> Seq<(Seq<char>, V)> {
    let u = or_insert_all(stored, defaults);
    if options.remove_orphans {
        valid_upto(u, fields, options.naming_strategy, u.len())
    } else {
        u
    }
}

/// Merges the entries `defaults` into `stored`: stored values win, missing keys
/// are added, stale keys go when `remove_orphans` holds, and the result is
/// stably sorted by the field order.
pub fn merge_entries<V>(stored: Vec<(String, V)>, defaults: Vec<(String, V)>, metadata: &ConfigMetadata, options: &ConfigOptions) -> (r: Vec<(String, V)>)
    requires
        keys_distinct(ev(stored@)),
    ensures
        sorted_version(options.field_order, merged_unordered(ev(stored@), ev(defaults@), metadata@.fields, *options), ev(r@)),
{
    let ghost extra = ev(defaults@);
    let mut out = stored;
    let ghost start = ev(out@);
    let mut rest = defaults;
    let ghost mut k: int = 0;
    assert(extra.take(0) =~= seq![]);
    assert(extra.skip(0) == extra);
    while rest.len() > 0
        invariant
            0 <= k <= extra.len(),
            keys_distinct(ev(out@)),
            ev(out@) == or_insert_all(start, extra.take(k)),
            ev(rest@) == extra.skip(k),
        decreases rest.len(),
    {
        assert(ev(rest@).len() == rest@.len());
        assert(k < extra.len());
        assert(ev(rest@)[0] == (rest@[0].0@, rest@[0].1));
        let e = rest.remove(0);
        assert(extra.skip(k)[0] == extra[k]);
        assert(extra.take(k + 1).drop_last() == extra.take(k));
        assert(extra.take(k + 1).last() == extra[k]);
        assert(extra.skip(k).remove(0) == extra.skip(k + 1));
        if !contains_key(&out, e.0.as_str()) {
            let ghost ob = ev(out@);
            let ghost ee = (e.0@, e.1);
            proof {
                lemma_push_key(ob, e.0@, e.1);
            }
            out.push(e);
            assert(ev(out@) =~= ob.push(ee));
        }
        proof {
            k = k + 1;
        }
    }
    assert(extra.take(k) == extra);
    if options.remove_orphans {
        let kept = retain_valid(out, metadata, options);
        sort_entries(kept, options.field_order)
    } else {
        sort_entries(out, options.field_order)
    }
}

/// The entries of `m` whose keys the fields of `metadata` are written under,
/// in order.
fn retain_valid<V>(m: Vec<(String, V)>, metadata: &ConfigMetadata, options: &ConfigOptions) -> (r: Vec<(String, V)>)
    ensures
        ev(r@) == valid_upto(ev(m@), metadata@.fields, options.naming_strategy, m@.len()),
{
    let ghost u = ev(m@);
    let valid = build_valid_keys(metadata, options);
    let mut kept: Vec<(String, V)> = Vec::new();
    let mut src = m;
    let ghost mut n: int = 0;
    assert(ev(kept@) =~= seq![]);
    assert(u.skip(0) == u);
    while src.len() > 0
        invariant
            0 <= n <= u.len(),
            ev(kept@) == valid_upto(u, metadata@.fields, options.naming_strategy, n as nat),
            ev(src@) == u.skip(n),
            forall|kk: Seq<char>| #[trigger] has_key(ev(valid@), kk) == is_valid_key(metadata@.fields, options.naming_strategy, kk),
        decreases src.len(),
    {
        assert(ev(src@).len() == src@.len());
        assert(n < u.len());
        assert(ev(src@)[0] == (src@[0].0@, src@[0].1));
        let e = src.remove(0);
        assert(u.skip(n)[0] == u[n]);
        assert(u.skip(n).remove(0) == u.skip(n + 1));
        if contains_key(&valid, e.0.as_str()) {
            let ghost kb = ev(kept@);
            let ghost ee = (e.0@, e.1);
            kept.push(e);
            assert(ev(kept@) =~= kb.push(ee));
        }
        proof {
            n = n + 1;
        }
    }
    kept
}

/// In a map with distinct keys, the last entry is found by its key, and the
/// other keys are those of the map without it, with the same values.
proof fn lemma_last_key<V>(m: Seq<(Seq<char>, V)>)
    requires
        keys_distinct(m),
        m.len() > 0,
    ensures
        keys_distinct(m.drop_last()),
        !has_key(m.drop_last(), m.last().0),
        lookup(m, m.last().0) == Some(m.last().1),
        forall|k: Seq<char>| #[trigger] has_key(m, k) == (has_key(m.drop_last(), k) || k == m.last().0),
        forall|k: Seq<char>| k != m.last().0 ==> #[trigger] lookup(m, k) == lookup(m.drop_last(), k),
{
    let p = m.drop_last();
    assert(m == p.push(m.last()));
    assert forall|a: int, b: int| 0 <= a < b < p.len() implies #[trigger] p[a].0 != #[trigger] p[b].0 by {
        assert(p[a] == m[a] && p[b] == m[b]);
    }
    if has_key(p, m.last().0) {
        let j = choose|j: int| 0 <= j < p.len() && #[trigger] p[j].0 == m.last().0;
        assert(m[j] == p[j]);
        assert(m[j].0 == m[m.len() - 1].0);
    }
    lemma_push_key(p, m.last().0, m.last().1);
}

/// Adding the defaults keeps the keys distinct, holds the keys of both maps,
/// keeps every stored value, and gives a key only the defaults have its
/// default value.
proof fn lemma_or_insert_all<V>(m: Seq<(Seq<char>, V)>, extra: Seq<(Seq<char>, V)>)
    requires
        keys_distinct(m),
        keys_distinct(extra),
    ensures
        keys_distinct(or_insert_all(m, extra)),
        forall|k: Seq<char>| #[trigger] has_key(or_insert_all(m, extra), k) == (has_key(m, k) || has_key(extra, k)),
        forall|k: Seq<char>| has_key(m, k) ==> #[trigger] lookup(or_insert_all(m, extra), k) == lookup(m, k),
        forall|k: Seq<char>| !has_key(m, k) && has_key(extra, k) ==> #[trigger] lookup(or_insert_all(m, extra), k) == lookup(extra, k),
    decreases extra.len(),
{
    if extra.len() > 0 {
        let e = extra.drop_last();
        let (k, v) = extra.last();
        lemma_last_key(extra);
        lemma_or_insert_all(m, e);
        let r0 = or_insert_all(m, e);
        if !has_key(r0, k) {
            lemma_push_key(r0, k, v);
        }
    }
}

/// Keeping the entries with valid keys keeps the keys distinct, and keeps
/// exactly the valid keys of the first `n` entries, with their values.
proof fn lemma_valid_upto<V>(m: Seq<(Seq<char>, V)>, fields: Seq<FieldView>, s: NamingStrategy, n: nat)
    requires
        keys_distinct(m),
        n <= m.len(),
    ensures
        keys_distinct(valid_upto(m, fields, s, n)),
        forall|k: Seq<char>| #[trigger] has_key(valid_upto(m, fields, s, n), k)
            == (has_key(m.take(n as int), k) && is_valid_key(fields, s, k)),
        forall|k: Seq<char>| has_key(valid_upto(m, fields, s, n), k) ==> #[trigger] lookup(valid_upto(m, fields, s, n), k) == lookup(m, k),
    decreases n,
{
    let t = m.take(n as int);
    if n == 0 {
        assert forall|k: Seq<char>| !#[trigger] has_key(t, k) by {}
    } else {
        lemma_valid_upto(m, fields, s, (n - 1) as nat);
        let v0 = valid_upto(m, fields, s, (n - 1) as nat);
        let t0 = m.take(n - 1);
        assert(t0 == t.drop_last());
        assert(t.last() == m[n - 1]);
        assert forall|a: int, b: int| 0 <= a < b < t.len() implies #[trigger] t[a].0 != #[trigger] t[b].0 by {
            assert(t[a] == m[a] && t[b] == m[b]);
        }
        lemma_last_key(t);
        let k = m[n - 1].0;
        lemma_key_index(m, n - 1);
        if is_valid_key(fields, s, k) {
            lemma_push_key(v0, k, m[n - 1].1);
        }
        assert forall|k2: Seq<char>| has_key(valid_upto(m, fields, s, n), k2) implies
            #[trigger] lookup(valid_upto(m, fields, s, n), k2) == lookup(m, k2) by {
            if k2 != k {
                assert(has_key(v0, k2));
            }
        }
    }
}

/// What a merge keeps: in the result `r` no key occurs twice; its keys are
/// those of the stored and the default entries, only the keys that fields are
/// written under when `remove_orphans` holds; a stored key keeps its stored
/// value, and a key only the defaults have takes its default value.
pub open spec fn keeps_stored<V>(
    stored: Seq<(Seq<char>, V)>,
    defaults: Seq<(Seq<char>, V)>,
    fields: Seq<FieldView>,
    options: ConfigOptions,
    r: Seq<(Seq<char>, V)>,
) -> bool {
    &&& keys_distinct(r)
    &&& forall|k: Seq<char>| #[trigger] has_key(r, k) == ((has_key(stored, k) || has_key(defaults, k))
        && (options.remove_orphans ==> is_valid_key(fields, options.naming_strategy, k)))
    &&& forall|k: Seq<char>| has_key(r, k) && has_key(stored, k) ==> #[trigger] lookup(r, k) == lookup(stored, k)
    &&& forall|k: Seq<char>| has_key(r, k) && !has_key(stored, k) ==> #[trigger] lookup(r, k) == lookup(defaults, k)
}

/// A merge keeps what is stored (see [`keeps_stored`]): stored values win,
/// keys missing from the store are added with their defaults, and with
/// `remove_orphans` only the keys that fields are written under stay.
pub proof fn lemma_merge_keeps_stored<V>(
    stored: Seq<(Seq<char>, V)>,
    defaults: Seq<(Seq<char>, V)>,
    fields: Seq<FieldView>,
    options: ConfigOptions,
    r: Seq<(Seq<char>, V)>,
)
    requires
        keys_distinct(stored),
        keys_distinct(defaults),
        sorted_version(options.field_order, merged_unordered(stored, defaults, fields, options), r),
    ensures
        keeps_stored(stored, defaults, fields, options, r),
{
    let u = or_insert_all(stored, defaults);
    lemma_or_insert_all(stored, defaults);
    let w = merged_unordered(stored, defaults, fields, options);
    if options.remove_orphans {
        lemma_valid_upto(u, fields, options.naming_strategy, u.len());
        assert(u.take(u.len() as int) == u);
    }
    lemma_permuted_entries(w, r);
}

/// Binding distinct keys in turn into an empty map gives them back in order.
pub proof fn lemma_insert_all_distinct<V>(m: Seq<(Seq<char>, V)>)
    requires
        keys_distinct(m),
    ensures
        insert_all(seq![], m) == m,
    decreases m.len(),
{
    if m.len() > 0 {
        lemma_last_key(m);
        lemma_insert_all_distinct(m.drop_last());
        assert(m.drop_last().push(m.last()) == m);
    }
}

} // verus!
