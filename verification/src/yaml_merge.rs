//! Merging YAML mappings: stored values win, keys missing from the store are
//! added with their defaults, stale string keys may be dropped, and string
//! keys are ordered.

use vstd::prelude::*;

use crate::merge::{build_valid_keys, is_valid_key, keeps_stored, lemma_merge_keeps_stored};
use crate::entries::{has_key, keys_distinct};
use crate::metadata::{ConfigMetadata, FieldView};
use crate::options::{ConfigOptions, NamingStrategy};
use crate::order::FieldOrder;
use crate::sorting::{ev, sort_entries, sorted_version};
use crate::text::same_text;
use crate::yaml_format::{same_yaml_key, yaml_built, yaml_inserted, yaml_key_eq, yaml_key_info, yaml_key_view};

verus! {

/// The text of the key `k` when it is a string without anchor.
pub open spec fn plain_text(k: serde_yaml_bw::Value) -> Option<Seq<char>> {
    yaml_key_view(k).plain
}

/// Whether every key of `m` is a string without anchor.
pub open spec fn all_plain<V>(m: Seq<(serde_yaml_bw::Value, V)>) -> bool {
    forall|i: int| 0 <= i < m.len() ==> (#[trigger] plain_text(m[i].0)) is Some
}

/// Whether `k` equals some key of `m` (`PartialEq`, `k` on the left).
pub open spec fn has_equal<V>(m: Seq<(serde_yaml_bw::Value, V)>, k: serde_yaml_bw::Value) -> bool {
    exists|i: int| 0 <= i < m.len() && #[trigger] yaml_key_eq(k, m[i].0)
}

/// `m` with each entry of `extra` added at the end unless its key equals a key
/// that the map has by then.
pub open spec fn yaml_or_insert_all<V>(m: Seq<(serde_yaml_bw::Value, V)>, extra: Seq<(serde_yaml_bw::Value, V)>) -> Seq<(serde_yaml_bw::Value, V)>
    decreases extra.len(),
{
    if extra.len() == 0 {
        m
    } else {
        let r = yaml_or_insert_all(m, extra.drop_last());
        if has_equal(r, extra.last().0) {
            r
        } else {
            r.push(extra.last())
        }
    }
}

/// The first `n` entries of `m`, without those whose keys are strings without
/// anchor that no field is written under.
pub open spec fn yaml_valid_upto<V>(m: Seq<(serde_yaml_bw::Value, V)>, fields: Seq<FieldView>, s: NamingStrategy, n: nat) -> Seq<(serde_yaml_bw::Value, V)>
    decreases n,
{
    if n == 0 {
        seq![]
    } else {
        let keep = match plain_text(m[n - 1].0) {
            Some(t) => is_valid_key(fields, s, t),
            None => true,
        };
        if keep {
            yaml_valid_upto(m, fields, s, (n - 1) as nat).push(m[n - 1])
        } else {
            yaml_valid_upto(m, fields, s, (n - 1) as nat)
        }
    }
}

/// The entries of `m` keyed by the text of their string keys.
pub open spec fn plain_keyed<V>(m: Seq<(serde_yaml_bw::Value, V)>) -> Seq<(Seq<char>, (serde_yaml_bw::Value, V))> {
    m.map_values(|x: (serde_yaml_bw::Value, V)| (plain_text(x.0).unwrap(), x))
}

/// The entries of a YAML merge before ordering: the stored entries, then the
/// defaults of keys the store lacks; with `remove_orphans`, without string keys
/// that no field is written under.
pub open spec fn yaml_merged_unordered<V>(
    stored: Seq<(serde_yaml_bw::Value, V)>,
    defaults: Seq<(serde_yaml_bw::Value, V)>,
    fields: Seq<FieldView>,
    options: ConfigOptions,
) -> Seq<(serde_yaml_bw::Value, V)> {
    let u = yaml_or_insert_all(stored, defaults);
    if options.remove_orphans {
        yaml_valid_upto(u, fields, options.naming_strategy, u.len())
    } else {
        u
    }
}

/// Whether `r` is the ordered merge of `u`: when every key is a string without
/// anchor, `u` stably sorted by the keys' texts; otherwise `u` as it is.
pub open spec fn yaml_ordered<V>(order: FieldOrder, u: Seq<(serde_yaml_bw::Value, V)>, r: Seq<(serde_yaml_bw::Value, V)>) -> bool {
    if all_plain(u) {
        sorted_version(order, plain_keyed(u), plain_keyed(r))
    } else {
        r == u
    }
}

/// Whether `k` equals a key of `m`.
fn has_equal_key<V>(m: &Vec<(serde_yaml_bw::Value, V)>, k: &serde_yaml_bw::Value) -> (b: bool)
    ensures
        b == has_equal(m@, *k),
{
    let mut i: usize = 0;
    while i < m.len()
        invariant
            i <= m@.len(),
            forall|j: int| 0 <= j < i ==> !#[trigger] yaml_key_eq(*k, m@[j].0),
        decreases m.len() - i,
    {
        if same_yaml_key(k, &m[i].0) {
            return true;
        }
        i = i + 1;
    }
    false
}

/// Whether the text `t` is a key of `keys`.
fn valid_text<W>(keys: &Vec<(String, W)>, t: &str) -> (b: bool)
    ensures
        b == has_key(ev(keys@), t@),
{
    let mut i: usize = 0;
    while i < keys.len()
        invariant
            i <= keys@.len(),
            forall|j: int| 0 <= j < i ==> #[trigger] ev(keys@)[j].0 != t@,
        decreases keys.len() - i,
    {
        if same_text(keys[i].0.as_str(), t) {
            assert(ev(keys@)[i as int].0 == t@);
            return true;
        }
        i = i + 1;
    }
    false
}

/// Merges the mapping entries `defaults` into `stored` (see
/// [`yaml_merged_unordered`] and [`yaml_ordered`]).
pub fn yaml_merge_entries<V>(
    stored: Vec<(serde_yaml_bw::Value, V)>,
    defaults: Vec<(serde_yaml_bw::Value, V)>,
    metadata: &ConfigMetadata,
    options: &ConfigOptions,
) -> (r: Vec<(serde_yaml_bw::Value, V)>)
    ensures
        yaml_ordered(options.field_order, yaml_merged_unordered(stored@, defaults@, metadata@.fields, *options), r@),
{
    let ghost extra = defaults@;
    let mut out = stored;
    let ghost start = out@;
    let mut rest = defaults;
    let ghost mut k: int = 0;
    assert(extra.take(0) =~= seq![]);
    assert(extra.skip(0) == extra);
    while rest.len() > 0
        invariant
            0 <= k <= extra.len(),
            out@ == yaml_or_insert_all(start, extra.take(k)),
            rest@ == extra.skip(k),
        decreases rest.len(),
    {
        assert(k < extra.len());
        let e = rest.remove(0);
        assert(extra.skip(k)[0] == extra[k]);
        assert(extra.take(k + 1).drop_last() == extra.take(k));
        assert(extra.take(k + 1).last() == extra[k]);
        assert(extra.skip(k).remove(0) == extra.skip(k + 1));
        if !has_equal_key(&out, &e.0) {
            out.push(e);
        }
        proof {
            k = k + 1;
        }
    }
    assert(extra.take(k) == extra);
    let u = if options.remove_orphans {
        let valid = build_valid_keys(metadata, options);
        let ghost w = out@;
        let mut kept: Vec<(serde_yaml_bw::Value, V)> = Vec::new();
        let mut src = out;
        let ghost mut n: int = 0;
        assert(w.skip(0) == w);
        assert(kept@ =~= seq![]);
        while src.len() > 0
            invariant
                0 <= n <= w.len(),
                kept@ == yaml_valid_upto(w, metadata@.fields, options.naming_strategy, n as nat),
                src@ == w.skip(n),
                forall|kk: Seq<char>| #[trigger] has_key(ev(valid@), kk) == is_valid_key(metadata@.fields, options.naming_strategy, kk),
            decreases src.len(),
        {
            assert(n < w.len());
            let e = src.remove(0);
            assert(w.skip(n)[0] == w[n]);
            assert(w.skip(n).remove(0) == w.skip(n + 1));
            let info = yaml_key_info(&e.0);
            let keep = match &info.plain {
                Some(t) => valid_text(&valid, t.as_str()),
                None => true,
            };
            if keep {
                kept.push(e);
            }
            proof {
                n = n + 1;
            }
        }
        kept
    } else {
        out
    };
    order_plain(u, options.field_order)
}

/// `u` stably sorted by the texts of its keys when every key is a string
/// without anchor; `u` itself otherwise (see [`yaml_ordered`]).
fn order_plain<V>(u: Vec<(serde_yaml_bw::Value, V)>, order: FieldOrder) -> (r: Vec<(serde_yaml_bw::Value, V)>)
    ensures
        yaml_ordered(order, u@, r@),
{
    let mut i: usize = 0;
    while i < u.len()
        invariant
            i <= u@.len(),
            forall|j: int| 0 <= j < i ==> (#[trigger] plain_text(u@[j].0)) is Some,
        decreases u.len() - i,
    {
        let info = yaml_key_info(&u[i].0);
        if info.plain.is_none() {
            assert(plain_text(u@[i as int].0) is None);
            return u;
        }
        i = i + 1;
    }
    let ghost orig = u@;
    let mut keyed: Vec<(String, (serde_yaml_bw::Value, V))> = Vec::new();
    let mut src = u;
    while src.len() > 0
        invariant
            keyed@.len() + src@.len() == orig.len(),
            src@ == orig.skip(keyed@.len() as int),
            ev(keyed@) == plain_keyed(orig).take(keyed@.len() as int),
            all_plain(orig),
        decreases src.len(),
    {
        let ghost n = keyed@.len() as int;
        let e = src.remove(0);
        assert(orig.skip(n)[0] == orig[n]);
        assert(orig.skip(n).remove(0) == orig.skip(n + 1));
        assert(plain_text(orig[n].0) is Some);
        let info = yaml_key_info(&e.0);
        let t = match info.plain {
            Some(t) => t,
            None => String::new(),
        };
        let ghost kb = ev(keyed@);
        let ghost ee = e;
        keyed.push((t, e));
        assert(ev(keyed@) =~= kb.push((plain_text(orig[n].0).unwrap(), ee)));
        assert(plain_keyed(orig).take(n + 1) =~= plain_keyed(orig).take(n).push(plain_keyed(orig)[n]));
    }
    assert(plain_keyed(orig).take(orig.len() as int) == plain_keyed(orig));
    let sorted = sort_entries(keyed, order);
    let ghost sv = ev(sorted@);
    let mut out: Vec<(serde_yaml_bw::Value, V)> = Vec::new();
    let mut src = sorted;
    while src.len() > 0
        invariant
            out@.len() + src@.len() == sv.len(),
            ev(src@) == sv.skip(out@.len() as int),
            forall|j: int| 0 <= j < out@.len() ==> #[trigger] out@[j] == sv[j].1,
        decreases src.len(),
    {
        let ghost n = out@.len() as int;
        assert(ev(src@)[0] == (src@[0].0@, src@[0].1));
        let (_, e) = src.remove(0);
        assert(sv.skip(n)[0] == sv[n]);
        assert(sv.skip(n).remove(0) == sv.skip(n + 1));
        out.push(e);
    }
    proof {
        assert forall|j: int| 0 <= j < sv.len() implies #[trigger] plain_text(sv[j].1.0) == Some(sv[j].0) by {
            assert(sv.to_multiset().count(sv[j]) > 0) by {
                broadcast use vstd::seq_lib::group_to_multiset_ensures;
                assert(sv.contains(sv[j]));
            }
            assert(plain_keyed(orig).to_multiset().count(sv[j]) > 0);
            broadcast use vstd::seq_lib::group_to_multiset_ensures;
            assert(plain_keyed(orig).contains(sv[j]));
            let a = choose|a: int| 0 <= a < plain_keyed(orig).len() && plain_keyed(orig)[a] == sv[j];
            assert(plain_text(orig[a].0) is Some);
        }
        assert(plain_keyed(out@) =~= sv);
    }
    out
}

/// Whether YAML strings without anchor are equal exactly when their texts are,
/// as `PartialEq` for YAML values compares them.
pub open spec fn plain_equality() -> bool {
    forall|a: serde_yaml_bw::Value, b: serde_yaml_bw::Value|
        plain_text(a) is Some && plain_text(b) is Some ==> (#[trigger] yaml_key_eq(a, b) <==> plain_text(a) == plain_text(b))
}

proof fn lemma_plain_keyed_push<V>(m: Seq<(serde_yaml_bw::Value, V)>, e: (serde_yaml_bw::Value, V))
    ensures
        plain_keyed(m.push(e)) == plain_keyed(m).push((plain_text(e.0).unwrap(), e)),
{
    assert(plain_keyed(m.push(e)) =~= plain_keyed(m).push((plain_text(e.0).unwrap(), e)));
}

proof fn lemma_has_equal_plain<V>(m: Seq<(serde_yaml_bw::Value, V)>, k: serde_yaml_bw::Value)
    requires
        plain_equality(),
        all_plain(m),
        plain_text(k) is Some,
    ensures
        has_equal(m, k) == has_key(plain_keyed(m), plain_text(k).unwrap()),
{
    if has_equal(m, k) {
        let i = choose|i: int| 0 <= i < m.len() && #[trigger] yaml_key_eq(k, m[i].0);
        assert(plain_text(m[i].0) is Some);
        assert(plain_keyed(m)[i].0 == plain_text(k).unwrap());
    }
    if has_key(plain_keyed(m), plain_text(k).unwrap()) {
        let i = choose|i: int| 0 <= i < plain_keyed(m).len() && #[trigger] plain_keyed(m)[i].0 == plain_text(k).unwrap();
        assert(plain_text(m[i].0) is Some);
        assert(yaml_key_eq(k, m[i].0));
    }
}

proof fn lemma_yaml_or_insert_all_plain<V>(m: Seq<(serde_yaml_bw::Value, V)>, extra: Seq<(serde_yaml_bw::Value, V)>)
    requires
        plain_equality(),
        all_plain(m),
        all_plain(extra),
    ensures
        all_plain(yaml_or_insert_all(m, extra)),
        plain_keyed(yaml_or_insert_all(m, extra)) == crate::merge::or_insert_all(plain_keyed(m), plain_keyed(extra)),
    decreases extra.len(),
{
    if extra.len() > 0 {
        let d = extra.drop_last();
        assert(all_plain(d)) by {
            assert forall|i: int| 0 <= i < d.len() implies (#[trigger] plain_text(d[i].0)) is Some by {
                assert(d[i] == extra[i]);
            }
        }
        lemma_yaml_or_insert_all_plain(m, d);
        let r = yaml_or_insert_all(m, d);
        let e = extra.last();
        assert(plain_text(extra[extra.len() - 1].0) is Some);
        lemma_has_equal_plain(r, e.0);
        assert(plain_keyed(extra).drop_last() =~= plain_keyed(d));
        assert(plain_keyed(extra).last() == (plain_text(e.0).unwrap(), e));
        lemma_plain_keyed_push(r, e);
        if !has_equal(r, e.0) {
            assert forall|i: int| 0 <= i < r.push(e).len() implies (#[trigger] plain_text(r.push(e)[i].0)) is Some by {
                if i < r.len() {
                    assert(r.push(e)[i] == r[i]);
                }
            }
        }
    }
}

proof fn lemma_yaml_valid_upto_plain<V>(m: Seq<(serde_yaml_bw::Value, V)>, fields: Seq<FieldView>, s: NamingStrategy, n: nat)
    requires
        all_plain(m),
        n <= m.len(),
    ensures
        all_plain(yaml_valid_upto(m, fields, s, n)),
        plain_keyed(yaml_valid_upto(m, fields, s, n)) == crate::merge::valid_upto(plain_keyed(m), fields, s, n),
    decreases n,
{
    if n > 0 {
        lemma_yaml_valid_upto_plain(m, fields, s, (n - 1) as nat);
        let r = yaml_valid_upto(m, fields, s, (n - 1) as nat);
        assert(plain_text(m[n - 1].0) is Some);
        lemma_plain_keyed_push(r, m[n - 1]);
        assert forall|i: int| 0 <= i < r.push(m[n - 1]).len() implies (#[trigger] plain_text(r.push(m[n - 1])[i].0)) is Some by {
            if i < r.len() {
                assert(r.push(m[n - 1])[i] == r[i]);
            }
        }
    }
}

/// When every key is a string without anchor, so is every key of the merged
/// entries.
pub proof fn lemma_yaml_merged_plain<V>(
    stored: Seq<(serde_yaml_bw::Value, V)>,
    defaults: Seq<(serde_yaml_bw::Value, V)>,
    fields: Seq<FieldView>,
    options: ConfigOptions,
)
    requires
        plain_equality(),
        all_plain(stored),
        all_plain(defaults),
    ensures
        all_plain(yaml_merged_unordered(stored, defaults, fields, options)),
{
    let u = yaml_or_insert_all(stored, defaults);
    lemma_yaml_or_insert_all_plain(stored, defaults);
    if options.remove_orphans {
        lemma_yaml_valid_upto_plain(u, fields, options.naming_strategy, u.len());
    }
}

/// A YAML merge keeps what is stored (see [`keeps_stored`]) when every key is
/// a string without anchor, each text once in the stored and in the default
/// mapping: taking each entry under its key's text, stored values win, keys
/// missing from the store are added with their defaults, and with
/// `remove_orphans` only the keys that fields are written under stay. This
/// rests on YAML strings without anchor being equal exactly when their texts
/// are ([`plain_equality`]).
pub proof fn lemma_yaml_merge_keeps_stored<V>(
    stored: Seq<(serde_yaml_bw::Value, V)>,
    defaults: Seq<(serde_yaml_bw::Value, V)>,
    fields: Seq<FieldView>,
    options: ConfigOptions,
    r: Seq<(serde_yaml_bw::Value, V)>,
)
    requires
        plain_equality(),
        all_plain(stored),
        all_plain(defaults),
        keys_distinct(plain_keyed(stored)),
        keys_distinct(plain_keyed(defaults)),
        yaml_ordered(options.field_order, yaml_merged_unordered(stored, defaults, fields, options), r),
    ensures
        keeps_stored(plain_keyed(stored), plain_keyed(defaults), fields, options, plain_keyed(r)),
{
    let u = yaml_or_insert_all(stored, defaults);
    lemma_yaml_or_insert_all_plain(stored, defaults);
    if options.remove_orphans {
        lemma_yaml_valid_upto_plain(u, fields, options.naming_strategy, u.len());
        assert(plain_keyed(u).len() == u.len());
    }
    lemma_merge_keeps_stored(plain_keyed(stored), plain_keyed(defaults), fields, options, plain_keyed(r));
}

/// Inserting entries whose keys are strings without anchor with distinct texts
/// into a new mapping gives them back in order.
pub proof fn lemma_yaml_built_plain(
    m: Seq<(serde_yaml_bw::Value, serde_yaml_bw::Value)>,
    e: Seq<(serde_yaml_bw::Value, serde_yaml_bw::Value)>,
)
    requires
        plain_equality(),
        all_plain(m),
        keys_distinct(plain_keyed(m)),
        yaml_built(m, e),
    ensures
        e == m,
    decreases m.len(),
{
    if m.len() == 0 {
        assert(e.len() == 0);
        assert(e =~= m);
    } else {
        let p = m.drop_last();
        let m0 = choose|m0: Seq<(serde_yaml_bw::Value, serde_yaml_bw::Value)>|
            yaml_built(p, m0) && #[trigger] yaml_inserted(m0, m.last().0, m.last().1, e);
        assert forall|i: int| 0 <= i < p.len() implies (#[trigger] plain_text(p[i].0)) is Some by {
            assert(p[i] == m[i]);
        }
        assert(plain_keyed(p) =~= plain_keyed(m).drop_last());
        assert forall|a: int, b: int| 0 <= a < b < plain_keyed(p).len() implies
            #[trigger] plain_keyed(p)[a].0 != #[trigger] plain_keyed(p)[b].0 by {
            assert(plain_keyed(p)[a] == plain_keyed(m)[a] && plain_keyed(p)[b] == plain_keyed(m)[b]);
        }
        lemma_yaml_built_plain(p, m0);
        assert(plain_text(m[m.len() - 1].0) is Some);
        if exists|i: int| 0 <= i < m0.len() && #[trigger] yaml_key_eq(m.last().0, m0[i].0) {
            let i = choose|i: int| 0 <= i < m0.len() && #[trigger] yaml_key_eq(m.last().0, m0[i].0);
            assert(plain_text(m[i].0) is Some);
            assert(plain_keyed(m)[i].0 == plain_keyed(m)[m.len() - 1].0);
        }
        assert(m == p.push(m.last()));
    }
}

} // verus!
