//! Which key each field is written under, and how the top-level entries of a
//! document are renamed and ordered before it is written.

use vstd::prelude::*;

use crate::entries::{assoc_insert, has_key, insert_entry, keys_distinct, key_index, lookup, shift_remove_entry, remove_key, lemma_key_index, lemma_push_key, lemma_remove_key};
use crate::metadata::{ConfigMetadata, FieldMetadata, FieldView};
use crate::options::{ConfigOptions, NamingStrategy};
use crate::order::FieldOrder;
use crate::sorting::{ev, sort_entries, sorted_version, with_key};
use crate::text::same_text;

verus! {

/// The key of `field`: its custom key if it has one, else its name under `s`.
pub open spec fn field_key(field: FieldView, s: NamingStrategy) -> Seq<char> {
    match field.key {
        Some(k) => k,
        None => s.rename(field.name),
    }
}

/// The key of `field` under `s`.
pub fn key_of_field(field: &FieldMetadata, s: NamingStrategy) -> (r: String)
    ensures
        r@ == field_key(field@, s),
{
    match &field.key {
        Some(k) => k.clone(),
        None => s.apply(field.name.as_str()),
    }
}

/// The keys of the first `n` of `fields` that are not left out, in declaration
/// order, each paired with nothing.
pub open spec fn declared_keys(fields: Seq<FieldView>, s: NamingStrategy, n: nat) -> Seq<(Seq<char>, ())>
    decreases n,
{
    if n == 0 {
        seq![]
    } else if fields[n - 1].exclude {
        declared_keys(fields, s, (n - 1) as nat)
    } else {
        declared_keys(fields, s, (n - 1) as nat).push((field_key(fields[n - 1], s), ()))
    }
}

/// Each key of the first `n` of `fields` that are not left out, bound to the
/// position of the last such field that has it, in the order the keys first
/// occur.
pub open spec fn declared_bindings(fields: Seq<FieldView>, s: NamingStrategy, n: nat) -> Seq<(Seq<char>, usize)>
    decreases n,
{
    if n == 0 {
        seq![]
    } else if fields[n - 1].exclude {
        declared_bindings(fields, s, (n - 1) as nat)
    } else {
        assoc_insert(declared_bindings(fields, s, (n - 1) as nat), field_key(fields[n - 1], s), (n - 1) as usize)
    }
}

/// The keys and positions of the fields of `metadata` that are not left out.
pub fn declared_fields(metadata: &ConfigMetadata, s: NamingStrategy) -> (r: (Vec<(String, ())>, Vec<(String, usize)>))
    ensures
        ev(r.0@) == declared_keys(metadata@.fields, s, metadata@.fields.len()),
        ev(r.1@) == declared_bindings(metadata@.fields, s, metadata@.fields.len()),
        keys_distinct(ev(r.1@)),
        forall|j: int| 0 <= j < r.1@.len() ==> #[trigger] r.1@[j].1 < metadata@.fields.len(),
{
    let mut names: Vec<(String, ())> = Vec::new();
    let mut bindings: Vec<(String, usize)> = Vec::new();
    let mut i: usize = 0;
    assert(ev(names@) =~= seq![]);
    assert(ev(bindings@) =~= seq![]);
    while i < metadata.fields.len()
        invariant
            i <= metadata.fields@.len(),
            metadata@.fields.len() == metadata.fields@.len(),
            ev(names@) == declared_keys(metadata@.fields, s, i as nat),
            ev(bindings@) == declared_bindings(metadata@.fields, s, i as nat),
            keys_distinct(ev(bindings@)),
            forall|j: int| 0 <= j < bindings@.len() ==> #[trigger] bindings@[j].1 < i,
        decreases metadata.fields.len() - i,
    {
        let field = &metadata.fields[i];
        assert(metadata@.fields[i as int] == field@);
        if !field.exclude {
            let key = key_of_field(field, s);
            let key2 = key.clone();
            let ghost before = names@;
            names.push((key, ()));
            assert(ev(names@) =~= ev(before).push((key2@, ())));
            let ghost bb = bindings@;
            let ghost kk = key2@;
            insert_entry(&mut bindings, key2, i);
            proof {
                let e = ev(bb);
                assert(ev(bindings@) == assoc_insert(e, kk, i));
                assert forall|j: int| 0 <= j < bindings@.len() implies #[trigger] bindings@[j].1 < i + 1 by {
                    assert(ev(bindings@)[j].1 == bindings@[j].1);
                    if has_key(e, kk) {
                        let w = key_index(e, kk);
                        if j != w {
                            assert(ev(bindings@)[j] == e[j]);
                            assert(bb[j].1 == e[j].1);
                        }
                    } else if j < bb.len() {
                        assert(ev(bindings@)[j] == e[j]);
                        assert(bb[j].1 == e[j].1);
                    }
                }
            }
        }
        i = i + 1;
    }
    (names, bindings)
}



/// The keys of the first `n` of `fields` that are not left out, in
/// declaration order, each with the field's position.
pub open spec fn declared_positions(fields: Seq<FieldView>, s: NamingStrategy, n: nat) -> Seq<(Seq<char>, usize)>
    decreases n,
{
    if n == 0 {
        seq![]
    } else if fields[n - 1].exclude {
        declared_positions(fields, s, (n - 1) as nat)
    } else {
        declared_positions(fields, s, (n - 1) as nat).push((field_key(fields[n - 1], s), (n - 1) as usize))
    }
}

/// The keys and positions of the fields of `metadata` that are not left out,
/// in declaration order (see [`declared_positions`]).
pub fn field_positions(metadata: &ConfigMetadata, s: NamingStrategy) -> (r: Vec<(String, usize)>)
    ensures
        ev(r@) == declared_positions(metadata@.fields, s, metadata@.fields.len()),
        forall|j: int| 0 <= j < r@.len() ==> #[trigger] r@[j].1 < metadata@.fields.len(),
{
    let mut r: Vec<(String, usize)> = Vec::new();
    let mut i: usize = 0;
    assert(ev(r@) =~= seq![]);
    while i < metadata.fields.len()
        invariant
            i <= metadata.fields@.len(),
            metadata@.fields.len() == metadata.fields@.len(),
            ev(r@) == declared_positions(metadata@.fields, s, i as nat),
            forall|j: int| 0 <= j < r@.len() ==> #[trigger] r@[j].1 < i,
        decreases metadata.fields.len() - i,
    {
        let field = &metadata.fields[i];
        assert(metadata@.fields[i as int] == field@);
        if !field.exclude {
            let key = key_of_field(field, s);
            let ghost before = r@;
            let ghost kk = key@;
            r.push((key, i));
            assert(ev(r@) =~= ev(before).push((kk, i)));
        }
        i = i + 1;
    }
    r
}

/// The JSON object written from `m` for the fields at the first `n` of
/// `names` (each a key and a field's position), and what is left of `m`: each
/// field takes the entry under its key, else the entry under its name (its
/// value renamed), which then leaves `m`; the value is bound to the field's
/// key in the object.
pub open spec fn json_picked<V>(
    m: Seq<(Seq<char>, V)>,
    fields: Seq<FieldView>,
    names: Seq<(Seq<char>, usize)>,
    n: nat,
) -> (Seq<(Seq<char>, V)>, Seq<(Seq<char>, V)>)
    decreases n,
{
    if n == 0 {
        (seq![], m)
    } else {
        let (out, rest) = json_picked(m, fields, names, (n - 1) as nat);
        let k = names[n - 1].0;
        let nm = fields[names[n - 1].1 as int].name;
        if has_key(rest, k) {
            (assoc_insert(out, k, lookup(rest, k).unwrap()), remove_key(rest, k))
        } else if has_key(rest, nm) {
            (assoc_insert(out, k, lookup(rest, nm).unwrap()), remove_key(rest, nm))
        } else {
            (out, rest)
        }
    }
}

/// The entries of a JSON object as written: for each field not left out, in
/// the order of the field keys under `order` (declaration order among level
/// keys), the value under its key, else under its name, written under its
/// key; entries that no such field takes are dropped.
pub open spec fn json_arranged<V>(
    m: Seq<(Seq<char>, V)>,
    fields: Seq<FieldView>,
    s: NamingStrategy,
    order: FieldOrder,
    r: Seq<(Seq<char>, V)>,
) -> bool {
    exists|names: Seq<(Seq<char>, usize)>|
        sorted_version(order, declared_positions(fields, s, fields.len()), names)
        && (forall|k: Seq<char>| #[trigger] with_key(names, k) == with_key(declared_positions(fields, s, fields.len()), k))
        && r == #[trigger] json_picked(m, fields, names, names.len()).0
}

proof fn lemma_json_picked_keys<V>(m: Seq<(Seq<char>, V)>, fields: Seq<FieldView>, names: Seq<(Seq<char>, usize)>, n: nat)
    requires
        n <= names.len(),
    ensures
        forall|k: Seq<char>| #[trigger] has_key(json_picked(m, fields, names, n).0, k)
            ==> exists|j: int| 0 <= j < n && #[trigger] names[j].0 == k,
    decreases n,
{
    if n > 0 {
        lemma_json_picked_keys(m, fields, names, (n - 1) as nat);
        let (out, rest) = json_picked(m, fields, names, (n - 1) as nat);
        let k0 = names[n - 1].0;
        assert forall|k: Seq<char>| #[trigger] has_key(json_picked(m, fields, names, n).0, k)
            implies exists|j: int| 0 <= j < n && #[trigger] names[j].0 == k by {
            let o2 = json_picked(m, fields, names, n).0;
            let i = choose|i: int| 0 <= i < o2.len() && #[trigger] o2[i].0 == k;
            if k != k0 {
                if o2 != out {
                    if has_key(out, k0) {
                        let w = key_index(out, k0);
                        assert(0 <= w < out.len() && out[w].0 == k0);
                        assert(o2[i] == out[i]);
                    } else {
                        assert(i < out.len());
                        assert(o2[i] == out[i]);
                    }
                }
                assert(has_key(out, k));
            } else {
                assert(names[n - 1].0 == k);
            }
        }
    }
}

proof fn lemma_declared_positions(fields: Seq<FieldView>, s: NamingStrategy, n: nat, j: int)
    requires
        n <= fields.len(),
        fields.len() <= usize::MAX,
        0 <= j < declared_positions(fields, s, n).len(),
    ensures
        declared_positions(fields, s, n)[j].1 < n,
        !fields[declared_positions(fields, s, n)[j].1 as int].exclude,
        field_key(fields[declared_positions(fields, s, n)[j].1 as int], s) == declared_positions(fields, s, n)[j].0,
    decreases n,
{
    if n > 0 {
        let p = declared_positions(fields, s, (n - 1) as nat);
        if j < p.len() {
            lemma_declared_positions(fields, s, (n - 1) as nat, j);
            if !fields[n - 1].exclude {
                assert(declared_positions(fields, s, n)[j] == p[j]);
            }
        } else {
            assert(!fields[n - 1].exclude);
            assert(declared_positions(fields, s, n)[j] == (field_key(fields[n - 1], s), (n - 1) as usize));
            assert(((n - 1) as usize) as int == n - 1);
        }
    }
}

/// What a JSON document holds: only keys that some field not left out is
/// written under.
pub proof fn lemma_json_written_keys<V>(
    m: Seq<(Seq<char>, V)>,
    fields: Seq<FieldView>,
    s: NamingStrategy,
    order: FieldOrder,
    r: Seq<(Seq<char>, V)>,
)
    requires
        fields.len() <= usize::MAX,
        json_arranged(m, fields, s, order, r),
    ensures
        forall|k: Seq<char>| #[trigger] has_key(r, k) ==> exists|i: int|
            0 <= i < fields.len() && !fields[i].exclude && #[trigger] field_key(fields[i], s) == k,
{
    let d = declared_positions(fields, s, fields.len());
    let names = choose|names: Seq<(Seq<char>, usize)>|
        sorted_version(order, d, names)
        && (forall|k: Seq<char>| #[trigger] with_key(names, k) == with_key(d, k))
        && r == #[trigger] json_picked(m, fields, names, names.len()).0;
    lemma_json_picked_keys(m, fields, names, names.len());
    assert forall|k: Seq<char>| #[trigger] has_key(r, k) implies exists|i: int|
        0 <= i < fields.len() && !fields[i].exclude && #[trigger] field_key(fields[i], s) == k by {
        broadcast use vstd::seq_lib::group_to_multiset_ensures;
        let j = choose|j: int| 0 <= j < names.len() && #[trigger] names[j].0 == k;
        assert(names.contains(names[j]));
        assert(names.to_multiset().count(names[j]) > 0);
        assert(d.contains(names[j]));
        let a = choose|a: int| 0 <= a < d.len() && d[a] == names[j];
        lemma_declared_positions(fields, s, fields.len(), a);
        let i = d[a].1 as int;
        assert(field_key(fields[i], s) == k);
    }
}

/// The entries that the fields at `names` take from `m` (see [`json_picked`]).
fn pick_fields<V>(m: Vec<(String, V)>, metadata: &ConfigMetadata, names: &Vec<(String, usize)>) -> (r: Vec<(String, V)>)
    requires
        keys_distinct(ev(m@)),
        forall|j: int| 0 <= j < names@.len() ==> #[trigger] names@[j].1 < metadata@.fields.len(),
    ensures
        ev(r@) == json_picked(ev(m@), metadata@.fields, ev(names@), names@.len()).0,
        keys_distinct(ev(r@)),
{
    let ghost orig = ev(m@);
    let mut rest = m;
    let mut out: Vec<(String, V)> = Vec::new();
    let mut i: usize = 0;
    assert(ev(out@) =~= seq![]);
    while i < names.len()
        invariant
            i <= names@.len(),
            forall|j: int| 0 <= j < names@.len() ==> #[trigger] names@[j].1 < metadata@.fields.len(),
            (ev(out@), ev(rest@)) == json_picked(orig, metadata@.fields, ev(names@), i as nat),
            keys_distinct(ev(out@)),
            keys_distinct(ev(rest@)),
        decreases names.len() - i,
    {
        let k = &names[i].0;
        let idx = names[i].1;
        let nm = metadata.fields[idx].name.as_str();
        assert(metadata@.fields[idx as int].name == nm@);
        assert(ev(names@)[i as int] == (k@, idx));
        let ghost r0 = ev(rest@);
        match shift_remove_entry(&mut rest, k.as_str()) {
            Some(v) => {
                insert_entry(&mut out, k.clone(), v);
            },
            None => {
                assert(remove_key(r0, k@) == r0);
                match shift_remove_entry(&mut rest, nm) {
                    Some(v) => {
                        insert_entry(&mut out, k.clone(), v);
                    },
                    None => {},
                }
            },
        }
        i = i + 1;
    }
    out
}

/// Lays out the entries of a JSON object for writing, as described by
/// [`json_arranged`], and binds each field key to its last field not left out.
pub fn json_arrange<V>(m: Vec<(String, V)>, metadata: &ConfigMetadata, options: &ConfigOptions) -> (r: (
    Vec<(String, V)>,
    Vec<(String, usize)>,
))
    requires
        keys_distinct(ev(m@)),
    ensures
        json_arranged(ev(m@), metadata@.fields, options.naming_strategy, options.field_order, ev(r.0@)),
        keys_distinct(ev(r.0@)),
        ev(r.1@) == declared_bindings(metadata@.fields, options.naming_strategy, metadata@.fields.len()),
        forall|j: int| 0 <= j < r.1@.len() ==> #[trigger] r.1@[j].1 < metadata@.fields.len(),
{
    let ghost mv = ev(m@);
    let (_, bindings) = declared_fields(metadata, options.naming_strategy);
    let positions = field_positions(metadata, options.naming_strategy);
    let sorted = sort_entries(positions, options.field_order);
    proof {
        assert forall|j: int| 0 <= j < sorted@.len() implies #[trigger] sorted@[j].1 < metadata@.fields.len() by {
            broadcast use vstd::seq_lib::group_to_multiset_ensures;
            let e = ev(sorted@)[j];
            assert(ev(sorted@)[j] == (sorted@[j].0@, sorted@[j].1));
            assert(ev(sorted@).contains(e));
            assert(ev(sorted@).to_multiset().count(e) > 0);
            assert(ev(positions@).contains(e));
            let a = choose|a: int| 0 <= a < ev(positions@).len() && ev(positions@)[a] == e;
            assert(ev(positions@)[a].1 == positions@[a].1);
        }
    }
    let out = pick_fields(m, metadata, &sorted);
    proof {
        let names = ev(sorted@);
        assert(names.len() == sorted@.len());
        assert(ev(out@) == json_picked(mv, metadata@.fields, names, names.len()).0);
        assert(sorted_version(options.field_order, declared_positions(metadata@.fields, options.naming_strategy, metadata@.fields.len()), names));
    }
    (out, bindings)
}

/// The position of the first of `fields` called `name`, if any.
pub open spec fn first_named(fields: Seq<FieldView>, name: Seq<char>) -> Option<int> {
    if exists|i: int| 0 <= i < fields.len() && #[trigger] fields[i].name == name {
        Some(
            choose|i: int|
                0 <= i < fields.len() && #[trigger] fields[i].name == name && forall|j: int|
                    0 <= j < i ==> #[trigger] fields[j].name != name,
        )
    } else {
        None
    }
}

/// Where the first field called `name` stands in `metadata`, if any.
pub fn find_field_named(metadata: &ConfigMetadata, name: &str) -> (r: Option<usize>)
    ensures
        match r {
            Some(i) => first_named(metadata@.fields, name@) == Some(i as int) && i < metadata@.fields.len(),
            None => first_named(metadata@.fields, name@) is None,
        },
{
    let ghost fs = metadata@.fields;
    let mut i: usize = 0;
    while i < metadata.fields.len()
        invariant
            i <= metadata.fields@.len(),
            fs == metadata@.fields,
            fs.len() == metadata.fields@.len(),
            forall|j: int| 0 <= j < i ==> #[trigger] fs[j].name != name@,
        decreases metadata.fields.len() - i,
    {
        assert(fs[i as int] == metadata.fields@[i as int]@);
        if same_text(metadata.fields[i].name.as_str(), name) {
            proof {
                assert(fs[i as int].name == name@);
                let w = choose|w: int|
                    0 <= w < fs.len() && #[trigger] fs[w].name == name@ && forall|j: int|
                        0 <= j < w ==> #[trigger] fs[j].name != name@;
                assert(0 <= w < fs.len() && fs[w].name == name@ && forall|j: int|
                        0 <= j < w ==> #[trigger] fs[j].name != name@);
                if w < i {
                } else if w > i {
                    assert(fs[i as int].name != name@);
                }
            }
            return Some(i);
        }
        i = i + 1;
    }
    None
}

/// `m` with each of `extra` bound in turn (see [`assoc_insert`]).
pub open spec fn insert_all<V>(m: Seq<(Seq<char>, V)>, extra: Seq<(Seq<char>, V)>) -> Seq<(Seq<char>, V)>
    decreases extra.len(),
{
    if extra.len() == 0 {
        m
    } else {
        assoc_insert(insert_all(m, extra.drop_last()), extra.last().0, extra.last().1)
    }
}

/// The renaming of a TOML table after its first `n` keys (those of `orig`, in
/// order): each key that some field is called by is bound to the first such
/// field's key; when that key differs, the entry leaves the table (the others
/// keeping their order) and waits, under the new key, to be put back.
/// The table, the waiting entries, and the bindings.
pub open spec fn renaming<V>(
    orig: Seq<(Seq<char>, V)>,
    fields: Seq<FieldView>,
    s: NamingStrategy,
    n: nat,
) -> (Seq<(Seq<char>, V)>, Seq<(Seq<char>, V)>, Seq<(Seq<char>, usize)>)
    decreases n,
{
    if n == 0 {
        (orig, seq![], seq![])
    } else {
        let (m, waiting, b) = renaming(orig, fields, s, (n - 1) as nat);
        let key = orig[n - 1].0;
        match first_named(fields, key) {
            Some(f) => {
                let nk = field_key(fields[f], s);
                let b2 = assoc_insert(b, nk, f as usize);
                if nk != key && has_key(m, key) {
                    (remove_key(m, key), waiting.push((nk, lookup(m, key).unwrap())), b2)
                } else {
                    (m, waiting, b2)
                }
            },
            None => (m, waiting, b),
        }
    }
}

/// The entries of a TOML table as written: renamed (see [`renaming`]),
/// the renamed entries put back (in place of an entry with the same key, else
/// at the end), then stably sorted by `order`.
pub open spec fn arranged<V>(
    orig: Seq<(Seq<char>, V)>,
    fields: Seq<FieldView>,
    s: NamingStrategy,
    order: FieldOrder,
    r: Seq<(Seq<char>, V)>,
) -> bool {
    let (m, waiting, b) = renaming(orig, fields, s, orig.len());
    sorted_version(order, insert_all(m, waiting), r)
}

proof fn lemma_min_named(fields: Seq<FieldView>, name: Seq<char>, i: int)
    requires
        0 <= i < fields.len(),
        fields[i].name == name,
    ensures
        exists|m: int|
            0 <= m < fields.len() && #[trigger] fields[m].name == name && forall|j: int|
                0 <= j < m ==> #[trigger] fields[j].name != name,
    decreases i,
{
    if exists|j: int| 0 <= j < i && #[trigger] fields[j].name == name {
        let j = choose|j: int| 0 <= j < i && #[trigger] fields[j].name == name;
        lemma_min_named(fields, name, j);
    } else {
        assert(forall|j: int| 0 <= j < i ==> #[trigger] fields[j].name != name);
    }
}

/// The first field called `name`, when there is one, is called `name`.
pub proof fn lemma_first_named(fields: Seq<FieldView>, name: Seq<char>)
    ensures
        first_named(fields, name) matches Some(f) ==> 0 <= f < fields.len() && fields[f].name == name,
{
    if exists|i: int| 0 <= i < fields.len() && #[trigger] fields[i].name == name {
        let i = choose|i: int| 0 <= i < fields.len() && #[trigger] fields[i].name == name;
        lemma_min_named(fields, name, i);
    }
}

proof fn lemma_renaming_identity<V>(orig: Seq<(Seq<char>, V)>, fields: Seq<FieldView>, n: nat)
    requires
        n <= orig.len(),
        forall|i: int| 0 <= i < fields.len() ==> (#[trigger] fields[i].key) is None,
    ensures
        renaming(orig, fields, NamingStrategy::Identity, n).0 == orig,
        renaming(orig, fields, NamingStrategy::Identity, n).1 == Seq::<(Seq<char>, V)>::empty(),
    decreases n,
{
    if n > 0 {
        lemma_renaming_identity(orig, fields, (n - 1) as nat);
        lemma_first_named(fields, orig[n - 1].0);
    }
}

/// With the identity naming and no custom keys, a TOML table is written with
/// all its entries, only sorted by the field order.
pub proof fn lemma_identity_keeps_entries<V>(
    orig: Seq<(Seq<char>, V)>,
    fields: Seq<FieldView>,
    order: FieldOrder,
    r: Seq<(Seq<char>, V)>,
)
    requires
        forall|i: int| 0 <= i < fields.len() ==> (#[trigger] fields[i].key) is None,
        arranged(orig, fields, NamingStrategy::Identity, order, r),
    ensures
        sorted_version(order, orig, r),
{
    lemma_renaming_identity(orig, fields, orig.len());
}

/// The key that `k` is renamed to: the key of the first field called `k`,
/// if there is one; `k` itself otherwise.
pub open spec fn renamed_key(fields: Seq<FieldView>, s: NamingStrategy, k: Seq<char>) -> Seq<char> {
    match first_named(fields, k) {
        Some(f) => field_key(fields[f], s),
        None => k,
    }
}

/// The entries of `m`, each under its renamed key (see [`renamed_key`]).
pub open spec fn renamed_entries<V>(m: Seq<(Seq<char>, V)>, fields: Seq<FieldView>, s: NamingStrategy) -> Seq<(Seq<char>, V)> {
    m.map_values(|e: (Seq<char>, V)| (renamed_key(fields, s, e.0), e.1))
}

proof fn lemma_distinct_skip<V>(m: Seq<(Seq<char>, V)>, n: int)
    requires
        keys_distinct(m),
        0 <= n <= m.len(),
    ensures
        keys_distinct(m.skip(n)),
{
    let t = m.skip(n);
    assert forall|a: int, b: int| 0 <= a < b < t.len() implies #[trigger] t[a].0 != #[trigger] t[b].0 by {
        assert(t[a] == m[a + n] && t[b] == m[b + n]);
    }
}

#[verifier::rlimit(80)]
proof fn lemma_renaming_all<V>(orig: Seq<(Seq<char>, V)>, fields: Seq<FieldView>, s: NamingStrategy, n: nat)
    requires
        n <= orig.len(),
        keys_distinct(orig),
        forall|i: int| 0 <= i < orig.len() ==> (#[trigger] first_named(fields, orig[i].0)) is Some,
        forall|i: int| 0 <= i < orig.len() ==> #[trigger] renamed_key(fields, s, orig[i].0) != orig[i].0,
    ensures
        renaming(orig, fields, s, n).0 == orig.skip(n as int),
        renaming(orig, fields, s, n).1 == renamed_entries(orig, fields, s).take(n as int),
    decreases n,
{
    if n == 0 {
        assert(orig.skip(0) == orig);
        assert(renamed_entries(orig, fields, s).take(0) =~= Seq::<(Seq<char>, V)>::empty());
    } else {
        lemma_renaming_all(orig, fields, s, (n - 1) as nat);
        let prev = renaming(orig, fields, s, (n - 1) as nat);
        let m = orig.skip(n - 1);
        let key = orig[n - 1].0;
        assert(first_named(fields, orig[n - 1].0) is Some);
        assert(renamed_key(fields, s, orig[n - 1].0) != orig[n - 1].0);
        let f = first_named(fields, key).unwrap();
        let nk = field_key(fields[f], s);
        assert(nk == renamed_key(fields, s, key));
        lemma_distinct_skip(orig, n - 1);
        assert(m[0] == orig[n - 1]);
        lemma_key_index(m, 0);
        assert(has_key(m, key));
        assert(remove_key(m, key) =~= orig.skip(n as int));
        assert(lookup(m, key) == Some(orig[n - 1].1));
        let rn = renamed_entries(orig, fields, s);
        assert(rn[n - 1] == (nk, orig[n - 1].1));
        assert(rn.take(n as int) =~= rn.take(n - 1).push(rn[n - 1]));
        assert(renaming(orig, fields, s, n) == (remove_key(prev.0, key), prev.1.push((nk, lookup(prev.0, key).unwrap())), assoc_insert(prev.2, nk, f as usize)));
    }
}

/// Under the order `Declaration`, when every key of a table is the name of a
/// field and is renamed to another key, with no two renamed keys alike, the
/// table is written under the renamed keys, in the table's order, each with
/// its value.
pub proof fn lemma_renamed_in_table_order<V>(
    orig: Seq<(Seq<char>, V)>,
    fields: Seq<FieldView>,
    s: NamingStrategy,
    r: Seq<(Seq<char>, V)>,
)
    requires
        keys_distinct(orig),
        forall|i: int| 0 <= i < orig.len() ==> (#[trigger] first_named(fields, orig[i].0)) is Some,
        forall|i: int| 0 <= i < orig.len() ==> #[trigger] renamed_key(fields, s, orig[i].0) != orig[i].0,
        keys_distinct(renamed_entries(orig, fields, s)),
        arranged(orig, fields, s, FieldOrder::Declaration, r),
    ensures
        r == renamed_entries(orig, fields, s),
{
    lemma_renaming_all(orig, fields, s, orig.len());
    let rn = renamed_entries(orig, fields, s);
    assert(orig.skip(orig.len() as int) =~= Seq::<(Seq<char>, V)>::empty());
    assert(rn.take(orig.len() as int) =~= rn);
    crate::merge::lemma_insert_all_distinct(rn);
}

/// Renames and orders the entries of a TOML table for writing, as described by
/// [`arranged`], and binds each renamed key to its field.
pub fn arrange_entries<V>(m: Vec<(String, V)>, metadata: &ConfigMetadata, options: &ConfigOptions) -> (r: (
    Vec<(String, V)>,
    Vec<(String, usize)>,
))
    requires
        keys_distinct(ev(m@)),
    ensures
        arranged(ev(m@), metadata@.fields, options.naming_strategy, options.field_order, ev(r.0@)),
        ev(r.1@) == renaming(ev(m@), metadata@.fields, options.naming_strategy, m@.len()).2,
        forall|j: int| 0 <= j < r.1@.len() ==> #[trigger] r.1@[j].1 < metadata@.fields.len(),
{
    let ghost orig = ev(m@);
    let s = options.naming_strategy;
    let mut keys: Vec<String> = Vec::new();
    let mut i: usize = 0;
    while i < m.len()
        invariant
            i <= m@.len(),
            keys@.len() == i,
            forall|j: int| 0 <= j < i ==> #[trigger] keys@[j]@ == m@[j].0@,
        decreases m.len() - i,
    {
        keys.push(m[i].0.clone());
        i = i + 1;
    }
    let mut map = m;
    let mut waiting: Vec<(String, V)> = Vec::new();
    let mut bindings: Vec<(String, usize)> = Vec::new();
    let mut i: usize = 0;
    assert(ev(waiting@) =~= seq![]);
    assert(ev(bindings@) =~= seq![]);
    while i < keys.len()
        invariant
            i <= keys@.len(),
            keys@.len() == orig.len(),
            forall|j: int| 0 <= j < keys@.len() ==> #[trigger] keys@[j]@ == orig[j].0,
            keys_distinct(orig),
            keys_distinct(ev(map@)),
            keys_distinct(ev(bindings@)),
            (ev(map@), ev(waiting@), ev(bindings@)) == renaming(orig, metadata@.fields, s, i as nat),
            forall|j: int| 0 <= j < bindings@.len() ==> #[trigger] bindings@[j].1 < metadata@.fields.len(),
        decreases keys.len() - i,
    {
        let key = &keys[i];
        assert(key@ == orig[i as int].0);
        match find_field_named(metadata, key.as_str()) {
            Some(f) => {
                let nk = key_of_field(&metadata.fields[f], s);
                assert(metadata@.fields[f as int] == metadata.fields@[f as int]@);
                let ghost bb = bindings@;
                let ghost nkv = nk@;
                insert_entry(&mut bindings, nk.clone(), f);
                proof {
                    let e = ev(bb);
                    assert(ev(bindings@) == assoc_insert(e, nkv, f));
                    assert forall|j: int| 0 <= j < bindings@.len() implies #[trigger] bindings@[j].1 < metadata@.fields.len() by {
                        assert(ev(bindings@)[j].1 == bindings@[j].1);
                        if has_key(e, nkv) {
                            let w = key_index(e, nkv);
                            if j != w {
                                assert(ev(bindings@)[j] == e[j]);
                                assert(bb[j].1 == e[j].1);
                            }
                        } else if j < bb.len() {
                            assert(ev(bindings@)[j] == e[j]);
                            assert(bb[j].1 == e[j].1);
                        }
                    }
                }
                if !same_text(nk.as_str(), key.as_str()) {
                    let ghost mb = ev(map@);
                    let ghost wb = ev(waiting@);
                    match shift_remove_entry(&mut map, key.as_str()) {
                        Some(value) => {
                            let ghost vv = value;
                            waiting.push((nk, value));
                            assert(ev(waiting@) =~= wb.push((nkv, vv)));
                        },
                        None => {},
                    }
                }
            },
            None => {},
        }
        i = i + 1;
    }
    let ghost premap = ev(map@);
    let ghost waited = ev(waiting@);
    let mut waiting = waiting;
    let ghost mut k: int = 0;
    assert(waited.take(0) =~= seq![]);
    assert(waited.skip(0) == waited);
    while waiting.len() > 0
        invariant
            0 <= k <= waited.len(),
            keys_distinct(ev(map@)),
            ev(map@) == insert_all(premap, waited.take(k)),
            ev(waiting@) == waited.skip(k),
        decreases waiting.len(),
    {
        assert(ev(waiting@).len() == waiting@.len());
        assert(k < waited.len());
        assert(ev(waiting@)[0] == (waiting@[0].0@, waiting@[0].1));
        let e = waiting.remove(0);
        assert(waited.skip(k)[0] == waited[k]);
        assert(waited.take(k + 1).drop_last() == waited.take(k));
        assert(waited.take(k + 1).last() == waited[k]);
        assert(waited.skip(k).remove(0) == waited.skip(k + 1));
        insert_entry(&mut map, e.0, e.1);
        proof {
            k = k + 1;
        }
    }
    assert(waited.take(k) == waited);
    (sort_entries(map, options.field_order), bindings)
}


/// Binding a key to a position below `n` keeps every binding below `n`.
pub proof fn lemma_bindings_bounded(e: Seq<(Seq<char>, usize)>, k: Seq<char>, f: usize, n: int)
    requires
        f < n,
        forall|j: int| 0 <= j < e.len() ==> #[trigger] e[j].1 < n,
    ensures
        forall|j: int| 0 <= j < assoc_insert(e, k, f).len() ==> #[trigger] assoc_insert(e, k, f)[j].1 < n,
{
    let r = assoc_insert(e, k, f);
    assert forall|j: int| 0 <= j < r.len() implies #[trigger] r[j].1 < n by {
        if has_key(e, k) {
            if j != key_index(e, k) {
                assert(r[j] == e[j]);
            }
        } else if j < e.len() {
            assert(r[j] == e[j]);
        }
    }
}

} // verus!
