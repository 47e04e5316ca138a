//! YAML: writing a configuration with comments and header, and merging
//! documents. Mapping keys are YAML values; the library reads of each key its
//! text (`Value::as_str`), the text of a string key, and the text of a string
//! key without anchor.

use vstd::prelude::*;

use crate::common::{binding_views, build_comment_map, comment_entries, format_header, header_text};
use crate::entries::{assoc_insert, insert_entry, keys_distinct};
use crate::error::ConfigError;
use crate::format::Format;
use crate::json_format::{bind_fields, bound_fields};
use crate::keys::{field_key, find_field_named, first_named, key_of_field, insert_all, lemma_bindings_bounded, lemma_first_named, renamed_key};
use crate::metadata::{opt_view, ConfigMetadata, FieldView, MetadataView};
use crate::options::{ConfigOptions, NamingStrategy};
use crate::order::FieldOrder;
use crate::render::{headed_document, render_headed};
use crate::sorting::{ev, sort_entries, sorted_version};
use crate::text::same_text;

verus! {

/// What the library reads of a YAML mapping key.
pub struct KeyInfo {
    /// The key's text, as `Value::as_str` gives it (through tags).
    pub text: Option<String>,
    /// The text of the key when it is a string (`Value::String`).
    pub direct: Option<String>,
    /// The text of the key when it is a string without anchor.
    pub plain: Option<String>,
}

/// The contents of a [`KeyInfo`].
pub struct KeyView {
    pub text: Option<Seq<char>>,
    pub direct: Option<Seq<char>>,
    pub plain: Option<Seq<char>>,
}

impl View for KeyInfo {
    type V = KeyView;

    open spec fn view(&self) -> KeyView {
        KeyView { text: opt_view(self.text), direct: opt_view(self.direct), plain: opt_view(self.plain) }
    }
}

/// The entries `e` with each key taken by what the library reads of it.
pub open spec fn kv<V>(e: Seq<(KeyInfo, V)>) -> Seq<(KeyView, V)> {
    e.map_values(|x: (KeyInfo, V)| (x.0@, x.1))
}

/// The position of the first entry of `m` whose key is a string with text `t`.
pub open spec fn direct_index<V>(m: Seq<(KeyView, V)>, t: Seq<char>) -> Option<int> {
    if exists|i: int| 0 <= i < m.len() && #[trigger] m[i].0.direct == Some(t) {
        Some(
            choose|i: int|
                0 <= i < m.len() && #[trigger] m[i].0.direct == Some(t) && forall|j: int|
                    0 <= j < i ==> #[trigger] m[j].0.direct != Some(t),
        )
    } else {
        None
    }
}

/// The position of the first entry of `m` whose key is the string `t` without
/// anchor.
pub open spec fn plain_index<V>(m: Seq<(KeyView, V)>, t: Seq<char>) -> Option<int> {
    if exists|i: int| 0 <= i < m.len() && #[trigger] m[i].0.plain == Some(t) {
        Some(
            choose|i: int|
                0 <= i < m.len() && #[trigger] m[i].0.plain == Some(t) && forall|j: int|
                    0 <= j < i ==> #[trigger] m[j].0.plain != Some(t),
        )
    } else {
        None
    }
}

/// `m` without entry `i`, the last entry moved into its place
/// (`swap_remove`).
pub open spec fn swap_removed<A>(m: Seq<A>, i: int) -> Seq<A> {
    m.update(i, m.last()).drop_last()
}

/// The key of a string `t` without anchor.
pub open spec fn string_key(t: Seq<char>) -> KeyView {
    KeyView { text: Some(t), direct: Some(t), plain: Some(t) }
}

/// The renaming of a YAML mapping after its first `n` keys (those of `orig`,
/// in order): each key with a text that some field is called by is bound to
/// the first such field's key; when that key differs, the first string entry
/// with that text leaves the mapping (the last entry taking its place) and
/// waits, under the new key, to be put back. The mapping, the waiting entries,
/// and the bindings.
pub open spec fn yaml_renaming<V>(
    orig: Seq<(KeyView, V)>,
    fields: Seq<FieldView>,
    s: NamingStrategy,
    n: nat,
) -> (Seq<(KeyView, V)>, Seq<(Seq<char>, V)>, Seq<(Seq<char>, usize)>)
    decreases n,
{
    if n == 0 {
        (orig, seq![], seq![])
    } else {
        let (m, waiting, b) = yaml_renaming(orig, fields, s, (n - 1) as nat);
        yaml_rename_key(m, waiting, b, orig[n - 1].0.text, fields, s)
    }
}

/// One step of [`yaml_renaming`]: the key with text `text`.
pub open spec fn yaml_rename_key<V>(
    m: Seq<(KeyView, V)>,
    waiting: Seq<(Seq<char>, V)>,
    b: Seq<(Seq<char>, usize)>,
    text: Option<Seq<char>>,
    fields: Seq<FieldView>,
    s: NamingStrategy,
) -> (Seq<(KeyView, V)>, Seq<(Seq<char>, V)>, Seq<(Seq<char>, usize)>) {
    match text {
        Some(t) => match first_named(fields, t) {
            Some(f) => {
                let nk = field_key(fields[f], s);
                let b2 = assoc_insert(b, nk, f as usize);
                if nk != t {
                    match direct_index(m, t) {
                        Some(i) => (swap_removed(m, i), waiting.push((nk, m[i].1)), b2),
                        None => (m, waiting, b2),
                    }
                } else {
                    (m, waiting, b2)
                }
            },
            None => (m, waiting, b),
        },
        None => (m, waiting, b),
    }
}

/// `m` with the entries `extra` put back as string keys without anchor: in
/// place of an entry with that very key, else at the end.
pub open spec fn put_back<V>(m: Seq<(KeyView, V)>, extra: Seq<(Seq<char>, V)>) -> Seq<(KeyView, V)>
    decreases extra.len(),
{
    if extra.len() == 0 {
        m
    } else {
        let r = put_back(m, extra.drop_last());
        let (k, v) = extra.last();
        match plain_index(r, k) {
            Some(i) => r.update(i, (string_key(k), v)),
            None => r.push((string_key(k), v)),
        }
    }
}

/// The first `n` entries of `m` whose keys have a text, each under its text.
pub open spec fn texts_upto<V>(m: Seq<(KeyView, V)>, n: nat) -> Seq<(Seq<char>, V)>
    decreases n,
{
    if n == 0 {
        seq![]
    } else {
        match m[n - 1].0.text {
            Some(t) => texts_upto(m, (n - 1) as nat).push((t, m[n - 1].1)),
            None => texts_upto(m, (n - 1) as nat),
        }
    }
}

/// The entries of a YAML mapping as written: renamed (see [`yaml_renaming`]),
/// the renamed entries put back, each key with a text taken under its text
/// (others dropped), stably sorted by `order`, and bound into a fresh mapping
/// in that order.
pub open spec fn yaml_arranged<V>(
    orig: Seq<(KeyView, V)>,
    fields: Seq<FieldView>,
    s: NamingStrategy,
    order: FieldOrder,
    r: Seq<(Seq<char>, V)>,
) -> bool {
    let (m, waiting, b) = yaml_renaming(orig, fields, s, orig.len());
    let p = put_back(m, waiting);
    exists|sorted: Seq<(Seq<char>, V)>|
        sorted_version(order, texts_upto(p, p.len()), sorted) && r == #[trigger] insert_all(seq![], sorted)
}


proof fn lemma_yaml_renaming_identity<V>(orig: Seq<(KeyView, V)>, fields: Seq<FieldView>, n: nat)
    requires
        n <= orig.len(),
        forall|i: int| 0 <= i < fields.len() ==> (#[trigger] fields[i].key) is None,
    ensures
        yaml_renaming(orig, fields, NamingStrategy::Identity, n).0 == orig,
        yaml_renaming(orig, fields, NamingStrategy::Identity, n).1 == Seq::<(Seq<char>, V)>::empty(),
    decreases n,
{
    if n > 0 {
        lemma_yaml_renaming_identity(orig, fields, (n - 1) as nat);
        if let Some(t) = orig[n - 1].0.text {
            lemma_first_named(fields, t);
        }
    }
}

/// With the identity naming and no custom keys, a YAML mapping is written
/// with each entry whose key has a text under that text, sorted by the field
/// order (a text met twice keeps its first place and takes the later value).
pub proof fn lemma_yaml_identity_keeps_mapping<V>(
    orig: Seq<(KeyView, V)>,
    fields: Seq<FieldView>,
    order: FieldOrder,
    r: Seq<(Seq<char>, V)>,
)
    requires
        forall|i: int| 0 <= i < fields.len() ==> (#[trigger] fields[i].key) is None,
        yaml_arranged(orig, fields, NamingStrategy::Identity, order, r),
    ensures
        exists|sorted: Seq<(Seq<char>, V)>|
            sorted_version(order, texts_upto(orig, orig.len()), sorted) && r == #[trigger] insert_all(seq![], sorted),
{
    lemma_yaml_renaming_identity(orig, fields, orig.len());
}

/// The entries of a mapping whose keys are all strings, each under the key
/// that its text is renamed to (see [`renamed_key`]).
pub open spec fn yaml_renamed<V>(m: Seq<(KeyView, V)>, fields: Seq<FieldView>, s: NamingStrategy) -> Seq<(Seq<char>, V)> {
    m.map_values(|e: (KeyView, V)| (renamed_key(fields, s, e.0.direct.unwrap()), e.1))
}

proof fn lemma_min_direct<V>(m: Seq<(KeyView, V)>, t: Seq<char>, i: int)
    requires
        0 <= i < m.len(),
        m[i].0.direct == Some(t),
    ensures
        exists|w: int|
            0 <= w < m.len() && #[trigger] m[w].0.direct == Some(t) && forall|j: int|
                0 <= j < w ==> #[trigger] m[j].0.direct != Some(t),
    decreases i,
{
    if exists|j: int| 0 <= j < i && #[trigger] m[j].0.direct == Some(t) {
        let j = choose|j: int| 0 <= j < i && #[trigger] m[j].0.direct == Some(t);
        lemma_min_direct(m, t, j);
    } else {
        assert(forall|j: int| 0 <= j < i ==> #[trigger] m[j].0.direct != Some(t));
    }
}

proof fn lemma_swap_removed_multiset<A>(m: Seq<A>, i: int)
    requires
        0 <= i < m.len(),
    ensures
        swap_removed(m, i).to_multiset() == m.to_multiset().remove(m[i]),
        swap_removed(m, i).len() == m.len() - 1,
{
    broadcast use vstd::seq_lib::group_to_multiset_ensures;
    broadcast use vstd::seq_lib::lemma_multiset_commutative;
    let n = m.len();
    if i == n - 1 {
        assert(swap_removed(m, i) =~= m.remove(i));
    } else {
        let a = m.subrange(0, i);
        let b = m.subrange(i + 1, n - 1);
        let l = seq![m.last()];
        assert(swap_removed(m, i) =~= a + (l + b));
        assert(m.remove(i) =~= a + (b + l));
        assert((l + b).to_multiset() =~= (b + l).to_multiset());
        assert((a + (l + b)).to_multiset() =~= (a + (b + l)).to_multiset());
    }
}

#[verifier::rlimit(80)]
proof fn lemma_yaml_renaming_all<V>(orig: Seq<(KeyView, V)>, fields: Seq<FieldView>, s: NamingStrategy, n: nat)
    requires
        n <= orig.len(),
        forall|i: int| 0 <= i < orig.len() ==> (#[trigger] orig[i].0).direct is Some && orig[i].0.text == orig[i].0.direct,
        forall|i: int, j: int| 0 <= i < j < orig.len() ==> (#[trigger] orig[i].0).direct != (#[trigger] orig[j].0).direct,
        forall|i: int| 0 <= i < orig.len() ==> (#[trigger] first_named(fields, orig[i].0.direct.unwrap())) is Some,
        forall|i: int| 0 <= i < orig.len() ==> #[trigger] renamed_key(fields, s, orig[i].0.direct.unwrap()) != orig[i].0.direct.unwrap(),
    ensures
        yaml_renaming(orig, fields, s, n).0.to_multiset() == orig.skip(n as int).to_multiset(),
        yaml_renaming(orig, fields, s, n).0.len() == orig.len() - n,
        yaml_renaming(orig, fields, s, n).1 == yaml_renamed(orig, fields, s).take(n as int),
    decreases n,
{
    broadcast use vstd::seq_lib::group_to_multiset_ensures;
    if n == 0 {
        assert(orig.skip(0) == orig);
        assert(yaml_renamed(orig, fields, s).take(0) =~= Seq::<(Seq<char>, V)>::empty());
    } else {
        lemma_yaml_renaming_all(orig, fields, s, (n - 1) as nat);
        let prev = yaml_renaming(orig, fields, s, (n - 1) as nat);
        let m = prev.0;
        let e = orig[n - 1];
        assert(e.0.direct is Some && e.0.text == e.0.direct);
        let t = e.0.direct.unwrap();
        assert(first_named(fields, orig[n - 1].0.direct.unwrap()) is Some);
        assert(renamed_key(fields, s, orig[n - 1].0.direct.unwrap()) != orig[n - 1].0.direct.unwrap());
        let f = first_named(fields, t).unwrap();
        let nk = field_key(fields[f], s);
        assert(nk == renamed_key(fields, s, t));
        let sk = orig.skip(n - 1);
        assert(sk[0] == e);
        assert(sk.contains(e));
        assert(sk.to_multiset().count(e) > 0);
        assert(m.contains(e));
        let w0 = choose|w: int| 0 <= w < m.len() && m[w] == e;
        lemma_min_direct(m, t, w0);
        let i = direct_index(m, t).unwrap();
        assert(direct_index(m, t) is Some);
        assert(0 <= i < m.len() && m[i].0.direct == Some(t));
        assert(m.contains(m[i]));
        assert(m.to_multiset().count(m[i]) > 0);
        assert(sk.contains(m[i]));
        let j = choose|j: int| 0 <= j < sk.len() && sk[j] == m[i];
        assert(sk[j] == orig[j + n - 1]);
        if j != 0 {
            assert(orig[n - 1].0.direct != orig[j + n - 1].0.direct);
        }
        assert(m[i] == e);
        lemma_swap_removed_multiset(m, i);
        assert(sk.remove(0) =~= orig.skip(n as int));
        assert(sk.to_multiset().remove(sk[0]) == orig.skip(n as int).to_multiset());
        let rn = yaml_renamed(orig, fields, s);
        assert(rn[n - 1] == (nk, e.1));
        assert(rn.take(n as int) =~= rn.take(n - 1).push(rn[n - 1]));
        assert(yaml_renaming(orig, fields, s, n) == yaml_rename_key(m, prev.1, prev.2, orig[n - 1].0.text, fields, s));
    }
}

proof fn lemma_put_back_fresh<V>(w: Seq<(Seq<char>, V)>)
    requires
        keys_distinct(w),
    ensures
        put_back(Seq::<(KeyView, V)>::empty(), w) == w.map_values(|e: (Seq<char>, V)| (string_key(e.0), e.1)),
    decreases w.len(),
{
    if w.len() > 0 {
        let d = w.drop_last();
        assert forall|a: int, b: int| 0 <= a < b < d.len() implies #[trigger] d[a].0 != #[trigger] d[b].0 by {
            assert(d[a] == w[a] && d[b] == w[b]);
        }
        lemma_put_back_fresh(d);
        let r = put_back(Seq::<(KeyView, V)>::empty(), d);
        let k = w.last().0;
        if exists|i: int| 0 <= i < r.len() && #[trigger] r[i].0.plain == Some(k) {
            let i = choose|i: int| 0 <= i < r.len() && #[trigger] r[i].0.plain == Some(k);
            assert(r[i].0.plain == Some(d[i].0));
            assert(w[i].0 != w[w.len() - 1].0);
        }
        assert(plain_index(r, k) is None);
        assert(w.map_values(|e: (Seq<char>, V)| (string_key(e.0), e.1))
            =~= d.map_values(|e: (Seq<char>, V)| (string_key(e.0), e.1)).push((string_key(k), w.last().1)));
    }
}

proof fn lemma_texts_of_string_keys<V>(w: Seq<(Seq<char>, V)>, n: nat)
    requires
        n <= w.len(),
    ensures
        texts_upto(w.map_values(|e: (Seq<char>, V)| (string_key(e.0), e.1)), n) == w.take(n as int),
    decreases n,
{
    if n == 0 {
        assert(w.take(0) =~= Seq::<(Seq<char>, V)>::empty());
    } else {
        lemma_texts_of_string_keys(w, (n - 1) as nat);
        assert(w.take(n as int) =~= w.take(n - 1).push(w[n - 1]));
    }
}

/// Under the order `Declaration`, when every key of a mapping is a string
/// (each text once) that names a field and is renamed to another key, with no
/// two renamed keys alike, the mapping is written under the renamed keys, in
/// the mapping's order, each with its value.
pub proof fn lemma_yaml_renamed_in_mapping_order<V>(
    orig: Seq<(KeyView, V)>,
    fields: Seq<FieldView>,
    s: NamingStrategy,
    r: Seq<(Seq<char>, V)>,
)
    requires
        forall|i: int| 0 <= i < orig.len() ==> (#[trigger] orig[i].0).direct is Some && orig[i].0.text == orig[i].0.direct,
        forall|i: int, j: int| 0 <= i < j < orig.len() ==> (#[trigger] orig[i].0).direct != (#[trigger] orig[j].0).direct,
        forall|i: int| 0 <= i < orig.len() ==> (#[trigger] first_named(fields, orig[i].0.direct.unwrap())) is Some,
        forall|i: int| 0 <= i < orig.len() ==> #[trigger] renamed_key(fields, s, orig[i].0.direct.unwrap()) != orig[i].0.direct.unwrap(),
        keys_distinct(yaml_renamed(orig, fields, s)),
        yaml_arranged(orig, fields, s, FieldOrder::Declaration, r),
    ensures
        r == yaml_renamed(orig, fields, s),
{
    lemma_yaml_renaming_all(orig, fields, s, orig.len());
    let (m, waiting, b) = yaml_renaming(orig, fields, s, orig.len());
    let rn = yaml_renamed(orig, fields, s);
    assert(rn.take(orig.len() as int) =~= rn);
    assert(m =~= Seq::<(KeyView, V)>::empty());
    lemma_put_back_fresh(rn);
    let p = put_back(m, waiting);
    lemma_texts_of_string_keys(rn, rn.len());
    assert(rn.take(rn.len() as int) =~= rn);
    crate::merge::lemma_insert_all_distinct(rn);
}

/// Whether the optional text `o` is `t`.
fn is_text(o: &Option<String>, t: &str) -> (b: bool)
    ensures
        b == (opt_view(*o) == Some(t@)),
{
    match o {
        Some(x) => same_text(x.as_str(), t),
        None => false,
    }
}

/// The first entry of `m` whose key is a string with text `t` (see
/// [`direct_index`]).
fn find_direct<V>(m: &Vec<(KeyInfo, V)>, t: &str) -> (r: Option<usize>)
    ensures
        match r {
            Some(i) => direct_index(kv(m@), t@) == Some(i as int) && i < m@.len(),
            None => direct_index(kv(m@), t@) is None,
        },
{
    let ghost e = kv(m@);
    let mut i: usize = 0;
    while i < m.len()
        invariant
            i <= m@.len(),
            e == kv(m@),
            forall|j: int| 0 <= j < i ==> #[trigger] e[j].0.direct != Some(t@),
        decreases m.len() - i,
    {
        if is_text(&m[i].0.direct, t) {
            proof {
                assert(e[i as int].0.direct == Some(t@));
                let w = choose|w: int|
                    0 <= w < e.len() && #[trigger] e[w].0.direct == Some(t@) && forall|j: int|
                        0 <= j < w ==> #[trigger] e[j].0.direct != Some(t@);
                if w > i {
                    assert(e[i as int].0.direct != Some(t@));
                }
            }
            return Some(i);
        }
        assert(e[i as int].0.direct != Some(t@));
        i = i + 1;
    }
    None
}

/// The first entry of `m` whose key is the string `t` without anchor (see
/// [`plain_index`]).
fn find_plain<V>(m: &Vec<(KeyInfo, V)>, t: &str) -> (r: Option<usize>)
    ensures
        match r {
            Some(i) => plain_index(kv(m@), t@) == Some(i as int) && i < m@.len(),
            None => plain_index(kv(m@), t@) is None,
        },
{
    let ghost e = kv(m@);
    let mut i: usize = 0;
    while i < m.len()
        invariant
            i <= m@.len(),
            e == kv(m@),
            forall|j: int| 0 <= j < i ==> #[trigger] e[j].0.plain != Some(t@),
        decreases m.len() - i,
    {
        if is_text(&m[i].0.plain, t) {
            proof {
                assert(e[i as int].0.plain == Some(t@));
                let w = choose|w: int|
                    0 <= w < e.len() && #[trigger] e[w].0.plain == Some(t@) && forall|j: int|
                        0 <= j < w ==> #[trigger] e[j].0.plain != Some(t@);
                if w > i {
                    assert(e[i as int].0.plain != Some(t@));
                }
            }
            return Some(i);
        }
        assert(e[i as int].0.plain != Some(t@));
        i = i + 1;
    }
    None
}

/// The texts of the keys of `m`, in order.
fn key_texts<V>(m: &Vec<(KeyInfo, V)>) -> (r: Vec<Option<String>>)
    ensures
        r@.len() == m@.len(),
        forall|j: int| 0 <= j < r@.len() ==> opt_view(#[trigger] r@[j]) == kv(m@)[j].0.text,
{
    let mut r: Vec<Option<String>> = Vec::new();
    let mut i: usize = 0;
    while i < m.len()
        invariant
            i <= m@.len(),
            r@.len() == i,
            forall|j: int| 0 <= j < i ==> opt_view(#[trigger] r@[j]) == kv(m@)[j].0.text,
        decreases m.len() - i,
    {
        let t = match &m[i].0.text {
            Some(x) => Some(x.clone()),
            None => None,
        };
        r.push(t);
        i = i + 1;
    }
    r
}

/// One renaming step (see [`yaml_rename_key`]).
fn yaml_rename_step<V>(
    map: &mut Vec<(KeyInfo, V)>,
    waiting: &mut Vec<(String, V)>,
    bindings: &mut Vec<(String, usize)>,
    text: &Option<String>,
    metadata: &ConfigMetadata,
    s: NamingStrategy,
)
    requires
        keys_distinct(ev(old(bindings)@)),
        forall|j: int| 0 <= j < old(bindings)@.len() ==> #[trigger] old(bindings)@[j].1 < metadata@.fields.len(),
    ensures
        (kv(final(map)@), ev(final(waiting)@), ev(final(bindings)@)) == yaml_rename_key(
            kv(old(map)@),
            ev(old(waiting)@),
            ev(old(bindings)@),
            opt_view(*text),
            metadata@.fields,
            s,
        ),
        keys_distinct(ev(final(bindings)@)),
        forall|j: int| 0 <= j < final(bindings)@.len() ==> #[trigger] final(bindings)@[j].1 < metadata@.fields.len(),
{
    match text {
        Some(t) => match find_field_named(metadata, t.as_str()) {
            Some(f) => {
                let nk = key_of_field(&metadata.fields[f], s);
                assert(metadata@.fields[f as int] == metadata.fields@[f as int]@);
                let ghost bb = bindings@;
                let ghost nkv = nk@;
                insert_entry(bindings, nk.clone(), f);
                proof {
                    lemma_bindings_bounded(ev(bb), nkv, f, metadata@.fields.len() as int);
                    assert forall|j: int| 0 <= j < bindings@.len() implies #[trigger] bindings@[j].1 < metadata@.fields.len() by {
                        assert(ev(bindings@)[j].1 == bindings@[j].1);
                    }
                }
                if !same_text(nk.as_str(), t.as_str()) {
                    match find_direct(map, t.as_str()) {
                        Some(at) => {
                            let ghost mb = kv(map@);
                            let ghost wb = ev(waiting@);
                            let (_, value) = map.swap_remove(at);
                            let ghost vv = value;
                            assert(vv == mb[at as int].1);
                            assert(kv(map@) =~= swap_removed(mb, at as int));
                            waiting.push((nk, value));
                            assert(ev(waiting@) =~= wb.push((nkv, vv)));
                        },
                        None => {},
                    }
                }
            },
            None => {},
        },
        None => {},
    }
}

/// `map` with the entries `waiting` put back (see [`put_back`]).
fn put_back_all<V>(map: Vec<(KeyInfo, V)>, waiting: Vec<(String, V)>) -> (r: Vec<(KeyInfo, V)>)
    ensures
        kv(r@) == put_back(kv(map@), ev(waiting@)),
{
    let ghost renamed_map = kv(map@);
    let ghost waited = ev(waiting@);
    let mut map = map;
    let mut rest = waiting;
    let ghost mut k: int = 0;
    assert(waited.take(0) =~= seq![]);
    assert(waited.skip(0) == waited);
    while rest.len() > 0
        invariant
            0 <= k <= waited.len(),
            kv(map@) == put_back(renamed_map, waited.take(k)),
            ev(rest@) == waited.skip(k),
        decreases rest.len(),
    {
        assert(ev(rest@).len() == rest@.len());
        assert(k < waited.len());
        assert(ev(rest@)[0] == (rest@[0].0@, rest@[0].1));
        let (key, value) = rest.remove(0);
        assert(waited.skip(k)[0] == waited[k]);
        assert(waited.take(k + 1).drop_last() == waited.take(k));
        assert(waited.take(k + 1).last() == waited[k]);
        assert(waited.skip(k).remove(0) == waited.skip(k + 1));
        let ghost mb = kv(map@);
        let ghost kk = key@;
        let ghost vv = value;
        let at = find_plain(&map, key.as_str());
        let info = KeyInfo { text: Some(key.clone()), direct: Some(key.clone()), plain: Some(key) };
        assert(info@ == string_key(kk));
        match at {
            Some(at) => {
                map.set(at, (info, value));
                assert(kv(map@) =~= mb.update(at as int, (string_key(kk), vv)));
            },
            None => {
                map.push((info, value));
                assert(kv(map@) =~= mb.push((string_key(kk), vv)));
            },
        }
        proof {
            k = k + 1;
        }
    }
    assert(waited.take(k) == waited);
    map
}

/// The entries of `map` whose keys have a text, each under its text (see
/// [`texts_upto`]).
fn take_texts<V>(map: Vec<(KeyInfo, V)>) -> (r: Vec<(String, V)>)
    ensures
        ev(r@) == texts_upto(kv(map@), map@.len()),
{
    let ghost p = kv(map@);
    let mut texts_only: Vec<(String, V)> = Vec::new();
    let mut src = map;
    let ghost mut n: int = 0;
    assert(ev(texts_only@) =~= seq![]);
    assert(p.skip(0) == p);
    while src.len() > 0
        invariant
            0 <= n <= p.len(),
            ev(texts_only@) == texts_upto(p, n as nat),
            kv(src@) == p.skip(n),
        decreases src.len(),
    {
        assert(kv(src@).len() == src@.len());
        assert(n < p.len());
        assert(kv(src@)[0] == (src@[0].0@, src@[0].1));
        let (key, value) = src.remove(0);
        assert(p.skip(n)[0] == p[n]);
        assert(p.skip(n).remove(0) == p.skip(n + 1));
        match key.text {
            Some(t) => {
                let ghost tb = ev(texts_only@);
                let ghost tv = t@;
                let ghost vv = value;
                texts_only.push((t, value));
                assert(ev(texts_only@) =~= tb.push((tv, vv)));
            },
            None => {},
        }
        proof {
            n = n + 1;
        }
    }
    texts_only
}

/// A fresh map with each of `entries` bound in turn (see [`insert_all`]).
pub fn insert_in_order<V>(entries: Vec<(String, V)>) -> (r: Vec<(String, V)>)
    ensures
        ev(r@) == insert_all(seq![], ev(entries@)),
        keys_distinct(ev(r@)),
{
    let ghost sv = ev(entries@);
    let mut out: Vec<(String, V)> = Vec::new();
    let mut src = entries;
    let ghost mut n: int = 0;
    assert(ev(out@) =~= seq![]);
    assert(sv.take(0) =~= seq![]);
    assert(sv.skip(0) == sv);
    while src.len() > 0
        invariant
            0 <= n <= sv.len(),
            keys_distinct(ev(out@)),
            ev(out@) == insert_all(seq![], sv.take(n)),
            ev(src@) == sv.skip(n),
        decreases src.len(),
    {
        assert(ev(src@).len() == src@.len());
        assert(n < sv.len());
        assert(ev(src@)[0] == (src@[0].0@, src@[0].1));
        let e = src.remove(0);
        assert(sv.skip(n)[0] == sv[n]);
        assert(sv.take(n + 1).drop_last() == sv.take(n));
        assert(sv.take(n + 1).last() == sv[n]);
        assert(sv.skip(n).remove(0) == sv.skip(n + 1));
        insert_entry(&mut out, e.0, e.1);
        proof {
            n = n + 1;
        }
    }
    assert(sv.take(n) == sv);
    out
}

/// Renames and orders the entries of a YAML mapping for writing, as described
/// by [`yaml_arranged`], and binds each renamed key to its field.
#[verifier::rlimit(30)]
pub fn yaml_arrange<V>(m: Vec<(KeyInfo, V)>, metadata: &ConfigMetadata, options: &ConfigOptions) -> (r: (
    Vec<(String, V)>,
    Vec<(String, usize)>,
))
    ensures
        yaml_arranged(kv(m@), metadata@.fields, options.naming_strategy, options.field_order, ev(r.0@)),
        ev(r.1@) == yaml_renaming(kv(m@), metadata@.fields, options.naming_strategy, m@.len()).2,
        forall|j: int| 0 <= j < r.1@.len() ==> #[trigger] r.1@[j].1 < metadata@.fields.len(),
{
    let ghost orig = kv(m@);
    let s = options.naming_strategy;
    let texts = key_texts(&m);
    let mut map = m;
    let mut waiting: Vec<(String, V)> = Vec::new();
    let mut bindings: Vec<(String, usize)> = Vec::new();
    let mut i: usize = 0;
    assert(ev(waiting@) =~= seq![]);
    assert(ev(bindings@) =~= seq![]);
    while i < texts.len()
        invariant
            i <= texts@.len(),
            texts@.len() == orig.len(),
            forall|j: int| 0 <= j < texts@.len() ==> opt_view(#[trigger] texts@[j]) == orig[j].0.text,
            keys_distinct(ev(bindings@)),
            (kv(map@), ev(waiting@), ev(bindings@)) == yaml_renaming(orig, metadata@.fields, s, i as nat),
            forall|j: int| 0 <= j < bindings@.len() ==> #[trigger] bindings@[j].1 < metadata@.fields.len(),
        decreases texts.len() - i,
    {
        assert(opt_view(texts@[i as int]) == orig[i as int].0.text);
        yaml_rename_step(&mut map, &mut waiting, &mut bindings, &texts[i], metadata, s);
        i = i + 1;
    }
    let put = put_back_all(map, waiting);
    let texts_only = take_texts(put);
    let sorted = sort_entries(texts_only, options.field_order);
    let out = insert_in_order(sorted);
    (out, bindings)
}


/// `serde_yaml_bw::Value`, carried as it is.
#[verifier::external_type_specification]
#[verifier::external_body]
pub struct ExYamlValue(serde_yaml_bw::Value);

/// The anchor and the entries of the YAML value `v` when it is a mapping, in
/// the mapping's order; `None` when it is not a mapping.
pub uninterp spec fn yaml_mapping(v: serde_yaml_bw::Value) -> Option<(Option<Seq<char>>, Seq<(serde_yaml_bw::Value, serde_yaml_bw::Value)>)>;

/// What `Value::as_str` gives for the YAML value `k`, and the text and anchor
/// of `k` when it is a string (`Value::String`).
pub uninterp spec fn yaml_key_parts(k: serde_yaml_bw::Value) -> (Option<Seq<char>>, Option<(Seq<char>, Option<Seq<char>>)>);

/// What the library reads of the YAML mapping key `k` (see [`KeyInfo`]).
pub open spec fn yaml_key_view(k: serde_yaml_bw::Value) -> KeyView {
    let (text, string) = yaml_key_parts(k);
    KeyView {
        text,
        direct: match string {
            Some((t, _)) => Some(t),
            None => None,
        },
        plain: match string {
            Some((t, None)) => Some(t),
            _ => None,
        },
    }
}

/// Whether the YAML values `a` and `b` are equal (`PartialEq`).
pub uninterp spec fn yaml_key_eq(a: serde_yaml_bw::Value, b: serde_yaml_bw::Value) -> bool;

/// The text that `serde_yaml_bw::to_string` writes for `v`; `None` when it
/// fails.
pub uninterp spec fn yaml_text(v: serde_yaml_bw::Value) -> Option<Seq<char>>;

/// The texts of the keys of `e`, each with its value, when every key is a
/// string without anchor; `None` otherwise.
pub open spec fn plain_entries(e: Seq<(serde_yaml_bw::Value, serde_yaml_bw::Value)>) -> Option<Seq<(Seq<char>, serde_yaml_bw::Value)>> {
    if forall|i: int| 0 <= i < e.len() ==> (#[trigger] yaml_key_view(e[i].0)).plain is Some {
        Some(e.map_values(|p: (serde_yaml_bw::Value, serde_yaml_bw::Value)| (yaml_key_view(p.0).plain.unwrap(), p.1)))
    } else {
        None
    }
}

/// Whether `m2` is the mapping `m` after `k` is inserted with value `v`: when
/// `k` equals a key of `m`, that entry keeps its key and its place and takes
/// `v`; otherwise `(k, v)` is added at the end.
pub open spec fn yaml_inserted(
    m: Seq<(serde_yaml_bw::Value, serde_yaml_bw::Value)>,
    k: serde_yaml_bw::Value,
    v: serde_yaml_bw::Value,
    m2: Seq<(serde_yaml_bw::Value, serde_yaml_bw::Value)>,
) -> bool {
    if exists|i: int| 0 <= i < m.len() && #[trigger] yaml_key_eq(k, m[i].0) {
        exists|i: int| 0 <= i < m.len() && #[trigger] yaml_key_eq(k, m[i].0) && m2 == m.update(i, (m[i].0, v))
    } else {
        m2 == m.push((k, v))
    }
}

/// Whether `m` is the mapping that inserting each of `entries` in turn into an
/// empty mapping gives (see [`yaml_inserted`]).
pub open spec fn yaml_built(
    entries: Seq<(serde_yaml_bw::Value, serde_yaml_bw::Value)>,
    m: Seq<(serde_yaml_bw::Value, serde_yaml_bw::Value)>,
) -> bool
    decreases entries.len(),
{
    if entries.len() == 0 {
        m.len() == 0
    } else {
        exists|m0: Seq<(serde_yaml_bw::Value, serde_yaml_bw::Value)>|
            yaml_built(entries.drop_last(), m0) && #[trigger] yaml_inserted(m0, entries.last().0, entries.last().1, m)
    }
}

/// When `v` is a mapping (`Value::Mapping`), its anchor and its entries in the
/// mapping's order; `v` itself otherwise.
#[verifier::external_body]
pub(crate) fn yaml_mapping_parts(v: serde_yaml_bw::Value) -> (r: Result<
    (Option<String>, Vec<(serde_yaml_bw::Value, serde_yaml_bw::Value)>),
    serde_yaml_bw::Value,
>)
    ensures
        match r {
            Ok((a, e)) => yaml_mapping(v) == Some((opt_view(a), e@)),
            Err(w) => yaml_mapping(v) is None && w == v,
        },
{
    match v {
        serde_yaml_bw::Value::Mapping(m) => Ok((m.anchor.clone(), m.into_iter().collect())),
        other => Err(other),
    }
}

/// `Value::as_str` of the YAML value `k`, and the text and anchor of `k` when
/// it is a string (`Value::String`).
#[verifier::external_body]
fn yaml_key_parts_of(k: &serde_yaml_bw::Value) -> (r: (Option<String>, Option<(String, Option<String>)>))
    ensures
        (opt_view(r.0), match r.1 {
            Some((t, a)) => Some((t@, opt_view(a))),
            None => None,
        }) == yaml_key_parts(*k),
{
    let text = k.as_str().map(|t| t.to_string());
    let string = match k {
        serde_yaml_bw::Value::String(t, a) => Some((t.clone(), a.clone())),
        _ => None,
    };
    (text, string)
}

/// What the library reads of the mapping key `k` (see [`KeyInfo`]).
pub fn yaml_key_info(k: &serde_yaml_bw::Value) -> (r: KeyInfo)
    ensures
        r@ == yaml_key_view(*k),
{
    let (text, string) = yaml_key_parts_of(k);
    match string {
        Some((t, None)) => KeyInfo { text, direct: Some(t.clone()), plain: Some(t) },
        Some((t, Some(_))) => KeyInfo { text, direct: Some(t), plain: None },
        None => KeyInfo { text, direct: None, plain: None },
    }
}

/// Whether `a == b` for YAML values (`PartialEq`).
#[verifier::external_body]
pub(crate) fn same_yaml_key(a: &serde_yaml_bw::Value, b: &serde_yaml_bw::Value) -> (r: bool)
    ensures
        r == yaml_key_eq(*a, *b),
{
    a == b
}

/// A `Value::Mapping` with anchor `anchor`, built by inserting each of
/// `entries` in order (`FromIterator`), each key as a string without anchor: a
/// key met again keeps its place and takes the later value.
#[verifier::external_body]
pub(crate) fn yaml_mapping_from(anchor: Option<String>, entries: Vec<(String, serde_yaml_bw::Value)>) -> (r: serde_yaml_bw::Value)
    ensures
        yaml_mapping(r) is Some,
        yaml_mapping(r).unwrap().0 == opt_view(anchor),
        plain_entries(yaml_mapping(r).unwrap().1) == Some(insert_all(seq![], ev(entries@))),
{
    let mut m: serde_yaml_bw::Mapping = entries
        .into_iter()
        .map(|(k, v)| (serde_yaml_bw::Value::String(k, None), v))
        .collect();
    m.anchor = anchor;
    serde_yaml_bw::Value::Mapping(m)
}

/// `serde_yaml_bw::Mapping`, carried as it is.
#[verifier::external_type_specification]
#[verifier::external_body]
pub struct ExYamlMapping(serde_yaml_bw::Mapping);

/// The entries of the YAML mapping `m`, in order.
pub uninterp spec fn mapping_entries(m: serde_yaml_bw::Mapping) -> Seq<(serde_yaml_bw::Value, serde_yaml_bw::Value)>;

/// The anchor of the YAML mapping `m`.
pub uninterp spec fn mapping_anchor(m: serde_yaml_bw::Mapping) -> Option<Seq<char>>;

/// `Mapping::new()`: no entries, no anchor.
#[verifier::external_body]
pub(crate) fn new_mapping() -> (r: serde_yaml_bw::Mapping)
    ensures
        mapping_entries(r).len() == 0,
        mapping_anchor(r) is None,
{
    serde_yaml_bw::Mapping::new()
}

/// `Mapping::insert`: an entry whose key `k` equals keeps its key and its place
/// and takes `v`; otherwise `(k, v)` is added at the end (see
/// [`yaml_inserted`]). The anchor stays.
#[verifier::external_body]
pub(crate) fn mapping_insert(m: &mut serde_yaml_bw::Mapping, k: serde_yaml_bw::Value, v: serde_yaml_bw::Value)
    ensures
        yaml_inserted(mapping_entries(*old(m)), k, v, mapping_entries(*final(m))),
        mapping_anchor(*final(m)) == mapping_anchor(*old(m)),
{
    m.insert(k, v);
}

/// `Value::Mapping(m)`.
#[verifier::external_body]
pub(crate) fn mapping_value(m: serde_yaml_bw::Mapping) -> (r: serde_yaml_bw::Value)
    ensures
        yaml_mapping(r) == Some((mapping_anchor(m), mapping_entries(m))),
{
    serde_yaml_bw::Value::Mapping(m)
}

/// A mapping without anchor holding `entries` inserted in order into a new
/// mapping (see [`yaml_built`]).
pub fn mapping_of(entries: Vec<(serde_yaml_bw::Value, serde_yaml_bw::Value)>) -> (r: serde_yaml_bw::Value)
    ensures
        yaml_mapping(r) is Some,
        yaml_mapping(r).unwrap().0 is None,
        yaml_built(entries@, yaml_mapping(r).unwrap().1),
{
    let ghost orig = entries@;
    let mut m = new_mapping();
    let mut src = entries;
    let ghost mut n: int = 0;
    assert(orig.skip(0) == orig);
    assert(orig.take(0).len() == 0);
    while src.len() > 0
        invariant
            0 <= n <= orig.len(),
            src@ == orig.skip(n),
            yaml_built(orig.take(n), mapping_entries(m)),
            mapping_anchor(m) is None,
        decreases src.len(),
    {
        let ghost before = mapping_entries(m);
        let (k, v) = src.remove(0);
        assert(orig.skip(n)[0] == orig[n]);
        assert(orig.skip(n).remove(0) == orig.skip(n + 1));
        mapping_insert(&mut m, k, v);
        proof {
            assert(orig.take(n + 1).drop_last() == orig.take(n));
            assert(orig.take(n + 1).last() == orig[n]);
            assert(yaml_inserted(before, orig[n].0, orig[n].1, mapping_entries(m)));
            n = n + 1;
        }
    }
    assert(orig.take(n) == orig);
    mapping_value(m)
}

/// `serde_yaml_bw::to_string` of a value.
#[verifier::external_body]
pub(crate) fn yaml_to_text(v: &serde_yaml_bw::Value) -> (r: Result<String, serde_yaml_bw::Error>)
    ensures
        match r {
            Ok(s) => yaml_text(*v) == Some(s@),
            Err(_) => yaml_text(*v) is None,
        },
{
    serde_yaml_bw::to_string(v)
}

/// Whether `serde_yaml_bw::from_str` reads the text `content` as a YAML value.
pub uninterp spec fn yaml_parses(content: Seq<char>) -> bool;

/// Whether `v` holds what `serde_yaml_bw::from_str` reads from the text
/// `content`.
pub uninterp spec fn yaml_read_as(content: Seq<char>, v: serde_yaml_bw::Value) -> bool;

/// `serde_yaml_bw::from_str` into a `Value`: succeeds exactly when the text
/// parses, with the value read from it.
#[verifier::external_body]
pub(crate) fn parse_yaml(content: &str) -> (r: Result<serde_yaml_bw::Value, serde_yaml_bw::Error>)
    ensures
        match r {
            Ok(v) => yaml_parses(content@) && yaml_read_as(content@, v),
            Err(_) => !yaml_parses(content@),
        },
{
    serde_yaml_bw::from_str(content)
}

/// The entries `e` with each key taken by what the library reads of it.
pub open spec fn key_views<V>(e: Seq<(serde_yaml_bw::Value, V)>) -> Seq<(KeyView, V)> {
    e.map_values(|x: (serde_yaml_bw::Value, V)| (yaml_key_view(x.0), x.1))
}

/// The keys of `raw` read by [`yaml_key_info`], each with its value.
fn read_keys(raw: Vec<(serde_yaml_bw::Value, serde_yaml_bw::Value)>) -> (r: Vec<(KeyInfo, serde_yaml_bw::Value)>)
    ensures
        kv(r@) == key_views(raw@),
{
    let ghost orig = raw@;
    let mut r: Vec<(KeyInfo, serde_yaml_bw::Value)> = Vec::new();
    let mut src = raw;
    while src.len() > 0
        invariant
            r@.len() + src@.len() == orig.len(),
            src@ == orig.skip(r@.len() as int),
            kv(r@) == key_views(orig).take(r@.len() as int),
        decreases src.len(),
    {
        let ghost n = r@.len() as int;
        let (k, v) = src.remove(0);
        assert(orig.skip(n)[0] == orig[n]);
        assert(orig.skip(n).remove(0) == orig.skip(n + 1));
        let info = yaml_key_info(&k);
        let ghost rb = kv(r@);
        let ghost iv = info@;
        r.push((info, v));
        assert(kv(r@) =~= rb.push((iv, v)));
        assert(key_views(orig).take(n + 1) =~= key_views(orig).take(n).push(key_views(orig)[n]));
    }
    assert(key_views(orig).take(orig.len() as int) =~= key_views(orig));
    r
}

/// What a YAML configuration is printed from: when `value` is a mapping, a
/// mapping `w` with its anchor, holding its entries renamed and ordered for
/// writing (see [`yaml_arranged`]) under keys that are strings without
/// anchor, with the comments `cm` of the renamed keys; otherwise `value`
/// itself and no comments.
pub open spec fn yaml_layout(
    value: serde_yaml_bw::Value,
    md: MetadataView,
    options: ConfigOptions,
    w: serde_yaml_bw::Value,
    cm: Seq<(Seq<char>, Seq<char>)>,
) -> bool {
    match yaml_mapping(value) {
        Some((a, es)) => {
            &&& exists|arr: Seq<(Seq<char>, serde_yaml_bw::Value)>|
                #[trigger] yaml_arranged(key_views(es), md.fields, options.naming_strategy, options.field_order, arr)
                && yaml_mapping(w) is Some && yaml_mapping(w).unwrap().0 == a
                && plain_entries(yaml_mapping(w).unwrap().1) == Some(insert_all(seq![], arr))
            &&& cm == comment_entries(crate::toml_format::hash_mark(), bound_fields(
                yaml_renaming(key_views(es), md.fields, options.naming_strategy, es.len()).2,
                md.fields,
            ))
        },
        None => w == value && cm.len() == 0,
    }
}

/// Writes a configuration, given as the YAML value it serializes to, as a YAML
/// document: the value laid out for writing (see [`yaml_layout`]), printed
/// below the header, with each renamed key's comment as `# ` lines above the
/// first line that mentions it. Only printing can fail.
pub fn to_string(value: serde_yaml_bw::Value, metadata: &ConfigMetadata, options: &ConfigOptions) -> (r: Result<String, ConfigError>)
    ensures
        exists|w: serde_yaml_bw::Value, cm: Seq<(Seq<char>, Seq<char>)>|
            #[trigger] yaml_layout(value, metadata@, *options, w, cm) && match r {
                Ok(s) => yaml_text(w) matches Some(t)
                    && s@ == headed_document(Format::Yaml, t, header_text(crate::toml_format::hash_mark(), metadata@.struct_comments), cm),
                Err(e) => e is Yaml && yaml_text(w) is None,
            },
{
    let ghost orig = value;
    let ghost mut arr: Seq<(Seq<char>, serde_yaml_bw::Value)> = seq![];
    let (value, bindings) = match yaml_mapping_parts(value) {
        Ok((anchor, raw)) => {
            let ghost es = raw@;
            let entries = read_keys(raw);
            let (arranged, b) = yaml_arrange(entries, metadata, options);
            proof {
                arr = ev(arranged@);
                assert(yaml_arranged(key_views(es), metadata@.fields, options.naming_strategy, options.field_order, arr));
            }
            (yaml_mapping_from(anchor, arranged), b)
        },
        Err(v) => (v, Vec::new()),
    };
    let key_to_field = bind_fields(metadata, &bindings);
    proof {
        reveal_strlit("#");
        assert("#"@ =~= crate::toml_format::hash_mark());
        if bindings@.len() == 0 {
            assert(binding_views(key_to_field@) =~= seq![]);
        }
    }
    let comments = build_comment_map(&key_to_field, "#");
    assert(yaml_layout(orig, metadata@, *options, value, comments@));
    let text = match yaml_to_text(&value) {
        Ok(t) => t,
        Err(e) => return Err(ConfigError::Yaml(e)),
    };
    let header = format_header(metadata, "#");
    let rendered = match &header {
        Some(h) => render_headed(Format::Yaml, text.as_str(), Some(h.as_str()), &comments),
        None => render_headed(Format::Yaml, text.as_str(), None, &comments),
    };
    Ok(rendered)
}

} // verus!
