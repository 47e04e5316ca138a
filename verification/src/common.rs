//! Comments and headers: which comment lines a configuration carries, and the
//! text that each becomes in a rendered file.

use vstd::prelude::*;

use crate::metadata::{strings_view, ConfigMetadata, FieldMetadata};
use crate::entries::{assoc_insert, has_key, keys_distinct, lookup};
use crate::text::{same_text, lines, split_lines, string_from_chars, trim_end, trim_end_chars};

verus! {

/// The contents of each character vector of `v`.
pub open spec fn char_views(v: Seq<Vec<char>>) -> Seq<Seq<char>> {
    v.map_values(|x: Vec<char>| x@)
}

/// The first `n` of the lines `ls`, trimmed at the end, the empty ones left out.
pub open spec fn kept_upto(ls: Seq<Seq<char>>, n: nat) -> Seq<Seq<char>>
    decreases n,
{
    if n == 0 {
        seq![]
    } else if trim_end(ls[n - 1]).len() > 0 {
        kept_upto(ls, (n - 1) as nat).push(trim_end(ls[n - 1]))
    } else {
        kept_upto(ls, (n - 1) as nat)
    }
}

/// The lines of `text`, trimmed at the end, the empty ones left out.
pub open spec fn kept_lines(text: Seq<char>) -> Seq<Seq<char>> {
    kept_upto(lines(text), lines(text).len())
}

/// The kept lines of each of `texts`, one after the other.
pub open spec fn comment_lines(texts: Seq<Seq<char>>) -> Seq<Seq<char>>
    decreases texts.len(),
{
    if texts.len() == 0 {
        seq![]
    } else {
        comment_lines(texts.drop_last()) + kept_lines(texts.last())
    }
}

/// `line` as a comment: `prefix`, a space, then the line.
pub open spec fn prefixed(prefix: Seq<char>, line: Seq<char>) -> Seq<char> {
    prefix + seq![' '] + line
}

/// Each of `ls` as a comment with `prefix`.
pub open spec fn all_prefixed(prefix: Seq<char>, ls: Seq<Seq<char>>) -> Seq<Seq<char>> {
    ls.map_values(|l: Seq<char>| prefixed(prefix, l))
}

/// The lines `ls` joined by line feeds.
pub open spec fn joined(ls: Seq<Seq<char>>) -> Seq<char>
    decreases ls.len(),
{
    if ls.len() == 0 {
        seq![]
    } else if ls.len() == 1 {
        ls[0]
    } else {
        joined(ls.drop_last()) + seq!['\n'] + ls.last()
    }
}

/// The header of a file: the struct comments' kept lines, each as a comment
/// with `prefix`, each ended by a line feed; none when no line is kept.
pub open spec fn header_text(prefix: Seq<char>, struct_comments: Seq<Seq<char>>) -> Option<Seq<char>> {
    let ls = comment_lines(struct_comments);
    if ls.len() == 0 {
        None
    } else {
        Some(joined(all_prefixed(prefix, ls)) + seq!['\n'])
    }
}

/// The kept lines of the texts `texts`.
fn comment_lines_of(texts: &Vec<String>) -> (r: Vec<Vec<char>>)
    ensures
        char_views(r@) == comment_lines(strings_view(texts@)),
{
    let mut r: Vec<Vec<char>> = Vec::new();
    let mut t: usize = 0;
    while t < texts.len()
        invariant
            t <= texts.len(),
            char_views(r@) == comment_lines(strings_view(texts@).take(t as int)),
        decreases texts.len() - t,
    {
        let ls = split_lines(texts[t].as_str());
        let ghost before = char_views(r@);
        let mut i: usize = 0;
        while i < ls.len()
            invariant
                i <= ls.len(),
                ls@.len() == lines(texts@[t as int]@).len(),
                forall|j: int| 0 <= j < ls@.len() ==> #[trigger] ls@[j]@ == lines(texts@[t as int]@)[j],
                char_views(r@) == before + kept_upto(lines(texts@[t as int]@), i as nat),
            decreases ls.len() - i,
        {
            let trimmed = trim_end_chars(&ls[i]);
            if trimmed.len() > 0 {
                let ghost old_r = r@;
                let ghost tv = trimmed@;
                r.push(trimmed);
                assert(char_views(r@) =~= char_views(old_r).push(tv));
                assert(char_views(r@) == before + kept_upto(lines(texts@[t as int]@), (i + 1) as nat));
            }
            i = i + 1;
        }
        proof {
            let s = strings_view(texts@);
            assert(s.take(t + 1).drop_last() == s.take(t as int));
            assert(s.take(t + 1).last() == texts@[t as int]@);
        }
        t = t + 1;
    }
    assert(strings_view(texts@).take(texts.len() as int) == strings_view(texts@));
    r
}

/// The lines `ls` joined by line feeds, each after `prefix` and a space.
fn join_prefixed(prefix: &str, ls: &Vec<Vec<char>>) -> (r: Vec<char>)
    ensures
        r@ == joined(all_prefixed(prefix@, char_views(ls@))),
{
    let p = crate::text::chars_of(prefix);
    let mut r: Vec<char> = Vec::new();
    let mut i: usize = 0;
    while i < ls.len()
        invariant
            i <= ls.len(),
            p@ == prefix@,
            r@ == joined(all_prefixed(prefix@, char_views(ls@)).take(i as int)),
        decreases ls.len() - i,
    {
        let ghost before = r@;
        if i > 0 {
            r.push('\n');
        }
        let mut k: usize = 0;
        while k < p.len()
            invariant
                k <= p.len(),
                p@ == prefix@,
                r@ == before + (if i > 0 { seq!['\n'] } else { seq![] }) + p@.take(k as int),
            decreases p.len() - k,
        {
            r.push(p[k]);
            k = k + 1;
            assert(p@.take(k as int) == p@.take(k - 1) .push(p@[k - 1]));
        }
        r.push(' ');
        let line = &ls[i];
        let mut k: usize = 0;
        let ghost mid = r@;
        while k < line.len()
            invariant
                k <= line.len(),
                line == ls@[i as int],
                r@ == mid + line@.take(k as int),
            decreases line.len() - k,
        {
            r.push(line[k]);
            k = k + 1;
            assert(line@.take(k as int) == line@.take(k - 1).push(line@[k - 1]));
        }
        proof {
            let all = all_prefixed(prefix@, char_views(ls@));
            assert(p@.take(p@.len() as int) == p@);
            assert(line@.take(line@.len() as int) == line@);
            assert(all[i as int] == prefixed(prefix@, ls@[i as int]@));
            assert(all.take(i + 1).drop_last() == all.take(i as int));
            assert(all.take(i + 1).last() == all[i as int]);
            if i == 0 {
                assert(all.take(1) == seq![all[0]]);
                assert(r@ == all[0]);
            }
        }
        i = i + 1;
    }
    assert(all_prefixed(prefix@, char_views(ls@)).take(ls.len() as int) == all_prefixed(prefix@, char_views(ls@)));
    r
}

/// The header of a file written with the comment marker `comment_prefix`: the
/// struct comments of `metadata`, line by line, trimmed at the end, empty lines
/// left out, each after the marker and a space and ended by a line feed.
/// `None` when no line is left.
pub fn format_header(metadata: &ConfigMetadata, comment_prefix: &str) -> (r: Option<String>)
    ensures
        match r {
            Some(s) => header_text(comment_prefix@, metadata@.struct_comments) == Some(s@),
            None => header_text(comment_prefix@, metadata@.struct_comments) is None,
        },
{
    if metadata.struct_comments.len() == 0 {
        assert(strings_view(metadata.struct_comments@) =~= seq![]);
        return None;
    }
    let ls = comment_lines_of(&metadata.struct_comments);
    if ls.len() == 0 {
        return None;
    }
    let mut body = join_prefixed(comment_prefix, &ls);
    body.push('\n');
    Some(string_from_chars(body.as_slice()))
}

/// The comment lines of `field`: each of its comments line by line, trimmed
/// at the end, empty lines left out.
pub fn resolve_field_comments(field: &FieldMetadata) -> (r: Vec<String>)
    ensures
        strings_view(r@) == comment_lines(field@.comments),
{
    let ls = comment_lines_of(&field.comments);
    let mut r: Vec<String> = Vec::new();
    let mut i: usize = 0;
    while i < ls.len()
        invariant
            i <= ls.len(),
            strings_view(r@) == char_views(ls@).take(i as int),
        decreases ls.len() - i,
    {
        let ghost old_r = r@;
        let line = string_from_chars(ls[i].as_slice());
        r.push(line);
        assert(strings_view(r@) =~= strings_view(old_r).push(line@));
        assert(char_views(ls@).take(i + 1) =~= char_views(ls@).take(i as int).push(ls@[i as int]@));
        i = i + 1;
    }
    assert(char_views(ls@).take(ls.len() as int) == char_views(ls@));
    r
}


/// The comment that `field` carries in a file written with `prefix`: its comment
/// lines joined by line feeds, each after the marker and a space; none for a
/// field left out or without comment lines.
pub open spec fn comment_text(prefix: Seq<char>, field: crate::metadata::FieldView) -> Option<Seq<char>> {
    if field.exclude {
        None
    } else {
        let ls = comment_lines(field.comments);
        if ls.len() == 0 {
            None
        } else {
            Some(joined(all_prefixed(prefix, ls)))
        }
    }
}

/// The comments of the keys bound in `kf`, in the order the keys first occur;
/// a key bound twice takes the comment of its last binding.
pub open spec fn comment_entries(prefix: Seq<char>, kf: Seq<(Seq<char>, crate::metadata::FieldView)>) -> Seq<(Seq<char>, Seq<char>)>
    decreases kf.len(),
{
    if kf.len() == 0 {
        seq![]
    } else {
        let m = comment_entries(prefix, kf.drop_last());
        match comment_text(prefix, kf.last().1) {
            Some(c) => assoc_insert(m, kf.last().0, c),
            None => m,
        }
    }
}

/// Keys paired with their comment text, each key once.
pub struct CommentMap {
    entries: Vec<(String, String)>,
}

/// The contents of key/value string pairs.
pub open spec fn pair_views(v: Seq<(String, String)>) -> Seq<(Seq<char>, Seq<char>)> {
    v.map_values(|e: (String, String)| (e.0@, e.1@))
}

impl View for CommentMap {
    type V = Seq<(Seq<char>, Seq<char>)>;

    closed spec fn view(&self) -> Seq<(Seq<char>, Seq<char>)> {
        pair_views(self.entries@)
    }
}

impl CommentMap {
    #[verifier::type_invariant]
    closed spec fn distinct(self) -> bool {
        keys_distinct(pair_views(self.entries@))
    }

    /// The number of keys; no key occurs twice.
    pub fn len(&self) -> (n: usize)
        ensures
            n == self@.len(),
            keys_distinct(self@),
    {
        proof {
            use_type_invariant(self);
        }
        self.entries.len()
    }

    /// The key and comment at position `i`.
    pub fn entry(&self, i: usize) -> (r: (&String, &String))
        requires
            i < self@.len(),
        ensures
            (r.0@, r.1@) == self@[i as int],
    {
        let e = &self.entries[i];
        (&e.0, &e.1)
    }

    /// The comment of `key`, if it has one.
    pub fn get(&self, key: &str) -> (r: Option<&String>)
        ensures
            match r {
                Some(c) => lookup(self@, key@) == Some(c@),
                None => lookup(self@, key@) is None,
            },
    {
        proof {
            use_type_invariant(self);
        }
        let mut i: usize = 0;
        while i < self.entries.len()
            invariant
                i <= self.entries@.len(),
                forall|j: int| 0 <= j < i ==> #[trigger] self@[j].0 != key@,
                self@.len() == self.entries@.len(),
                keys_distinct(self@),
            decreases self.entries.len() - i,
        {
            if same_text(self.entries[i].0.as_str(), key) {
                proof {
                    let m = self@;
                    assert(m[i as int].0 == key@);
                    let w = choose|w: int| 0 <= w < m.len() && #[trigger] m[w].0 == key@;
                    assert(w == i);
                }
                return Some(&self.entries[i].1);
            }
            i = i + 1;
        }
        None
    }
}


/// The contents of key/field bindings.
pub open spec fn binding_views(kf: Seq<(String, &FieldMetadata)>) -> Seq<(Seq<char>, crate::metadata::FieldView)> {
    kf.map_values(|e: (String, &FieldMetadata)| (e.0@, e.1@))
}

/// Binds `key` to `value` in `entries`, in place when `key` is there already.
fn insert_pair(entries: &mut Vec<(String, String)>, key: String, value: String)
    requires
        keys_distinct(pair_views(old(entries)@)),
    ensures
        pair_views(final(entries)@) == assoc_insert(pair_views(old(entries)@), key@, value@),
        keys_distinct(pair_views(final(entries)@)),
{
    let ghost m = pair_views(entries@);
    let mut i: usize = 0;
    while i < entries.len()
        invariant
            i <= entries@.len(),
            m == pair_views(entries@),
            entries@ == old(entries)@,
            keys_distinct(m),
            forall|j: int| 0 <= j < i ==> #[trigger] m[j].0 != key@,
        decreases entries.len() - i,
    {
        if same_text(entries[i].0.as_str(), key.as_str()) {
            proof {
                assert(m[i as int].0 == key@);
                let w = choose|w: int| 0 <= w < m.len() && #[trigger] m[w].0 == key@;
                assert(w == i);
            }
            let ghost kv = key@;
            let ghost vv = value@;
            entries.set(i, (key, value));
            proof {
                assert(pair_views(entries@) =~= m.update(i as int, (kv, vv)));
                assert(has_key(m, kv));
                assert((choose|w: int| 0 <= w < m.len() && #[trigger] m[w].0 == kv) == i);
                assert(assoc_insert(m, kv, vv) == m.update(i as int, (kv, vv)));
                let n = pair_views(entries@);
                assert forall|a: int, b: int| 0 <= a < b < n.len() implies #[trigger] n[a].0 != #[trigger] n[b].0 by {
                    if a != i && b != i {
                        assert(n[a] == m[a] && n[b] == m[b]);
                    } else if a == i {
                        assert(n[b] == m[b]);
                    } else {
                        assert(n[a] == m[a]);
                    }
                }
            }
            return;
        }
        i = i + 1;
    }
    let ghost kv = key@;
    let ghost vv = value@;
    entries.push((key, value));
    assert(pair_views(entries@) =~= m.push((kv, vv)));
}

/// The comments of the keys in `key_to_field`, each key with the comment lines
/// of its field, each line after `comment_prefix` and a space, joined by line
/// feeds. Fields left out, and fields without comment lines, give no entry; a
/// key bound twice keeps its first place and takes its last binding's comment.
pub fn build_comment_map(key_to_field: &Vec<(String, &FieldMetadata)>, comment_prefix: &str) -> (r: CommentMap)
    ensures
        r@ == comment_entries(comment_prefix@, binding_views(key_to_field@)),
{
    let mut entries: Vec<(String, String)> = Vec::new();
    let mut i: usize = 0;
    assert(pair_views(entries@) =~= seq![]);
    while i < key_to_field.len()
        invariant
            i <= key_to_field.len(),
            pair_views(entries@) == comment_entries(comment_prefix@, binding_views(key_to_field@).take(i as int)),
            keys_distinct(pair_views(entries@)),
        decreases key_to_field.len() - i,
    {
        let ghost kf = binding_views(key_to_field@);
        assert(kf.take(i + 1).drop_last() == kf.take(i as int));
        assert(kf.take(i + 1).last() == kf[i as int]);
        let field: &FieldMetadata = key_to_field[i].1;
        if !field.exclude {
            let ls = comment_lines_of(&field.comments);
            if ls.len() > 0 {
                let text = join_prefixed(comment_prefix, &ls);
                let comment = string_from_chars(text.as_slice());
                let key = key_to_field[i].0.clone();
                insert_pair(&mut entries, key, comment);
            }
        }
        i = i + 1;
    }
    assert(binding_views(key_to_field@).take(key_to_field.len() as int) == binding_views(key_to_field@));
    CommentMap { entries }
}

} // verus!
