//! Laying out a rendered document with its comments: before the first line that
//! mentions a key, that key's comment, indented like the line.

use vstd::prelude::*;

use crate::common::CommentMap;
use crate::format::Format;
use crate::text::{char_is_whitespace, chars_of, indent, lemma_unindented, indent_chars, lines, lines_state, split_lines, starts_after_indent, starts_with, strip_cr, string_from_chars, unindented};

verus! {

/// Whether `line` mentions `key` the way `style` writes a key: the line,
/// after its indentation, begins with JSON `"key":`, TOML `key = `, `key=`,
/// `[key]`, `[key.`, `[[key]]` or `[[key.`, or YAML `key:`.
#[verifier::opaque]
pub open spec fn mentions(style: Format, line: Seq<char>, key: Seq<char>) -> bool {
    let u = unindented(line);
    match style {
        Format::Json => starts_with(u, seq!['"'] + key + seq!['"', ':']),
        Format::Toml => {
            ||| starts_with(u, key + seq![' ', '=', ' '])
            ||| starts_with(u, key + seq!['='])
            ||| starts_with(u, seq!['['] + key + seq![']'])
            ||| starts_with(u, seq!['['] + key + seq!['.'])
            ||| starts_with(u, seq!['[', '['] + key + seq![']', ']'])
            ||| starts_with(u, seq!['[', '['] + key + seq!['.'])
        },
        Format::Yaml => starts_with(u, key + seq![':']),
    }
}

/// A TOML line that opens a table or an array of tables for `key` mentions
/// it: after any indentation, `[key]`, `[key.`, `[[key]]` or `[[key.`,
/// followed by anything.
pub proof fn lemma_toml_table_lines_mention(ind: Seq<char>, key: Seq<char>, rest: Seq<char>)
    requires
        forall|i: int| 0 <= i < ind.len() ==> char_is_whitespace(#[trigger] ind[i]),
    ensures
        mentions(Format::Toml, ind + (seq!['['] + key + seq![']']) + rest, key),
        mentions(Format::Toml, ind + (seq!['['] + key + seq!['.']) + rest, key),
        mentions(Format::Toml, ind + (seq!['[', '['] + key + seq![']', ']']) + rest, key),
        mentions(Format::Toml, ind + (seq!['[', '['] + key + seq!['.']) + rest, key),
{
    reveal(mentions);
    reveal(char_is_whitespace);
    let ps = seq![
        seq!['['] + key + seq![']'],
        seq!['['] + key + seq!['.'],
        seq!['[', '['] + key + seq![']', ']'],
        seq!['[', '['] + key + seq!['.'],
    ];
    assert forall|j: int| 0 <= j < 4 implies mentions(Format::Toml, ind + ps[j] + rest, key) by {
        let p = ps[j];
        let x = p + rest;
        assert(x[0] == '[');
        assert(ind + p + rest =~= ind + x);
        lemma_unindented(ind, x);
        assert(x.take(p.len() as int) =~= p);
    }
    assert(ps[0] == seq!['['] + key + seq![']']);
    assert(ps[1] == seq!['['] + key + seq!['.']);
    assert(ps[2] == seq!['[', '['] + key + seq![']', ']']);
    assert(ps[3] == seq!['[', '['] + key + seq!['.']);
}

/// A TOML line that assigns `key` mentions it: after any indentation,
/// `key = ` or `key=`, followed by anything, for a key that does not begin
/// with whitespace.
pub proof fn lemma_toml_assignment_mentions(ind: Seq<char>, key: Seq<char>, rest: Seq<char>)
    requires
        forall|i: int| 0 <= i < ind.len() ==> char_is_whitespace(#[trigger] ind[i]),
        key.len() > 0,
        !char_is_whitespace(key[0]),
    ensures
        mentions(Format::Toml, ind + (key + seq![' ', '=', ' ']) + rest, key),
        mentions(Format::Toml, ind + (key + seq!['=']) + rest, key),
{
    reveal(mentions);
    reveal(char_is_whitespace);
    let p1 = key + seq![' ', '=', ' '];
    let p2 = key + seq!['='];
    let x1 = p1 + rest;
    let x2 = p2 + rest;
    assert(x1[0] == key[0] && x2[0] == key[0]);
    assert(ind + p1 + rest =~= ind + x1);
    assert(ind + p2 + rest =~= ind + x2);
    lemma_unindented(ind, x1);
    lemma_unindented(ind, x2);
    assert(x1.take(p1.len() as int) =~= p1);
    assert(x2.take(p2.len() as int) =~= p2);
}

/// A YAML line that writes `key` mentions it: after any indentation, `key:`
/// followed by anything, a value or nothing at all (a key that opens a nested
/// block), for a key that does not begin with whitespace.
pub proof fn lemma_yaml_key_line_mentions(ind: Seq<char>, key: Seq<char>, rest: Seq<char>)
    requires
        forall|i: int| 0 <= i < ind.len() ==> char_is_whitespace(#[trigger] ind[i]),
        key.len() == 0 || !char_is_whitespace(key[0]),
    ensures
        mentions(Format::Yaml, ind + (key + seq![':']) + rest, key),
        mentions(Format::Yaml, ind + (key + seq![':']), key),
{
    reveal(mentions);
    reveal(char_is_whitespace);
    let p = key + seq![':'];
    let x = p + rest;
    if key.len() == 0 {
        assert(x[0] == ':');
        assert(p[0] == ':');
    } else {
        assert(x[0] == key[0]);
        assert(p[0] == key[0]);
    }
    assert(ind + p + rest =~= ind + x);
    lemma_unindented(ind, x);
    lemma_unindented(ind, p);
    assert(x.take(p.len() as int) =~= p);
    assert(p.take(p.len() as int) =~= p);
}

/// A JSON line that writes `key` mentions it: after any indentation,
/// `"key":` followed by anything.
pub proof fn lemma_json_key_line_mentions(ind: Seq<char>, key: Seq<char>, rest: Seq<char>)
    requires
        forall|i: int| 0 <= i < ind.len() ==> char_is_whitespace(#[trigger] ind[i]),
    ensures
        mentions(Format::Json, ind + (seq!['"'] + key + seq!['"', ':']) + rest, key),
{
    reveal(mentions);
    reveal(char_is_whitespace);
    let p = seq!['"'] + key + seq!['"', ':'];
    let x = p + rest;
    assert(x[0] == '"');
    assert(ind + p + rest =~= ind + x);
    lemma_unindented(ind, x);
    assert(x.take(p.len() as int) =~= p);
}

/// The lines `ls`, each after `ind` and ended by a line feed.
pub open spec fn indented_lines(ind: Seq<char>, ls: Seq<Seq<char>>) -> Seq<char>
    decreases ls.len(),
{
    if ls.len() == 0 {
        seq![]
    } else {
        indented_lines(ind, ls.drop_last()) + ind + ls.last() + seq!['\n']
    }
}

/// The text that a comment becomes above a line indented by `ind`: each of its
/// lines after the indentation and ended by a line feed; in JSON a comment with
/// no line still leaves an empty line.
pub open spec fn comment_block(style: Format, ind: Seq<char>, comment: Seq<char>) -> Seq<char> {
    if style == Format::Json && lines(comment).len() == 0 {
        seq!['\n']
    } else {
        indented_lines(ind, lines(comment))
    }
}

/// The first comment of `cm`, by position, not in `used` whose key `line`
/// mentions.
pub open spec fn first_mention(style: Format, line: Seq<char>, cm: Seq<(Seq<char>, Seq<char>)>, used: Set<int>) -> Option<int> {
    if exists|j: int| 0 <= j < cm.len() && !used.contains(j) && #[trigger] mentions(style, line, cm[j].0) {
        Some(
            choose|j: int|
                0 <= j < cm.len() && !used.contains(j) && #[trigger] mentions(style, line, cm[j].0) && forall|i: int|
                    0 <= i < j ==> used.contains(i) || !#[trigger] mentions(style, line, cm[i].0),
        )
    } else {
        None
    }
}

/// The first `n` of the lines `ls` laid out with the comments `cm`, and the
/// comments used so far: each line after the first unused comment whose key it
/// mentions, each comment used once.
pub open spec fn laid_out(style: Format, ls: Seq<Seq<char>>, cm: Seq<(Seq<char>, Seq<char>)>, n: nat) -> (Seq<char>, Set<int>)
    decreases n,
{
    if n == 0 {
        (seq![], Set::empty())
    } else {
        let (text, used) = laid_out(style, ls, cm, (n - 1) as nat);
        let line = ls[n - 1];
        match first_mention(style, line, cm, used) {
            Some(j) => (text + comment_block(style, indent(line), cm[j].1) + line + seq!['\n'], used.insert(j)),
            None => (text + line + seq!['\n'], used),
        }
    }
}

/// The text `text` laid out with the comments `cm` in `style`: every line of it
/// ended by a line feed, a comment before the first line that mentions its key.
pub open spec fn with_comments(style: Format, text: Seq<char>, cm: Seq<(Seq<char>, Seq<char>)>) -> Seq<char> {
    laid_out(style, lines(text), cm, lines(text).len()).0
}

proof fn lemma_laid_out_plain(style: Format, ls: Seq<Seq<char>>, n: nat)
    requires
        n <= ls.len(),
    ensures
        laid_out(style, ls, seq![], n) == (indented_lines(seq![], ls.take(n as int)), Set::<int>::empty()),
    decreases n,
{
    if n > 0 {
        lemma_laid_out_plain(style, ls, (n - 1) as nat);
        assert(ls.take(n as int).drop_last() == ls.take(n - 1));
        assert(ls.take(n as int).last() == ls[n - 1]);
        assert(seq![] + ls[n - 1] == ls[n - 1]);
    } else {
        assert(ls.take(0).len() == 0);
    }
}

proof fn lemma_lines_state_text(s: Seq<char>, n: nat)
    requires
        n <= s.len(),
        forall|i: int| 0 <= i < s.len() ==> s[i] != '\r',
    ensures
        indented_lines(seq![], lines_state(s, n).0) + lines_state(s, n).1 == s.take(n as int),
        lines_state(s, n).1 == s.subrange(n - lines_state(s, n).1.len(), n as int),
        lines_state(s, n).1.len() <= n,
        n > 0 ==> (lines_state(s, n).1.len() == 0 <==> s[n - 1] == '\n'),
    decreases n,
{
    if n > 0 {
        lemma_lines_state_text(s, (n - 1) as nat);
        let (done, open) = lines_state(s, (n - 1) as nat);
        if open.len() > 0 {
            assert(open.last() == s[n - 2]);
        }
        assert(strip_cr(open) == open);
        if s[n - 1] == '\n' {
            assert(done.push(open).drop_last() == done);
            assert(seq![] + open == open);
        }
        assert(s.take(n as int) == s.take(n - 1).push(s[n - 1]));
    } else {
        assert(s.take(0) =~= seq![]);
        assert(s.subrange(0, 0) =~= seq![]);
    }
}

/// Without comments, rendering only ends the text with a line feed: text
/// that is empty or ends with a line feed comes back unchanged, other text
/// gets a final line feed (for text without carriage returns).
pub proof fn lemma_no_comments_keeps_text(style: Format, text: Seq<char>)
    requires
        forall|i: int| 0 <= i < text.len() ==> text[i] != '\r',
    ensures
        with_comments(style, text, seq![]) == (if text.len() == 0 || text.last() == '\n' {
            text
        } else {
            text + seq!['\n']
        }),
{
    lemma_lines_state_text(text, text.len());
    let (done, open) = lines_state(text, text.len());
    let ls = lines(text);
    lemma_laid_out_plain(style, ls, ls.len());
    assert(ls.take(ls.len() as int) == ls);
    assert(text.take(text.len() as int) == text);
    if open.len() > 0 {
        assert(ls.drop_last() == done);
        assert(seq![] + open == open);
    }
}

/// Adds the characters of `add` to the end of `out`.
fn push_all(out: &mut Vec<char>, add: &Vec<char>)
    ensures
        final(out)@ == old(out)@ + add@,
{
    let mut i: usize = 0;
    while i < add.len()
        invariant
            i <= add.len(),
            out@ == old(out)@ + add@.take(i as int),
        decreases add.len() - i,
    {
        out.push(add[i]);
        i = i + 1;
        assert(add@.take(i as int) == add@.take(i - 1).push(add@[i - 1]));
    }
    assert(add@.take(add.len() as int) == add@);
}

/// Whether `line` mentions `key` in `style` (see [`mentions`]).
pub fn line_mentions(style: Format, line: &Vec<char>, key: &str) -> (b: bool)
    ensures
        b == mentions(style, line@, key@),
{
    reveal(mentions);
    let k = chars_of(key);
    match style {
        Format::Json => {
            let mut p: Vec<char> = Vec::new();
            p.push('"');
            push_all(&mut p, &k);
            p.push('"');
            p.push(':');
            assert(p@ == seq!['"'] + key@ + seq!['"', ':']);
            starts_after_indent(line, &p)
        },
        Format::Toml => {
            let mut p1: Vec<char> = Vec::new();
            push_all(&mut p1, &k);
            p1.push(' ');
            p1.push('=');
            p1.push(' ');
            assert(p1@ == key@ + seq![' ', '=', ' ']);
            let mut p2: Vec<char> = Vec::new();
            push_all(&mut p2, &k);
            p2.push('=');
            assert(p2@ == key@ + seq!['=']);
            let mut p3: Vec<char> = Vec::new();
            p3.push('[');
            push_all(&mut p3, &k);
            p3.push(']');
            assert(p3@ == seq!['['] + key@ + seq![']']);
            let mut p4: Vec<char> = Vec::new();
            p4.push('[');
            push_all(&mut p4, &k);
            p4.push('.');
            assert(p4@ == seq!['['] + key@ + seq!['.']);
            let mut p5: Vec<char> = Vec::new();
            p5.push('[');
            p5.push('[');
            push_all(&mut p5, &k);
            p5.push(']');
            p5.push(']');
            assert(p5@ == seq!['[', '['] + key@ + seq![']', ']']);
            let mut p6: Vec<char> = Vec::new();
            p6.push('[');
            p6.push('[');
            push_all(&mut p6, &k);
            p6.push('.');
            assert(p6@ == seq!['[', '['] + key@ + seq!['.']);
            starts_after_indent(line, &p1) || starts_after_indent(line, &p2) || starts_after_indent(line, &p3)
                || starts_after_indent(line, &p4) || starts_after_indent(line, &p5) || starts_after_indent(line, &p6)
        },
        Format::Yaml => {
            let mut p: Vec<char> = Vec::new();
            push_all(&mut p, &k);
            p.push(':');
            assert(p@ == key@ + seq![':']);
            starts_after_indent(line, &p)
        },
    }
}

/// Adds to `out` the comment `comment` as it stands above a line indented by
/// `ind` (see [`comment_block`]).
fn push_comment_block(out: &mut Vec<char>, style: Format, ind: &Vec<char>, comment: &str)
    ensures
        final(out)@ == old(out)@ + comment_block(style, ind@, comment@),
{
    let cls = split_lines(comment);
    if style == Format::Json && cls.len() == 0 {
        out.push('\n');
        return;
    }
    let mut i: usize = 0;
    let ghost ls = lines(comment@);
    while i < cls.len()
        invariant
            i <= cls.len(),
            cls@.len() == ls.len(),
            forall|j: int| 0 <= j < cls@.len() ==> #[trigger] cls@[j]@ == ls[j],
            out@ == old(out)@ + indented_lines(ind@, ls.take(i as int)),
        decreases cls.len() - i,
    {
        push_all(out, ind);
        push_all(out, &cls[i]);
        out.push('\n');
        proof {
            assert(ls.take(i + 1).drop_last() == ls.take(i as int));
            assert(ls.take(i + 1).last() == cls@[i as int]@);
        }
        i = i + 1;
    }
    assert(ls.take(cls.len() as int) == ls);
}

/// The set of positions flagged in `flags`.
pub open spec fn flagged(flags: Seq<bool>) -> Set<int> {
    Set::new(|j: int| 0 <= j < flags.len() && flags[j])
}

/// The first comment of `cm` not flagged in `used` whose key `line` mentions
/// (see [`first_mention`]).
fn find_mention(style: Format, line: &Vec<char>, cm: &CommentMap, used: &Vec<bool>) -> (r: Option<usize>)
    requires
        used@.len() == cm@.len(),
    ensures
        match r {
            Some(at) => first_mention(style, line@, cm@, flagged(used@)) == Some(at as int) && at < cm@.len(),
            None => first_mention(style, line@, cm@, flagged(used@)) is None,
        },
{
    let ghost u = flagged(used@);
    let n = cm.len();
    let mut j: usize = 0;
    while j < n
        invariant
            j <= n,
            n == cm@.len(),
            used@.len() == n,
            u == flagged(used@),
            forall|k: int| 0 <= k < j ==> u.contains(k) || !#[trigger] mentions(style, line@, cm@[k].0),
        decreases n - j,
    {
        if !used[j] {
            let (key, _) = cm.entry(j);
            if line_mentions(style, line, key.as_str()) {
                proof {
                    assert(!u.contains(j as int));
                    let c = choose|c: int|
                        0 <= c < cm@.len() && !u.contains(c) && #[trigger] mentions(style, line@, cm@[c].0) && forall|k: int|
                            0 <= k < c ==> u.contains(k) || !#[trigger] mentions(style, line@, cm@[k].0);
                    if c > j {
                        assert(u.contains(j as int) || !mentions(style, line@, cm@[j as int].0));
                    }
                }
                return Some(j);
            }
        }
        j = j + 1;
    }
    None
}

/// The lines of `text` laid out with the comments of `cm` in `style` (see
/// [`with_comments`]), added to `out`.
#[verifier::rlimit(30)]
fn lay_out(out: &mut Vec<char>, style: Format, text: &str, cm: &CommentMap)
    ensures
        final(out)@ == old(out)@ + with_comments(style, text@, cm@),
{
    let ls = split_lines(text);
    let ghost lv = lines(text@);
    let n = cm.len();
    let mut used: Vec<bool> = Vec::new();
    let mut j: usize = 0;
    while j < n
        invariant
            j <= n,
            used@.len() == j,
            forall|k: int| 0 <= k < j ==> !#[trigger] used@[k],
        decreases n - j,
    {
        used.push(false);
        j = j + 1;
    }
    assert(flagged(used@) =~= Set::<int>::empty());
    let ghost base = out@;
    let mut i: usize = 0;
    while i < ls.len()
        invariant
            i <= ls.len(),
            ls@.len() == lv.len(),
            forall|k: int| 0 <= k < ls@.len() ==> #[trigger] ls@[k]@ == lv[k],
            used@.len() == n,
            n == cm@.len(),
            out@ == base + laid_out(style, lv, cm@, i as nat).0,
            flagged(used@) == laid_out(style, lv, cm@, i as nat).1,
        decreases ls.len() - i,
    {
        let line = &ls[i];
        let ghost u = flagged(used@);
        let ghost prev = laid_out(style, lv, cm@, i as nat);
        let ghost before = out@;
        assert(lv[i as int] == line@);
        let hit = find_mention(style, line, cm, &used);
        match hit {
            Some(at) => {
                let ind = indent_chars(line);
                let (_, comment) = cm.entry(at);
                push_comment_block(out, style, &ind, comment.as_str());
                used.set(at, true);
                assert(flagged(used@) =~= u.insert(at as int));
                push_all(out, line);
                out.push('\n');
                proof {
                    let blk = comment_block(style, indent(line@), cm@[at as int].1);
                    assert(laid_out(style, lv, cm@, (i + 1) as nat) == (prev.0 + blk + line@ + seq!['\n'], u.insert(at as int)));
                    assert(out@ =~= before + blk + line@ + seq!['\n']);
                }
            },
            None => {
                push_all(out, line);
                out.push('\n');
                proof {
                    assert(laid_out(style, lv, cm@, (i + 1) as nat) == (prev.0 + line@ + seq!['\n'], u));
                    assert(out@ =~= before + line@ + seq!['\n']);
                }
            },
        }
        i = i + 1;
    }
}


/// `text` below `header` and an empty line, when there is a header.
pub open spec fn headed(header: Option<Seq<char>>, text: Seq<char>) -> Seq<char> {
    match header {
        Some(h) => h + seq!['\n', '\n'] + text,
        None => text,
    }
}

/// A JSON document as written: the header and an empty line, when there is a
/// header, then the JSON text laid out with the comments.
pub open spec fn json_document(text: Seq<char>, header: Option<Seq<char>>, cm: Seq<(Seq<char>, Seq<char>)>) -> Seq<char> {
    match header {
        Some(h) => h + seq!['\n'] + with_comments(Format::Json, text, cm),
        None => with_comments(Format::Json, text, cm),
    }
}

/// A TOML or YAML document as written: the header, an empty line and the text,
/// laid out together with the comments.
pub open spec fn headed_document(style: Format, text: Seq<char>, header: Option<Seq<char>>, cm: Seq<(Seq<char>, Seq<char>)>) -> Seq<char> {
    with_comments(style, headed(header, text), cm)
}

/// The view of an optional string.
pub open spec fn opt_str_view(o: Option<&str>) -> Option<Seq<char>> {
    match o {
        Some(s) => Some(s@),
        None => None,
    }
}

/// Writes a JSON document: `header` (ended by an empty line) if given, then
/// each line of `json_text`, with each comment of `comments` above the first
/// line that mentions its key as `"key":`.
pub fn render_json(json_text: &str, header: Option<&str>, comments: &CommentMap) -> (r: String)
    ensures
        r@ == json_document(json_text@, opt_str_view(header), comments@),
{
    let mut out: Vec<char> = Vec::new();
    match header {
        Some(h) => {
            let hc = chars_of(h);
            push_all(&mut out, &hc);
            out.push('\n');
        },
        None => {},
    }
    lay_out(&mut out, Format::Json, json_text, comments);
    string_from_chars(out.as_slice())
}

/// Writes a TOML or YAML document: `header`, an empty line and `text`, each
/// line with each comment of `comments` above the first line that mentions its
/// key (TOML: `key = `, `key=`, `[key]`, `[key.`; YAML: `key:`).
pub fn render_headed(style: Format, text: &str, header: Option<&str>, comments: &CommentMap) -> (r: String)
    ensures
        r@ == headed_document(style, text@, opt_str_view(header), comments@),
{
    let full = match header {
        Some(h) => {
            let mut v = chars_of(h);
            v.push('\n');
            v.push('\n');
            let t = chars_of(text);
            push_all(&mut v, &t);
            assert(v@ == h@ + seq!['\n', '\n'] + text@);
            string_from_chars(v.as_slice())
        },
        None => text.to_string(),
    };
    assert(full@ == headed(opt_str_view(header), text@));
    let mut out: Vec<char> = Vec::new();
    lay_out(&mut out, style, full.as_str(), comments);
    assert(out@ =~= with_comments(style, full@, comments@));
    string_from_chars(out.as_slice())
}

} // verus!
