//! Character-level helpers: line splitting, trimming and substring search,
//! with the specifications that the rest of the library is stated over.

use vstd::prelude::*;

verus! {

/// Whether `c` has the Unicode `White_Space` property, which `char::is_whitespace`
/// reports: tab, line feed, vertical tab, form feed, carriage return, space,
/// U+0085, U+00A0, U+1680, U+2000 to U+200A, U+2028, U+2029, U+202F, U+205F
/// and U+3000.
#[verifier::opaque]
pub open spec fn char_is_whitespace(c: char) -> bool {
    ||| ('\u{9}' <= c && c <= '\u{d}')
    ||| c == ' '
    ||| c == '\u{85}'
    ||| c == '\u{a0}'
    ||| c == '\u{1680}'
    ||| ('\u{2000}' <= c && c <= '\u{200a}')
    ||| c == '\u{2028}'
    ||| c == '\u{2029}'
    ||| c == '\u{202f}'
    ||| c == '\u{205f}'
    ||| c == '\u{3000}'
}

/// Whether `c` is white space (see [`char_is_whitespace`]).
pub fn is_whitespace(c: char) -> (b: bool)
    ensures
        b == char_is_whitespace(c),
{
    reveal(char_is_whitespace);
    ('\u{9}' <= c && c <= '\u{d}') || c == ' ' || c == '\u{85}' || c == '\u{a0}' || c == '\u{1680}'
        || ('\u{2000}' <= c && c <= '\u{200a}') || c == '\u{2028}' || c == '\u{2029}' || c == '\u{202f}'
        || c == '\u{205f}' || c == '\u{3000}'
}

/// `String::push`: appends one character at the end of the string.
#[verifier::external_body]
pub(crate) fn push_char(s: &mut String, c: char)
    ensures
        final(s)@ == old(s)@.push(c),
{
    s.push(c)
}

/// The characters of `s`, in order.
pub fn chars_of(s: &str) -> (v: Vec<char>)
    ensures
        v@ == s@,
{
    let mut v: Vec<char> = Vec::new();
    for c in it: s.chars()
        invariant
            v@ == it.seq().take(it.index() as int),
            it.seq() == s@,
    {
        v.push(c);
        assert(v@ == it.seq().take(it.index() as int + 1));
    }
    assert(v@ == s@);
    v
}


/// A `String` holding the characters of `cs`, in order.
pub fn string_from_chars(cs: &[char]) -> (s: String)
    ensures
        s@ == cs@,
{
    let mut s = String::new();
    let mut i: usize = 0;
    while i < cs.len()
        invariant
            i <= cs.len(),
            s@ == cs@.take(i as int),
        decreases cs.len() - i,
    {
        push_char(&mut s, cs[i]);
        i = i + 1;
        assert(s@ == cs@.take(i as int));
    }
    assert(cs@.take(cs.len() as int) == cs@);
    s
}

/// `piece` without one trailing carriage return, if it ends with one.
pub open spec fn strip_cr(piece: Seq<char>) -> Seq<char> {
    if piece.len() > 0 && piece.last() == '\r' {
        piece.drop_last()
    } else {
        piece
    }
}

/// The lines read from the first `n` characters of `s`: the lines completed by a
/// line feed so far, and the characters of the line still open.
pub open spec fn lines_state(s: Seq<char>, n: nat) -> (Seq<Seq<char>>, Seq<char>)
    decreases n,
{
    if n == 0 {
        (seq![], seq![])
    } else {
        let (done, open) = lines_state(s, (n - 1) as nat);
        if s[n - 1] == '\n' {
            (done.push(strip_cr(open)), seq![])
        } else {
            (done, open.push(s[n - 1]))
        }
    }
}

/// The lines of `s` as `str::lines` yields them: split at each line feed, a
/// carriage return just before a line feed dropped, no empty line after a final
/// line feed.
pub open spec fn lines(s: Seq<char>) -> Seq<Seq<char>> {
    let (done, open) = lines_state(s, s.len());
    if open.len() == 0 {
        done
    } else {
        done.push(open)
    }
}

/// The lines of `s` (see [`lines`]).
pub fn split_lines(s: &str) -> (ls: Vec<Vec<char>>)
    ensures
        ls@.len() == lines(s@).len(),
        forall|i: int| 0 <= i < ls@.len() ==> #[trigger] ls@[i]@ == lines(s@)[i],
{
    let cs = chars_of(s);
    let mut done: Vec<Vec<char>> = Vec::new();
    let mut open: Vec<char> = Vec::new();
    let mut i: usize = 0;
    while i < cs.len()
        invariant
            i <= cs.len(),
            cs@ == s@,
            done@.len() == lines_state(s@, i as nat).0.len(),
            forall|j: int| 0 <= j < done@.len() ==> #[trigger] done@[j]@ == lines_state(s@, i as nat).0[j],
            open@ == lines_state(s@, i as nat).1,
        decreases cs.len() - i,
    {
        let c = cs[i];
        if c == '\n' {
            let mut line = open;
            let len = line.len();
            if len > 0 && line[len - 1] == '\r' {
                line.pop();
            }
            done.push(line);
            open = Vec::new();
        } else {
            open.push(c);
        }
        i = i + 1;
    }
    if open.len() > 0 {
        done.push(open);
    }
    done
}


/// `s` without its trailing whitespace (as `str::trim_end` removes it).
pub open spec fn trim_end(s: Seq<char>) -> Seq<char>
    decreases s.len(),
{
    if s.len() > 0 && char_is_whitespace(s.last()) {
        trim_end(s.drop_last())
    } else {
        s
    }
}

/// The whitespace characters at the start of `s`, up to the first other one.
pub open spec fn indent(s: Seq<char>) -> Seq<char>
    decreases s.len(),
{
    if s.len() > 0 && char_is_whitespace(s[0]) {
        seq![s[0]] + indent(s.drop_first())
    } else {
        seq![]
    }
}


proof fn lemma_trim_end_prefix(s: Seq<char>)
    ensures
        trim_end(s).len() <= s.len(),
        trim_end(s) == s.take(trim_end(s).len() as int),
    decreases s.len(),
{
    if s.len() > 0 && char_is_whitespace(s.last()) {
        lemma_trim_end_prefix(s.drop_last());
        assert(s.drop_last().take(trim_end(s).len() as int) == s.take(trim_end(s).len() as int));
    } else {
        assert(s.take(s.len() as int) == s);
    }
}

proof fn lemma_trim_end_take(s: Seq<char>, n: int)
    requires
        0 <= n <= s.len(),
        forall|j: int| n <= j < s.len() ==> char_is_whitespace(#[trigger] s[j]),
    ensures
        trim_end(s) == trim_end(s.take(n)),
    decreases s.len() - n,
{
    if n < s.len() {
        assert(s.drop_last().take(n) == s.take(n));
        lemma_trim_end_take(s.drop_last(), n);
    } else {
        assert(s.take(n) == s);
    }
}

/// `s` without its trailing whitespace.
pub fn trim_end_chars(s: &Vec<char>) -> (r: Vec<char>)
    ensures
        r@ == trim_end(s@),
{
    let mut n = s.len();
    while n > 0 && is_whitespace(s[n - 1])
        invariant
            n <= s.len(),
            forall|j: int| n <= j < s.len() ==> char_is_whitespace(#[trigger] s@[j]),
        decreases n,
    {
        n = n - 1;
    }
    proof {
        lemma_trim_end_take(s@, n as int);
        let t = s@.take(n as int);
        if n > 0 {
            assert(t.last() == s@[n - 1]);
        }
    }
    let mut r: Vec<char> = Vec::new();
    let mut i: usize = 0;
    while i < n
        invariant
            i <= n <= s.len(),
            r@ == s@.take(i as int),
        decreases n - i,
    {
        r.push(s[i]);
        i = i + 1;
        assert(r@ == s@.take(i as int));
    }
    r
}

proof fn lemma_indent_take(s: Seq<char>, n: int)
    requires
        0 <= n <= s.len(),
        forall|j: int| 0 <= j < n ==> char_is_whitespace(#[trigger] s[j]),
        n == s.len() || !char_is_whitespace(s[n]),
    ensures
        indent(s) == s.take(n),
    decreases n,
{
    if n > 0 {
        let t = s.drop_first();
        assert forall|j: int| 0 <= j < n - 1 implies char_is_whitespace(#[trigger] t[j]) by {
            assert(t[j] == s[j + 1]);
        }
        if n - 1 < t.len() {
            assert(t[n - 1] == s[n]);
        }
        lemma_indent_take(t, n - 1);
        assert(seq![s[0]] + t.take(n - 1) == s.take(n));
    }
}

/// Text after whitespace `ind`, when it does not itself begin with
/// whitespace, is what is left once the indentation is taken off.
pub proof fn lemma_unindented(ind: Seq<char>, x: Seq<char>)
    requires
        forall|i: int| 0 <= i < ind.len() ==> char_is_whitespace(#[trigger] ind[i]),
        x.len() == 0 || !char_is_whitespace(x[0]),
    ensures
        unindented(ind + x) == x,
{
    let s = ind + x;
    assert forall|j: int| 0 <= j < ind.len() implies char_is_whitespace(#[trigger] s[j]) by {
        assert(s[j] == ind[j]);
    }
    if ind.len() < s.len() {
        assert(s[ind.len() as int] == x[0]);
    }
    lemma_indent_take(s, ind.len() as int);
    assert(s.skip(ind.len() as int) =~= x);
}

/// The whitespace at the start of `s`.
pub fn indent_chars(s: &Vec<char>) -> (r: Vec<char>)
    ensures
        r@ == indent(s@),
        r@.len() <= s@.len(),
{
    let mut r: Vec<char> = Vec::new();
    let mut i: usize = 0;
    while i < s.len() && is_whitespace(s[i])
        invariant
            i <= s.len(),
            r@ == s@.take(i as int),
            forall|j: int| 0 <= j < i ==> char_is_whitespace(#[trigger] s@[j]),
        decreases s.len() - i,
    {
        r.push(s[i]);
        i = i + 1;
        assert(r@ == s@.take(i as int));
    }
    proof {
        lemma_indent_take(s@, i as int);
    }
    r
}

/// Whether `s` begins with `p`.
pub open spec fn starts_with(s: Seq<char>, p: Seq<char>) -> bool {
    p.len() <= s.len() && s.take(p.len() as int) == p
}

/// `s` after its leading whitespace.
pub open spec fn unindented(s: Seq<char>) -> Seq<char> {
    s.skip(indent(s).len() as int)
}

/// Whether `s`, after its leading whitespace, begins with `p`.
pub fn starts_after_indent(s: &Vec<char>, p: &Vec<char>) -> (b: bool)
    ensures
        b == starts_with(unindented(s@), p@),
{
    let ind = indent_chars(s);
    let n = ind.len();
    let ghost u = s@.skip(n as int);
    assert(unindented(s@) == u);
    if p.len() > s.len() - n {
        return false;
    }
    let mut j: usize = 0;
    while j < p.len()
        invariant
            n + p.len() <= s.len(),
            u == s@.skip(n as int),
            u == unindented(s@),
            j <= p.len(),
            forall|i: int| 0 <= i < j ==> u[i] == p@[i],
        decreases p.len() - j,
    {
        if s[n + j] != p[j] {
            assert(u[j as int] == s@[n + j]);
            assert(u.take(p.len() as int)[j as int] != p@[j as int]);
            return false;
        }
        assert(u[j as int] == s@[n + j]);
        j = j + 1;
    }
    assert(u.take(p.len() as int) =~= p@);
    true
}

/// Whether the character vectors `a` and `b` hold the same characters.
pub fn same_chars(a: &Vec<char>, b: &Vec<char>) -> (r: bool)
    ensures
        r == (a@ == b@),
{
    if a.len() != b.len() {
        return false;
    }
    let mut i: usize = 0;
    while i < a.len()
        invariant
            i <= a.len(),
            a.len() == b.len(),
            forall|j: int| 0 <= j < i ==> a@[j] == b@[j],
        decreases a.len() - i,
    {
        if a[i] != b[i] {
            return false;
        }
        i = i + 1;
    }
    assert(a@ == b@);
    true
}

/// Whether `a` and `b` hold the same characters.
pub fn same_text(a: &str, b: &str) -> (r: bool)
    ensures
        r == (a@ == b@),
{
    let x = chars_of(a);
    let y = chars_of(b);
    same_chars(&x, &y)
}

} // verus!
