//! Options that shape a rendered configuration: how field names become keys,
//! in which order keys appear, and whether stale keys are dropped on merge.

use vstd::prelude::*;

use crate::order::FieldOrder;
use crate::text::{chars_of, string_from_chars};

verus! {

/// Whether `c` has the Unicode `Uppercase` property, as `char::is_uppercase`
/// reports it.
pub uninterp spec fn char_is_uppercase(c: char) -> bool;

/// Whether `c` is upper case: in ASCII exactly `A`..=`Z`; beyond ASCII, the
/// Unicode `Uppercase` property.
pub open spec fn is_upper(c: char) -> bool {
    if c <= '\u{7f}' {
        'A' <= c && c <= 'Z'
    } else {
        char_is_uppercase(c)
    }
}

/// What `str::to_uppercase` returns for the characters `s`.
pub uninterp spec fn string_to_uppercase(s: Seq<char>) -> Seq<char>;

/// `char::is_uppercase`: true exactly when `c` has the Unicode `Uppercase`
/// property. Among ASCII characters, those are `A` to `Z`; beyond ASCII the
/// contract names the property and says nothing more of it.
#[verifier::external_body]
pub(crate) fn is_uppercase(c: char) -> (b: bool)
    ensures
        b == (if c <= '\u{7f}' {
            'A' <= c && c <= 'Z'
        } else {
            char_is_uppercase(c)
        }),
{
    c.is_uppercase()
}

/// Whether every character of `t` is ASCII.
pub open spec fn is_ascii_text(t: Seq<char>) -> bool {
    forall|i: int| 0 <= i < t.len() ==> t[i] <= '\u{7f}'
}

/// The upper case of the text `t`: for ASCII text, `a`..=`z` mapped to
/// `A`..=`Z` and every other character kept; otherwise what `str::to_uppercase`
/// returns.
pub open spec fn upper_text(t: Seq<char>) -> Seq<char> {
    if is_ascii_text(t) {
        t.map_values(|c: char| ascii_upper(c))
    } else {
        string_to_uppercase(t)
    }
}

/// `str::to_uppercase`: the Unicode upper-case mapping of the whole string
/// (one character may map to several). On ASCII text that maps `a`..=`z` to
/// `A`..=`Z` and keeps every other character; beyond ASCII the contract names
/// the result as a function of the characters of `s`.
#[verifier::external_body]
pub(crate) fn to_uppercase(s: &str) -> (r: String)
    ensures
        r@ == string_to_uppercase(s@),
        (forall|i: int| 0 <= i < s@.len() ==> s@[i] <= '\u{7f}') ==> r@ == s@.map_values(|c: char| ascii_upper(c)),
{
    s.to_uppercase()
}

/// `c` with `a`..=`z` mapped to `A`..=`Z`, as `char::to_ascii_uppercase` does.
pub open spec fn ascii_upper(c: char) -> char {
    if 'a' <= c && c <= 'z' {
        ((c as u32) - 32) as char
    } else {
        c
    }
}

/// `c` with `A`..=`Z` mapped to `a`..=`z`, as `char::to_ascii_lowercase` does.
pub open spec fn ascii_lower(c: char) -> char {
    if 'A' <= c && c <= 'Z' {
        ((c as u32) + 32) as char
    } else {
        c
    }
}

/// The ASCII upper case of `c`.
pub fn to_ascii_upper(c: char) -> (r: char)
    ensures
        r == ascii_upper(c),
{
    if 'a' <= c && c <= 'z' {
        (((c as u32) - 32) as u8) as char
    } else {
        c
    }
}

/// The ASCII lower case of `c`.
pub fn to_ascii_lower(c: char) -> (r: char)
    ensures
        r == ascii_lower(c),
{
    if 'A' <= c && c <= 'Z' {
        (((c as u32) + 32) as u8) as char
    } else {
        c
    }
}


/// Whether `c` separates words in a field name (`_` or `-`).
pub open spec fn is_separator(c: char) -> bool {
    c == '_' || c == '-'
}

/// Character `i` of `s` in camelCase: upper case after a separator, lower case
/// at the very start, unchanged elsewhere.
pub open spec fn camel_char(s: Seq<char>, i: int) -> char {
    if i > 0 && is_separator(s[i - 1]) {
        ascii_upper(s[i])
    } else if i == 0 {
        ascii_lower(s[i])
    } else {
        s[i]
    }
}

/// Character `i` of `s` in PascalCase: upper case at the start and after a
/// separator, unchanged elsewhere.
pub open spec fn pascal_char(s: Seq<char>, i: int) -> char {
    if i == 0 || is_separator(s[i - 1]) {
        ascii_upper(s[i])
    } else {
        s[i]
    }
}

/// The camelCase form of the first `n` characters of `s`: separators dropped,
/// every other character mapped by [`camel_char`].
pub open spec fn camel_upto(s: Seq<char>, n: nat) -> Seq<char>
    decreases n,
{
    if n == 0 {
        seq![]
    } else if is_separator(s[n - 1]) {
        camel_upto(s, (n - 1) as nat)
    } else {
        camel_upto(s, (n - 1) as nat).push(camel_char(s, n - 1))
    }
}

/// The PascalCase form of the first `n` characters of `s`.
pub open spec fn pascal_upto(s: Seq<char>, n: nat) -> Seq<char>
    decreases n,
{
    if n == 0 {
        seq![]
    } else if is_separator(s[n - 1]) {
        pascal_upto(s, (n - 1) as nat)
    } else {
        pascal_upto(s, (n - 1) as nat).push(pascal_char(s, n - 1))
    }
}

/// What character `i` of `s` becomes in a lower-case form joined by `sep`: an
/// upper-case character after the first becomes `sep` and its ASCII lower case,
/// the other joiner (`other`) becomes `sep`, anything else its ASCII lower case.
pub open spec fn joined_piece(s: Seq<char>, i: int, sep: char, other: char) -> Seq<char> {
    if is_upper(s[i]) && i > 0 {
        seq![sep, ascii_lower(s[i])]
    } else if s[i] == other {
        seq![sep]
    } else {
        seq![ascii_lower(s[i])]
    }
}

/// The lower-case form, joined by `sep`, of the first `n` characters of `s`.
pub open spec fn joined_upto(s: Seq<char>, n: nat, sep: char, other: char) -> Seq<char>
    decreases n,
{
    if n == 0 {
        seq![]
    } else {
        joined_upto(s, (n - 1) as nat, sep, other) + joined_piece(s, n - 1, sep, other)
    }
}

/// `s` in camelCase.
pub open spec fn camel_case(s: Seq<char>) -> Seq<char> {
    camel_upto(s, s.len())
}

/// `s` in PascalCase.
pub open spec fn pascal_case(s: Seq<char>) -> Seq<char> {
    pascal_upto(s, s.len())
}

/// `s` in snake_case.
pub open spec fn snake_case(s: Seq<char>) -> Seq<char> {
    joined_upto(s, s.len(), '_', '-')
}

/// `s` in kebab-case.
pub open spec fn kebab_case(s: Seq<char>) -> Seq<char> {
    joined_upto(s, s.len(), '-', '_')
}

/// `s` in SCREAMING_SNAKE_CASE: the upper case of its snake_case form (see
/// [`upper_text`]).
pub open spec fn screaming_snake_case(s: Seq<char>) -> Seq<char> {
    upper_text(snake_case(s))
}

/// ASCII case mapping neither makes nor removes a separator.
proof fn lemma_case_keeps_separators(c: char)
    ensures
        is_separator(ascii_upper(c)) == is_separator(c),
        is_separator(ascii_lower(c)) == is_separator(c),
        ascii_lower(c) == '_' <==> c == '_',
{
}

proof fn lemma_camel_pascal_upto(s: Seq<char>, n: nat)
    requires
        n <= s.len(),
    ensures
        camel_upto(s, n).len() == pascal_upto(s, n).len(),
        camel_upto(s, n).len() <= n,
        forall|j: int| 0 < j < camel_upto(s, n).len() ==> camel_upto(s, n)[j] == pascal_upto(s, n)[j],
        forall|j: int| 0 <= j < camel_upto(s, n).len() ==> !is_separator(#[trigger] camel_upto(s, n)[j]),
        forall|j: int| 0 <= j < pascal_upto(s, n).len() ==> !is_separator(#[trigger] pascal_upto(s, n)[j]),
    decreases n,
{
    if n > 0 {
        lemma_camel_pascal_upto(s, (n - 1) as nat);
        lemma_case_keeps_separators(s[n - 1]);
    }
}

/// camelCase and PascalCase drop every separator, and differ at most in their
/// first character.
pub proof fn lemma_camel_and_pascal(s: Seq<char>)
    ensures
        camel_case(s).len() == pascal_case(s).len(),
        forall|j: int| 0 < j < camel_case(s).len() ==> camel_case(s)[j] == pascal_case(s)[j],
        forall|j: int| 0 <= j < camel_case(s).len() ==> !is_separator(#[trigger] camel_case(s)[j]),
        forall|j: int| 0 <= j < pascal_case(s).len() ==> !is_separator(#[trigger] pascal_case(s)[j]),
{
    lemma_camel_pascal_upto(s, s.len());
}

/// `s` with each `_` replaced by `-`.
pub open spec fn dashed(s: Seq<char>) -> Seq<char> {
    s.map_values(|c: char| if c == '_' { '-' } else { c })
}

proof fn lemma_joined_dashed(s: Seq<char>, n: nat)
    requires
        n <= s.len(),
    ensures
        joined_upto(s, n, '-', '_') == dashed(joined_upto(s, n, '_', '-')),
    decreases n,
{
    if n > 0 {
        lemma_joined_dashed(s, (n - 1) as nat);
        let i = n - 1;
        lemma_case_keeps_separators(s[i]);
        let a = joined_upto(s, (n - 1) as nat, '_', '-');
        let b = joined_piece(s, i, '_', '-');
        assert(dashed(a + b) =~= dashed(a) + dashed(b));
        assert(joined_piece(s, i, '-', '_') =~= dashed(b));
    }
}

/// kebab-case is snake_case with `-` in place of `_`.
pub proof fn lemma_kebab_is_dashed_snake(s: Seq<char>)
    ensures
        kebab_case(s) == dashed(snake_case(s)),
{
    lemma_joined_dashed(s, s.len());
}

/// Whether `s` is a lower-case snake_case name: words of `a`..=`z` and
/// `0`..=`9`, each starting with a letter, joined by single `_`.
pub open spec fn is_snake_name(s: Seq<char>) -> bool {
    &&& s.len() > 0
    &&& forall|i: int| 0 <= i < s.len() ==> ('a' <= #[trigger] s[i] <= 'z' || '0' <= s[i] <= '9' || s[i] == '_')
    &&& 'a' <= s[0] <= 'z'
    &&& forall|i: int| 0 <= i < s.len() && #[trigger] s[i] == '_' ==> i + 1 < s.len() && 'a' <= s[i + 1] <= 'z'
}

proof fn lemma_joined_push(t: Seq<char>, x: char, sep: char, other: char)
    ensures
        joined_upto(t.push(x), t.len() + 1, sep, other)
            == joined_upto(t, t.len(), sep, other) + joined_piece(t.push(x), t.len() as int, sep, other),
{
    lemma_joined_prefix(t.push(x), t, t.len(), sep, other);
}

proof fn lemma_joined_prefix(t: Seq<char>, u: Seq<char>, n: nat, sep: char, other: char)
    requires
        n <= t.len(),
        n <= u.len(),
        forall|i: int| 0 <= i < n ==> t[i] == u[i],
    ensures
        joined_upto(t, n, sep, other) == joined_upto(u, n, sep, other),
    decreases n,
{
    if n > 0 {
        lemma_joined_prefix(t, u, (n - 1) as nat, sep, other);
        assert(joined_piece(t, n - 1, sep, other) == joined_piece(u, n - 1, sep, other));
    }
}

proof fn lemma_camel_nonempty(s: Seq<char>, n: nat)
    requires
        1 <= n <= s.len(),
        !is_separator(s[0]),
    ensures
        camel_upto(s, n).len() >= 1,
    decreases n,
{
    if n > 1 {
        lemma_camel_nonempty(s, (n - 1) as nat);
    }
}

proof fn lemma_snake_of_camel(s: Seq<char>, n: nat)
    requires
        is_snake_name(s),
        1 <= n <= s.len(),
        s[n - 1] != '_',
    ensures
        snake_case(camel_upto(s, n)) == s.take(n as int),
    decreases n,
{
    let c = camel_upto(s, n);
    let x = s[n - 1];
    assert('a' <= x <= 'z' || '0' <= x <= '9');
    if n == 1 {
        assert(!is_separator(s[0]));
        assert(camel_char(s, 0) == ascii_lower(x));
        assert(ascii_lower(x) == x);
        assert(camel_upto(s, 0) == Seq::<char>::empty());
        assert(c == camel_upto(s, 0).push(camel_char(s, 0)));
        assert(c =~= Seq::<char>::empty().push(x));
        assert(c == Seq::<char>::empty().push(x));
        lemma_joined_push(Seq::<char>::empty(), x, '_', '-');
        assert(s.take(1) =~= seq![x]);
    } else if s[n - 2] != '_' {
        lemma_snake_of_camel(s, (n - 1) as nat);
        let p = camel_upto(s, (n - 1) as nat);
        assert(c == p.push(x));
        lemma_joined_push(p, x, '_', '-');
        assert(s.take(n as int) =~= s.take(n - 1).push(x));
    } else {
        assert(n - 2 >= 1);
        assert(s[n - 3] != '_');
        lemma_snake_of_camel(s, (n - 2) as nat);
        let p = camel_upto(s, (n - 2) as nat);
        assert(camel_upto(s, (n - 1) as nat) == p);
        let up = ascii_upper(x);
        assert('a' <= x <= 'z');
        assert('A' <= up <= 'Z');
        assert(ascii_lower(up) == x);
        assert(c == p.push(up));
        lemma_camel_nonempty(s, (n - 2) as nat);
        lemma_joined_push(p, up, '_', '-');
        assert(joined_piece(p.push(up), p.len() as int, '_', '-') == seq!['_', x]);
        assert(s.take(n as int) =~= s.take(n - 2) + seq!['_', x]);
    }
}

/// A lower-case snake_case name comes back from camelCase: converting it to
/// camelCase and then to snake_case gives the name again.
pub proof fn lemma_snake_of_camel_case(s: Seq<char>)
    requires
        is_snake_name(s),
    ensures
        snake_case(camel_case(s)) == s,
{
    assert(s[s.len() - 1] != '_');
    lemma_snake_of_camel(s, s.len());
    assert(s.take(s.len() as int) == s);
}

proof fn lemma_snake_ascii(s: Seq<char>, n: nat)
    requires
        n <= s.len(),
        is_ascii_text(s),
    ensures
        is_ascii_text(joined_upto(s, n, '_', '-')),
    decreases n,
{
    if n > 0 {
        lemma_snake_ascii(s, (n - 1) as nat);
        let c = s[n - 1];
        assert(c <= '\u{7f}');
        assert(ascii_lower(c) <= '\u{7f}');
        let a = joined_upto(s, (n - 1) as nat, '_', '-');
        let b = joined_piece(s, n - 1, '_', '-');
        assert forall|i: int| 0 <= i < (a + b).len() implies (a + b)[i] <= '\u{7f}' by {
            if i < a.len() {
                assert((a + b)[i] == a[i]);
            } else {
                assert((a + b)[i] == b[i - a.len()]);
            }
        }
    }
}

/// SCREAMING_SNAKE_CASE of an ASCII name is its snake_case form with `a`..=`z`
/// made upper case: the same length, every character in its place, digits and
/// `_` kept.
pub proof fn lemma_screaming_of_ascii(s: Seq<char>)
    requires
        is_ascii_text(s),
    ensures
        screaming_snake_case(s).len() == snake_case(s).len(),
        forall|i: int| 0 <= i < snake_case(s).len() ==> #[trigger] screaming_snake_case(s)[i] == ascii_upper(snake_case(s)[i]),
{
    lemma_snake_ascii(s, s.len());
}

/// Converts `s` to camelCase (`my_field` -> `myField`).
pub fn to_camel_case(s: &str) -> (r: String)
    ensures
        r@ == camel_case(s@),
{
    let cs = chars_of(s);
    let mut out: Vec<char> = Vec::new();
    let mut capitalize_next = false;
    let mut i: usize = 0;
    while i < cs.len()
        invariant
            i <= cs.len(),
            cs@ == s@,
            out@ == camel_upto(s@, i as nat),
            capitalize_next == (i > 0 && is_separator(s@[i - 1])),
        decreases cs.len() - i,
    {
        let ch = cs[i];
        if ch == '_' || ch == '-' {
            capitalize_next = true;
        } else if capitalize_next {
            out.push(to_ascii_upper(ch));
            capitalize_next = false;
        } else if i == 0 {
            out.push(to_ascii_lower(ch));
        } else {
            out.push(ch);
        }
        i = i + 1;
    }
    string_from_chars(out.as_slice())
}

/// Converts `s` to PascalCase (`my_field` -> `MyField`).
pub fn to_pascal_case(s: &str) -> (r: String)
    ensures
        r@ == pascal_case(s@),
{
    let cs = chars_of(s);
    let mut out: Vec<char> = Vec::new();
    let mut capitalize_next = true;
    let mut i: usize = 0;
    while i < cs.len()
        invariant
            i <= cs.len(),
            cs@ == s@,
            out@ == pascal_upto(s@, i as nat),
            capitalize_next == (i == 0 || is_separator(s@[i - 1])),
        decreases cs.len() - i,
    {
        let ch = cs[i];
        if ch == '_' || ch == '-' {
            capitalize_next = true;
        } else if capitalize_next {
            out.push(to_ascii_upper(ch));
            capitalize_next = false;
        } else {
            out.push(ch);
        }
        i = i + 1;
    }
    string_from_chars(out.as_slice())
}

/// Lower-cases `s` and joins its words with `sep`; `other` is the joiner that
/// `sep` replaces.
fn to_joined_case(s: &str, sep: char, other: char) -> (r: String)
    ensures
        r@ == joined_upto(s@, s@.len(), sep, other),
{
    let cs = chars_of(s);
    let mut out: Vec<char> = Vec::new();
    let mut i: usize = 0;
    while i < cs.len()
        invariant
            i <= cs.len(),
            cs@ == s@,
            out@ == joined_upto(s@, i as nat, sep, other),
        decreases cs.len() - i,
    {
        let ch = cs[i];
        if is_uppercase(ch) && i > 0 {
            out.push(sep);
            out.push(to_ascii_lower(ch));
        } else if ch == other {
            out.push(sep);
        } else {
            out.push(to_ascii_lower(ch));
        }
        i = i + 1;
    }
    string_from_chars(out.as_slice())
}

/// Converts `s` to snake_case (`myField` -> `my_field`).
pub fn to_snake_case(s: &str) -> (r: String)
    ensures
        r@ == snake_case(s@),
{
    to_joined_case(s, '_', '-')
}

/// Converts `s` to kebab-case (`my_field` -> `my-field`).
pub fn to_kebab_case(s: &str) -> (r: String)
    ensures
        r@ == kebab_case(s@),
{
    to_joined_case(s, '-', '_')
}

/// Converts `s` to SCREAMING_SNAKE_CASE (`my_field` -> `MY_FIELD`).
pub fn to_screaming_snake_case(s: &str) -> (r: String)
    ensures
        r@ == screaming_snake_case(s@),
{
    let snake = to_snake_case(s);
    to_uppercase(snake.as_str())
}

/// How field names are turned into keys.
#[derive(Clone, Copy, Debug, PartialEq, Eq, Structural)]
pub enum NamingStrategy {
    /// Keep field names as they are (my_field -> my_field)
    Identity,
    /// Convert to camelCase (my_field -> myField)
    CamelCase,
    /// Convert to PascalCase (my_field -> MyField)
    PascalCase,
    /// Convert to snake_case (myField -> my_field)
    SnakeCase,
    /// Convert to kebab-case (my_field -> my-field)
    KebabCase,
    /// Convert to SCREAMING_SNAKE_CASE (my_field -> MY_FIELD)
    ScreamingSnakeCase,
}

impl NamingStrategy {
    /// The key that this strategy gives the field name `name`.
    pub open spec fn rename(self, name: Seq<char>) -> Seq<char> {
        match self {
            NamingStrategy::Identity => name,
            NamingStrategy::CamelCase => camel_case(name),
            NamingStrategy::PascalCase => pascal_case(name),
            NamingStrategy::SnakeCase => snake_case(name),
            NamingStrategy::KebabCase => kebab_case(name),
            NamingStrategy::ScreamingSnakeCase => screaming_snake_case(name),
        }
    }

    /// Applies the strategy to a field name.
    pub fn apply(&self, name: &str) -> (r: String)
        ensures
            r@ == self.rename(name@),
    {
        match self {
            NamingStrategy::Identity => name.to_string(),
            NamingStrategy::CamelCase => to_camel_case(name),
            NamingStrategy::PascalCase => to_pascal_case(name),
            NamingStrategy::SnakeCase => to_snake_case(name),
            NamingStrategy::KebabCase => to_kebab_case(name),
            NamingStrategy::ScreamingSnakeCase => to_screaming_snake_case(name),
        }
    }
}


/// How a configuration is written and merged.
#[derive(Debug, Clone)]
pub struct ConfigOptions {
    pub naming_strategy: NamingStrategy,
    pub field_order: FieldOrder,
    /// Remove orphaned fields (fields that exist in file but not in struct)
    pub remove_orphans: bool,
}

impl Default for ConfigOptions {
    fn default() -> (r: Self)
        ensures
            r.naming_strategy == NamingStrategy::Identity,
            r.field_order == FieldOrder::Declaration,
            !r.remove_orphans,
    {
        ConfigOptions {
            naming_strategy: NamingStrategy::Identity,
            field_order: FieldOrder::Declaration,
            remove_orphans: false,
        }
    }
}

} // verus!
