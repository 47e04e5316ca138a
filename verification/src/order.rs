//! The order in which keys are written.

use std::cmp::Ordering;
use vstd::prelude::*;

use crate::text::chars_of;

verus! {

/// The lexicographic order of `a` and `b` by character code points, as -1, 0
/// or 1. Strings order this way by their UTF-8 bytes too.
pub open spec fn lex_order(a: Seq<char>, b: Seq<char>) -> int
    decreases a.len(),
{
    if a.len() == 0 {
        if b.len() == 0 {
            0
        } else {
            -1
        }
    } else if b.len() == 0 {
        1
    } else if a[0] < b[0] {
        -1
    } else if a[0] > b[0] {
        1
    } else {
        lex_order(a.drop_first(), b.drop_first())
    }
}

proof fn lemma_lex_skip(a: Seq<char>, b: Seq<char>, i: int)
    requires
        0 <= i <= a.len(),
        i <= b.len(),
        forall|j: int| 0 <= j < i ==> a[j] == b[j],
    ensures
        lex_order(a, b) == lex_order(a.skip(i), b.skip(i)),
    decreases i,
{
    if i > 0 {
        lemma_lex_skip(a.drop_first(), b.drop_first(), i - 1);
        assert(a.drop_first().skip(i - 1) == a.skip(i));
        assert(b.drop_first().skip(i - 1) == b.skip(i));
        assert(a.skip(0) == a);
        assert(b.skip(0) == b);
    } else {
        assert(a.skip(0) == a);
        assert(b.skip(0) == b);
    }
}

/// How two keys of a configuration are ordered.
#[derive(Clone, Copy, Debug, PartialEq, Eq, Structural)]
pub enum FieldOrder {
    /// Keep declaration order from the struct
    Declaration,
    /// Sort fields alphabetically
    Alphabetical,
    /// Sort fields in reverse alphabetical order
    AlphabeticalReverse,
}

impl FieldOrder {
    /// Where `a` stands relative to `b` under this order: negative before,
    /// zero level, positive after.
    pub open spec fn relation(self, a: Seq<char>, b: Seq<char>) -> int {
        match self {
            FieldOrder::Declaration => 0,
            FieldOrder::Alphabetical => lex_order(a, b),
            FieldOrder::AlphabeticalReverse => lex_order(b, a),
        }
    }

    /// Compares two keys under this order.
    pub fn compare(&self, a: &str, b: &str) -> (r: Ordering)
        ensures
            (r == Ordering::Less) == (self.relation(a@, b@) < 0),
            (r == Ordering::Equal) == (self.relation(a@, b@) == 0),
            (r == Ordering::Greater) == (self.relation(a@, b@) > 0),
    {
        match self {
            FieldOrder::Declaration => Ordering::Equal,
            FieldOrder::Alphabetical => lex_compare_str(a, b),
            FieldOrder::AlphabeticalReverse => lex_compare_str(b, a),
        }
    }
}

/// The lexicographic comparison of `a` and `b` (as `Ord` for `str` compares).
pub fn lex_compare_str(a: &str, b: &str) -> (r: Ordering)
    ensures
        (r == Ordering::Less) == (lex_order(a@, b@) < 0),
        (r == Ordering::Equal) == (lex_order(a@, b@) == 0),
        (r == Ordering::Greater) == (lex_order(a@, b@) > 0),
{
    let x = chars_of(a);
    let y = chars_of(b);
    let r = lex_sign(&x, &y);
    if r < 0 {
        Ordering::Less
    } else if r == 0 {
        Ordering::Equal
    } else {
        Ordering::Greater
    }
}


/// The lexicographic order of `a` and `b`: -1, 0 or 1.
pub fn lex_sign(a: &Vec<char>, b: &Vec<char>) -> (r: i8)
    ensures
        r == lex_order(a@, b@),
{
    let mut i: usize = 0;
    while i < a.len() && i < b.len()
        invariant
            i <= a.len(),
            i <= b.len(),
            forall|j: int| 0 <= j < i ==> a@[j] == b@[j],
        decreases a.len() - i,
    {
        if a[i] != b[i] {
            proof {
                lemma_lex_skip(a@, b@, i as int);
                assert(a@.skip(i as int)[0] == a@[i as int]);
                assert(b@.skip(i as int)[0] == b@[i as int]);
            }
            if a[i] < b[i] {
                return -1;
            } else {
                return 1;
            }
        }
        i = i + 1;
    }
    proof {
        lemma_lex_skip(a@, b@, i as int);
    }
    if i < a.len() {
        1
    } else if i < b.len() {
        -1
    } else {
        0
    }
}


/// Lexicographic order: every string is level with itself, the order of two
/// strings is the opposite of their order read the other way round, and level
/// strings are equal.
pub proof fn lemma_lex_order_basics(a: Seq<char>, b: Seq<char>)
    ensures
        lex_order(a, a) == 0,
        lex_order(a, b) == -lex_order(b, a),
        -1 <= lex_order(a, b) <= 1,
        lex_order(a, b) == 0 <==> a == b,
    decreases a.len(),
{
    if a.len() > 0 {
        lemma_lex_order_basics(a.drop_first(), a.drop_first());
    }
    if a.len() > 0 && b.len() > 0 {
        lemma_lex_order_basics(a.drop_first(), b.drop_first());
        if a[0] == b[0] && lex_order(a, b) == 0 {
            assert(a.drop_first() == b.drop_first());
            assert(a == seq![a[0]] + a.drop_first());
            assert(b == seq![b[0]] + b.drop_first());
        }
    } else if a.len() == 0 && b.len() == 0 {
        assert(a == b);
    }
}

/// Lexicographic order is transitive.
pub proof fn lemma_lex_order_transitive(a: Seq<char>, b: Seq<char>, c: Seq<char>)
    requires
        lex_order(a, b) <= 0,
        lex_order(b, c) <= 0,
    ensures
        lex_order(a, c) <= 0,
    decreases a.len(),
{
    if a.len() > 0 && b.len() > 0 && c.len() > 0 {
        if a[0] == b[0] && b[0] == c[0] {
            lemma_lex_order_transitive(a.drop_first(), b.drop_first(), c.drop_first());
        }
    }
}

} // verus!
