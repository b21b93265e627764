//! Character-sequence helpers: lexicographic order of identifiers and
//! string building with exact contracts.

use vstd::prelude::*;
use vstd::string::*;

verus! {

/// Three-way result of comparing two values.
#[derive(Debug, Clone, Copy, PartialEq, Eq, Structural)]
pub enum PathOrder {
    Less,
    Equal,
    Greater,
}

impl PathOrder {
    /// The order seen from the other side.
    pub open spec fn flip(self) -> PathOrder {
        match self {
            PathOrder::Less => PathOrder::Greater,
            PathOrder::Equal => PathOrder::Equal,
            PathOrder::Greater => PathOrder::Less,
        }
    }
}

/// Lexicographic order of two character sequences, by code point.
///
/// For strings this is the order of `str`'s own comparison: UTF-8 keeps
/// the order of code points, so comparing the bytes and comparing the
/// characters give the same answer.
pub open spec fn lex_order(a: Seq<char>, b: Seq<char>) -> PathOrder
    decreases a.len(),
{
    if a.len() == 0 {
        if b.len() == 0 {
            PathOrder::Equal
        } else {
            PathOrder::Less
        }
    } else if b.len() == 0 {
        PathOrder::Greater
    } else if (a[0] as int) < (b[0] as int) {
        PathOrder::Less
    } else if a[0] == b[0] {
        lex_order(a.drop_first(), b.drop_first())
    } else {
        PathOrder::Greater
    }
}

/// `lex_order` is `Equal` exactly on equal sequences.
pub proof fn lemma_lex_order_equal(a: Seq<char>, b: Seq<char>)
    ensures
        (lex_order(a, b) == PathOrder::Equal) <==> (a == b),
    decreases a.len(),
{
    if a.len() > 0 && b.len() > 0 {
        lemma_lex_order_equal(a.drop_first(), b.drop_first());
        if a[0] == b[0] && a.drop_first() == b.drop_first() {
            assert(a =~= seq![a[0]] + a.drop_first());
            assert(b =~= seq![b[0]] + b.drop_first());
        }
        if a == b {
            assert(a.drop_first() == b.drop_first());
        }
    } else if a.len() == 0 && b.len() == 0 {
        assert(a =~= b);
    }
}

/// Swapping the arguments flips the result.
pub proof fn lemma_lex_order_flip(a: Seq<char>, b: Seq<char>)
    ensures
        lex_order(b, a) == lex_order(a, b).flip(),
    decreases a.len(),
{
    if a.len() > 0 && b.len() > 0 {
        lemma_lex_order_flip(a.drop_first(), b.drop_first());
        if a[0] != b[0] {
            assert((a[0] as int) != (b[0] as int));
        }
    }
}

/// `lex_order` is transitive on `Less`.
pub proof fn lemma_lex_order_trans(a: Seq<char>, b: Seq<char>, c: Seq<char>)
    requires
        lex_order(a, b) == PathOrder::Less,
        lex_order(b, c) == PathOrder::Less,
    ensures
        lex_order(a, c) == PathOrder::Less,
    decreases a.len(),
{
    if a.len() > 0 && b.len() > 0 && c.len() > 0 {
        if a[0] == b[0] && b[0] == c[0] {
            lemma_lex_order_trans(a.drop_first(), b.drop_first(), c.drop_first());
        }
    }
}

/// Compares two strings in the order of `lex_order`.
pub fn str_order(a: &str, b: &str) -> (r: PathOrder)
    ensures
        r == lex_order(a@, b@),
{
    let la = a.unicode_len();
    let lb = b.unicode_len();
    let mut i: usize = 0;
    assert(a@.skip(0) =~= a@);
    assert(b@.skip(0) =~= b@);
    while i < la && i < lb
        invariant
            la == a@.len(),
            lb == b@.len(),
            i <= la,
            i <= lb,
            lex_order(a@, b@) == lex_order(a@.skip(i as int), b@.skip(i as int)),
        decreases la - i,
    {
        let ca = a.get_char(i);
        let cb = b.get_char(i);
        let ghost sa = a@.skip(i as int);
        let ghost sb = b@.skip(i as int);
        assert(sa[0] == ca);
        assert(sb[0] == cb);
        if (ca as u32) < (cb as u32) {
            return PathOrder::Less;
        } else if ca != cb {
            return PathOrder::Greater;
        }
        assert(sa.drop_first() =~= a@.skip(i + 1));
        assert(sb.drop_first() =~= b@.skip(i + 1));
        i = i + 1;
    }
    if i < la {
        PathOrder::Greater
    } else if i < lb {
        PathOrder::Less
    } else {
        PathOrder::Equal
    }
}

/// Joins `parts` with `sep` between consecutive parts.
pub open spec fn join_with(parts: Seq<Seq<char>>, sep: Seq<char>) -> Seq<char>
    decreases parts.len(),
{
    if parts.len() == 0 {
        Seq::empty()
    } else if parts.len() == 1 {
        parts[0]
    } else {
        join_with(parts.drop_last(), sep) + sep + parts.last()
    }
}

/// Appends `t` to `s`.
pub fn push_text(s: &mut String, t: &str)
    ensures
        final(s)@ == old(s)@ + t@,
{
    s.append(t);
}

/// A fresh string holding the characters of `t`.
pub fn text_of(t: &str) -> (r: String)
    ensures
        r@ == t@,
{
    String::from_str(t)
}

/// Two strings hold the same characters.
pub fn same_text(a: &str, b: &str) -> (r: bool)
    ensures
        r == (a@ == b@),
{
    proof {
        lemma_lex_order_equal(a@, b@);
    }
    match str_order(a, b) {
        PathOrder::Equal => true,
        _ => false,
    }
}

/// Whether a character has the Unicode `Uppercase` property, as `char::is_uppercase`
/// decides it.
pub uninterp spec fn char_is_uppercase(c: char) -> bool;

/// Calls `char::is_uppercase`. Its contract names the answer, and states
/// it for the characters of ASCII identifiers: the letters `A` to `Z` carry
/// the `Uppercase` property; `a` to `z`, the digits and `_` do not. The rest
/// of the Unicode tables is not restated here.
#[verifier::external_body]
pub(crate) fn is_uppercase_char(c: char) -> (r: bool)
    ensures
        r == char_is_uppercase(c),
        0x41 <= (c as u32) <= 0x5A ==> r,
        (0x61 <= (c as u32) <= 0x7A || 0x30 <= (c as u32) <= 0x39 || c == '_') ==> !r,
{
    c.is_uppercase()
}

/// An identifier is PascalCase when its first character is uppercase.
pub open spec fn pascal_case(s: Seq<char>) -> bool {
    s.len() > 0 && char_is_uppercase(s[0])
}

/// Whether the identifier starts with an uppercase character.
pub fn is_pascal_case(ident: &str) -> (r: bool)
    ensures
        r == pascal_case(ident@),
{
    if ident.unicode_len() == 0 {
        false
    } else {
        is_uppercase_char(ident.get_char(0))
    }
}

} // verus!
