//! Collation of path strings for completion menus.
//!
//! Paths are ordered case-insensitively first (by their Unicode lowercase
//! mapping, compared code point by code point); strings whose lowercase forms
//! agree are then ordered case-sensitively, with ASCII lowercase letters
//! ahead of every other character.  This approximates the default ICU
//! collation used by browsers for mostly-ASCII paths.

use vstd::prelude::*;
use crate::text::{chars_of, lowercase, lowercase_exec};

verus! {

/// ASCII lowercase letter.
pub open spec fn is_ascii_lower(c: char) -> bool {
    'a' <= c && c <= 'z'
}

/// Code point order of two characters: -1, 0 or 1.
pub open spec fn code_order(c: char, d: char) -> int {
    if c == d {
        0
    } else if (c as int) < (d as int) {
        -1
    } else {
        1
    }
}

/// Tie-break order of two characters: ASCII lowercase letters sort before
/// everything else; otherwise code point order.
pub open spec fn case_order(c: char, d: char) -> int {
    if c == d {
        0
    } else if is_ascii_lower(c) && !is_ascii_lower(d) {
        -1
    } else if !is_ascii_lower(c) && is_ascii_lower(d) {
        1
    } else {
        code_order(c, d)
    }
}

/// Character order used by [`lex_order`]: the tie-break order when
/// `case_first`, plain code point order otherwise.
pub open spec fn char_order(c: char, d: char, case_first: bool) -> int {
    if case_first {
        case_order(c, d)
    } else {
        code_order(c, d)
    }
}

/// Lexicographic order of two character sequences (a proper prefix sorts
/// first): -1, 0 or 1.
pub open spec fn lex_order(a: Seq<char>, b: Seq<char>, case_first: bool) -> int
    decreases a.len(),
{
    if a.len() == 0 {
        if b.len() == 0 {
            0
        } else {
            -1
        }
    } else if b.len() == 0 {
        1
    } else if a[0] != b[0] {
        char_order(a[0], b[0], case_first)
    } else {
        lex_order(a.drop_first(), b.drop_first(), case_first)
    }
}

/// The collation order of two strings: their lowercase forms compared by
/// code point, then the strings themselves compared with the tie-break order.
pub open spec fn locale_order(a: Seq<char>, b: Seq<char>) -> int {
    let folded = lex_order(lowercase(a), lowercase(b), false);
    if folded != 0 {
        folded
    } else {
        lex_order(a, b, true)
    }
}

/// The `Ordering` that a -1/0/1 order value stands for.
pub open spec fn ordering_of(x: int) -> core::cmp::Ordering {
    if x < 0 {
        core::cmp::Ordering::Less
    } else if x == 0 {
        core::cmp::Ordering::Equal
    } else {
        core::cmp::Ordering::Greater
    }
}

fn char_order_exec(c: char, d: char, case_first: bool) -> (r: i8)
    ensures
        r as int == char_order(c, d, case_first),
{
    let lc = 'a' <= c && c <= 'z';
    let ld = 'a' <= d && d <= 'z';
    if c == d {
        0
    } else if case_first && lc && !ld {
        -1
    } else if case_first && !lc && ld {
        1
    } else if (c as u32) < (d as u32) {
        -1
    } else {
        1
    }
}

/// Lexicographic order of two character vectors.
pub fn lex_order_exec(a: &Vec<char>, b: &Vec<char>, case_first: bool) -> (r: i8)
    ensures
        r as int == lex_order(a@, b@, case_first),
{
    let mut i: usize = 0;
    assert(a@.skip(0) =~= a@ && b@.skip(0) =~= b@);
    while i < a.len() && i < b.len()
        invariant
            i <= a.len(),
            i <= b.len(),
            lex_order(a@, b@, case_first) == lex_order(a@.skip(i as int), b@.skip(i as int), case_first),
        decreases a.len() - i,
    {
        let ghost sa = a@.skip(i as int);
        let ghost sb = b@.skip(i as int);
        assert(sa[0] == a@[i as int] && sb[0] == b@[i as int]);
        if a[i] != b[i] {
            return char_order_exec(a[i], b[i], case_first);
        }
        assert(sa.drop_first() =~= a@.skip(i + 1));
        assert(sb.drop_first() =~= b@.skip(i + 1));
        i += 1;
    }
    if i == a.len() && i == b.len() {
        0
    } else if i == a.len() {
        -1
    } else {
        1
    }
}

/// Collation order of two character vectors: -1, 0 or 1.
pub fn locale_order_exec(a: &Vec<char>, b: &Vec<char>) -> (r: i8)
    ensures
        r as int == locale_order(a@, b@),
{
    let la = lowercase_exec(a);
    let lb = lowercase_exec(b);
    let folded = lex_order_exec(&la, &lb, false);
    if folded != 0 {
        folded
    } else {
        lex_order_exec(a, b, true)
    }
}

/// Compares two strings in collation order: case-insensitively first, then
/// with ASCII lowercase letters ahead of everything else.
pub fn locale_compare_default(a: &str, b: &str) -> (r: core::cmp::Ordering)
    ensures
        r == ordering_of(locale_order(a@, b@)),
{
    let va = chars_of(a);
    let vb = chars_of(b);
    let o = locale_order_exec(&va, &vb);
    if o < 0 {
        core::cmp::Ordering::Less
    } else if o == 0 {
        core::cmp::Ordering::Equal
    } else {
        core::cmp::Ordering::Greater
    }
}

// ---------------------------------------------------------------------------
// Order laws
// ---------------------------------------------------------------------------

proof fn lemma_char_order(x: char, y: char, z: char, case_first: bool)
    ensures
        char_order(x, y, case_first) == -char_order(y, x, case_first),
        char_order(x, y, case_first) == 0 <==> x == y,
        -1 <= char_order(x, y, case_first) <= 1,
        char_order(x, y, case_first) < 0 && char_order(y, z, case_first) < 0 ==> char_order(
            x,
            z,
            case_first,
        ) < 0,
{
}

proof fn lemma_lex_antisymmetric(a: Seq<char>, b: Seq<char>, case_first: bool)
    ensures
        lex_order(a, b, case_first) == -lex_order(b, a, case_first),
        -1 <= lex_order(a, b, case_first) <= 1,
    decreases a.len(),
{
    if a.len() > 0 && b.len() > 0 {
        lemma_char_order(a[0], b[0], a[0], case_first);
        if a[0] == b[0] {
            lemma_lex_antisymmetric(a.drop_first(), b.drop_first(), case_first);
        }
    }
}

proof fn lemma_lex_zero(a: Seq<char>, b: Seq<char>, case_first: bool)
    ensures
        lex_order(a, b, case_first) == 0 <==> a == b,
    decreases a.len(),
{
    if a.len() == 0 && b.len() == 0 {
        assert(a =~= b);
    }
    if a.len() > 0 && b.len() > 0 {
        lemma_char_order(a[0], b[0], a[0], case_first);
        if a[0] == b[0] {
            lemma_lex_zero(a.drop_first(), b.drop_first(), case_first);
            if a.drop_first() == b.drop_first() {
                assert(a =~= seq![a[0]] + a.drop_first());
                assert(b =~= seq![b[0]] + b.drop_first());
            }
            if a == b {
                assert(a.drop_first() == b.drop_first());
            }
        }
    }
}

proof fn lemma_lex_transitive(a: Seq<char>, b: Seq<char>, c: Seq<char>, case_first: bool)
    requires
        lex_order(a, b, case_first) < 0,
        lex_order(b, c, case_first) < 0,
    ensures
        lex_order(a, c, case_first) < 0,
    decreases a.len(),
{
    if a.len() > 0 {
        let (x, y, z) = (a[0], b[0], c[0]);
        lemma_char_order(x, y, z, case_first);
        lemma_char_order(x, z, y, case_first);
        lemma_char_order(y, z, x, case_first);
        if x == y && y == z {
            lemma_lex_transitive(a.drop_first(), b.drop_first(), c.drop_first(), case_first);
        }
    }
}

/// The collation order is antisymmetric: comparing `b` with `a` gives the
/// opposite of comparing `a` with `b`, and the value is always -1, 0 or 1.
pub proof fn law_locale_order_antisymmetric(a: Seq<char>, b: Seq<char>)
    ensures
        locale_order(a, b) == -locale_order(b, a),
        -1 <= locale_order(a, b) <= 1,
{
    lemma_lex_antisymmetric(lowercase(a), lowercase(b), false);
    lemma_lex_antisymmetric(a, b, true);
}

/// Two strings collate as equal exactly when they are the same string.
pub proof fn law_locale_order_equal_iff_same(a: Seq<char>, b: Seq<char>)
    ensures
        locale_order(a, b) == 0 <==> a == b,
{
    lemma_lex_zero(lowercase(a), lowercase(b), false);
    lemma_lex_zero(a, b, true);
}

/// The collation order is transitive.
pub proof fn law_locale_order_transitive(a: Seq<char>, b: Seq<char>, c: Seq<char>)
    requires
        locale_order(a, b) < 0,
        locale_order(b, c) < 0,
    ensures
        locale_order(a, c) < 0,
{
    let (la, lb, lc) = (lowercase(a), lowercase(b), lowercase(c));
    lemma_lex_antisymmetric(la, lb, false);
    lemma_lex_antisymmetric(lb, lc, false);
    lemma_lex_zero(la, lb, false);
    lemma_lex_zero(lb, lc, false);
    lemma_lex_zero(la, lc, false);
    if lex_order(la, lb, false) < 0 && lex_order(lb, lc, false) < 0 {
        lemma_lex_transitive(la, lb, lc, false);
    } else if lex_order(la, lb, false) == 0 && lex_order(lb, lc, false) == 0 {
        lemma_lex_transitive(a, b, c, true);
    }
}

} // verus!
