//! Character-sequence helpers shared by the string-processing modules.
//!
//! Strings are modelled by their `Seq<char>` view; these functions move
//! between `&str`/`String` and `Vec<char>` and provide the small scanning
//! primitives (trim, prefix test, search) that the rest of the crate uses.

use vstd::prelude::*;

verus! {

broadcast use vstd::string::group_string_axioms;

/// Unicode `White_Space` property (what `char::is_whitespace` and regex `\s` test).
pub open spec fn is_ws(c: char) -> bool {
    ||| ('\u{9}' <= c && c <= '\u{d}')
    ||| c == ' '
    ||| c == '\u{85}'
    ||| c == '\u{a0}'
    ||| c == '\u{1680}'
    ||| ('\u{2000}' <= c && c <= '\u{200a}')
    ||| c == '\u{2028}'
    ||| c == '\u{2029}'
    ||| c == '\u{202f}'
    ||| c == '\u{205f}'
    ||| c == '\u{3000}'
}

pub fn is_ws_exec(c: char) -> (b: bool)
    ensures b == is_ws(c),
{
    ('\u{9}' <= c && c <= '\u{d}') || c == ' ' || c == '\u{85}' || c == '\u{a0}'
        || c == '\u{1680}' || ('\u{2000}' <= c && c <= '\u{200a}') || c == '\u{2028}'
        || c == '\u{2029}' || c == '\u{202f}' || c == '\u{205f}' || c == '\u{3000}'
}

/// The characters of a string slice, in order.
pub fn chars_of(s: &str) -> (v: Vec<char>)
    ensures
        v@ == s@,
{
    let mut v: Vec<char> = Vec::new();
    for c in it: s.chars()
        invariant
            it.seq() == s@,
            v@ == it.seq().take(it.index() as int),
    {
        v.push(c);
    }
    v
}

/// `String::push`: the string with `c` appended.
#[verifier::external_body]
fn push_char(s: &mut String, c: char)
    ensures
        final(s)@ == old(s)@.push(c),
{
    s.push(c);
}

/// The string made of the given characters.
pub fn string_of(v: &[char]) -> (s: String)
    ensures
        s@ == v@,
{
    let mut s = String::new();
    for i in 0..v.len()
        invariant
            s@ == v@.take(i as int),
    {
        push_char(&mut s, v[i]);
        assert(v@.take(i + 1) == v@.take(i as int).push(v@[i as int]));
    }
    assert(v@.take(v@.len() as int) == v@);
    s
}


/// `p` is a prefix of `s`.
pub open spec fn starts_with(s: Seq<char>, p: Seq<char>) -> bool {
    p.len() <= s.len() && s.take(p.len() as int) == p
}

/// Index of the first `c` in `s` at or after `i`.
pub open spec fn find_char_from(s: Seq<char>, c: char, i: int) -> Option<int>
    decreases s.len() - i,
{
    if i < 0 || i >= s.len() {
        None
    } else if s[i] == c {
        Some(i)
    } else {
        find_char_from(s, c, i + 1)
    }
}

/// Index of the first `c` in `s`.
pub open spec fn find_char(s: Seq<char>, c: char) -> Option<int> {
    find_char_from(s, c, 0)
}

/// Index of the first occurrence of `p` in `s` at or after `i`.
pub open spec fn find_sub_from(s: Seq<char>, p: Seq<char>, i: int) -> Option<int>
    decreases s.len() + 1 - i,
{
    if i < 0 || i + p.len() > s.len() {
        None
    } else if s.subrange(i, i + p.len()) == p {
        Some(i)
    } else {
        find_sub_from(s, p, i + 1)
    }
}

/// Index of the first occurrence of `p` in `s`.
pub open spec fn find_sub(s: Seq<char>, p: Seq<char>) -> Option<int> {
    find_sub_from(s, p, 0)
}

/// `s` without its leading whitespace.
pub open spec fn trim_start(s: Seq<char>) -> Seq<char>
    decreases s.len(),
{
    if s.len() > 0 && is_ws(s[0]) {
        trim_start(s.drop_first())
    } else {
        s
    }
}

/// `s` without its trailing whitespace.
pub open spec fn trim_end(s: Seq<char>) -> Seq<char>
    decreases s.len(),
{
    if s.len() > 0 && is_ws(s.last()) {
        trim_end(s.drop_last())
    } else {
        s
    }
}

/// `s` without leading and trailing whitespace (`str::trim`).
pub open spec fn trim(s: Seq<char>) -> Seq<char> {
    trim_end(trim_start(s))
}

/// `s` without any trailing `c` (`str::trim_end_matches(c)`).
pub open spec fn trim_end_char(s: Seq<char>, c: char) -> Seq<char>
    decreases s.len(),
{
    if s.len() > 0 && s.last() == c {
        trim_end_char(s.drop_last(), c)
    } else {
        s
    }
}

/// The pieces of `s` between occurrences of `c` (`str::split(c)`).
pub open spec fn split_char(s: Seq<char>, c: char) -> Seq<Seq<char>>
    decreases s.len(),
{
    if s.len() == 0 {
        seq![Seq::<char>::empty()]
    } else {
        let pre = split_char(s.drop_last(), c);
        if s.last() == c {
            pre.push(Seq::<char>::empty())
        } else {
            pre.update(pre.len() - 1, pre.last().push(s.last()))
        }
    }
}

pub proof fn lemma_split_char_nonempty(s: Seq<char>, c: char)
    ensures
        split_char(s, c).len() >= 1,
    decreases s.len(),
{
    if s.len() > 0 {
        lemma_split_char_nonempty(s.drop_last(), c);
    }
}

pub open spec fn is_digit(c: char) -> bool {
    '0' <= c && c <= '9'
}

pub open spec fn digit_value(c: char) -> int {
    (c as int) - ('0' as int)
}

pub open spec fn all_digits(s: Seq<char>) -> bool {
    forall|i: int| 0 <= i < s.len() ==> is_digit(#[trigger] s[i])
}

/// Decimal value of a digit sequence.
pub open spec fn digits_value(s: Seq<char>) -> int
    decreases s.len(),
{
    if s.len() == 0 {
        0
    } else {
        digits_value(s.drop_last()) * 10 + digit_value(s.last())
    }
}

pub proof fn lemma_digits_value_nonneg(s: Seq<char>)
    requires
        all_digits(s),
    ensures
        digits_value(s) >= 0,
    decreases s.len(),
{
    if s.len() > 0 {
        lemma_digits_value_nonneg(s.drop_last());
    }
}

/// `i64::from_str`: optional sign, then one or more ASCII digits, in range.
pub open spec fn parse_i64(s: Seq<char>) -> Option<int> {
    let neg = s.len() > 0 && s[0] == '-';
    let signed = s.len() > 0 && (s[0] == '-' || s[0] == '+');
    let d = if signed {
        s.drop_first()
    } else {
        s
    };
    if d.len() == 0 || !all_digits(d) {
        None
    } else {
        let v = if neg {
            -digits_value(d)
        } else {
            digits_value(d)
        };
        if i64::MIN <= v && v <= i64::MAX {
            Some(v)
        } else {
            None
        }
    }
}

/// Copy of `v[from..to]`.
pub fn sub_vec(v: &Vec<char>, from: usize, to: usize) -> (r: Vec<char>)
    requires
        from <= to <= v.len(),
    ensures
        r@ == v@.subrange(from as int, to as int),
{
    let mut r: Vec<char> = Vec::new();
    let mut i: usize = from;
    while i < to
        invariant
            from <= i <= to <= v.len(),
            r@ == v@.subrange(from as int, i as int),
        decreases to - i,
    {
        r.push(v[i]);
        i += 1;
    }
    r
}

/// Prefix test.
pub fn has_prefix(s: &Vec<char>, p: &Vec<char>) -> (b: bool)
    ensures
        b == starts_with(s@, p@),
{
    if p.len() > s.len() {
        return false;
    }
    let mut i: usize = 0;
    while i < p.len()
        invariant
            p.len() <= s.len(),
            i <= p.len(),
            forall|j: int| 0 <= j < i ==> s@[j] == p@[j],
        decreases p.len() - i,
    {
        if s[i] != p[i] {
            assert(s@.take(p@.len() as int)[i as int] != p@[i as int]);
            return false;
        }
        i += 1;
    }
    assert(s@.take(p@.len() as int) =~= p@);
    true
}

/// Exact equality of character vectors.
pub fn chars_eq(a: &Vec<char>, b: &Vec<char>) -> (r: bool)
    ensures
        r == (a@ == b@),
{
    if a.len() != b.len() {
        return false;
    }
    assert(a@ =~= a@.take(b@.len() as int));
    has_prefix(a, b)
}

/// First `c` in `s` at or after `from`.
pub fn find_char_exec(s: &Vec<char>, c: char, from: usize) -> (r: Option<usize>)
    ensures
        match r {
            Some(i) => find_char_from(s@, c, from as int) == Some(i as int),
            None => find_char_from(s@, c, from as int) is None,
        },
{
    let mut i: usize = from;
    while i < s.len()
        invariant
            from <= i,
            find_char_from(s@, c, from as int) == find_char_from(s@, c, i as int),
        decreases s.len() - i,
    {
        if s[i] == c {
            return Some(i);
        }
        i += 1;
    }
    None
}

/// Whether `s[i..i+p.len()] == p`.
pub fn matches_at(s: &Vec<char>, p: &Vec<char>, i: usize) -> (b: bool)
    requires
        i + p.len() <= s.len(),
    ensures
        b == (s@.subrange(i as int, i + p.len()) == p@),
{
    let mut k: usize = 0;
    while k < p.len()
        invariant
            i + p.len() <= s.len(),
            k <= p.len(),
            forall|j: int| 0 <= j < k ==> s@[i + j] == p@[j],
        decreases p.len() - k,
    {
        if s[i + k] != p[k] {
            assert(s@.subrange(i as int, i + p.len())[k as int] != p@[k as int]);
            return false;
        }
        k += 1;
    }
    assert(s@.subrange(i as int, i + p.len()) =~= p@);
    true
}

/// First occurrence of `p` in `s` at or after `from`.
pub fn find_sub_exec(s: &Vec<char>, p: &Vec<char>, from: usize) -> (r: Option<usize>)
    ensures
        match r {
            Some(i) => find_sub_from(s@, p@, from as int) == Some(i as int),
            None => find_sub_from(s@, p@, from as int) is None,
        },
{
    if p.len() == 0 {
        if from <= s.len() {
            assert(s@.subrange(from as int, from as int) =~= p@);
            return Some(from);
        } else {
            return None;
        }
    }
    let mut i: usize = from;
    while i < s.len() && p.len() <= s.len() - i
        invariant
            from <= i,
            p.len() >= 1,
            find_sub_from(s@, p@, from as int) == find_sub_from(s@, p@, i as int),
        decreases s.len() + 1 - i,
    {
        if matches_at(s, p, i) {
            return Some(i);
        }
        i += 1;
    }
    None
}

proof fn lemma_trim_start_skip(s: Seq<char>, i: int)
    requires
        0 <= i <= s.len(),
        forall|j: int| 0 <= j < i ==> is_ws(#[trigger] s[j]),
        i == s.len() || !is_ws(s[i]),
    ensures
        trim_start(s) == s.skip(i),
    decreases i,
{
    if i == 0 {
        assert(s.skip(0) == s);
    } else {
        let t = s.drop_first();
        assert forall|j: int| 0 <= j < i - 1 implies is_ws(#[trigger] t[j]) by {
            assert(t[j] == s[j + 1]);
        }
        if i - 1 < t.len() {
            assert(t[i - 1] == s[i]);
        }
        lemma_trim_start_skip(t, i - 1);
        assert(t.skip(i - 1) =~= s.skip(i));
    }
}

proof fn lemma_trim_end_take(s: Seq<char>, k: int)
    requires
        0 <= k <= s.len(),
        forall|j: int| k <= j < s.len() ==> is_ws(#[trigger] s[j]),
        k == 0 || !is_ws(s[k - 1]),
    ensures
        trim_end(s) == s.take(k),
    decreases s.len() - k,
{
    if k == s.len() {
        assert(s.take(k) == s);
    } else {
        let t = s.drop_last();
        assert forall|j: int| k <= j < t.len() implies is_ws(#[trigger] t[j]) by {
            assert(t[j] == s[j]);
        }
        if k > 0 {
            assert(t[k - 1] == s[k - 1]);
        }
        lemma_trim_end_take(t, k);
        assert(t.take(k) =~= s.take(k));
    }
}

/// `str::trim` on a character vector.
pub fn trim_exec(s: &Vec<char>) -> (r: Vec<char>)
    ensures
        r@ == trim(s@),
{
    let mut i: usize = 0;
    while i < s.len() && is_ws_exec(s[i])
        invariant
            i <= s.len(),
            forall|j: int| 0 <= j < i ==> is_ws(#[trigger] s@[j]),
        decreases s.len() - i,
    {
        i += 1;
    }
    proof {
        lemma_trim_start_skip(s@, i as int);
    }
    let mut k: usize = s.len();
    while k > i && is_ws_exec(s[k - 1])
        invariant
            i <= k <= s.len(),
            forall|j: int| k <= j < s.len() ==> is_ws(#[trigger] s@[j]),
        decreases k,
    {
        k -= 1;
    }
    proof {
        let t = s@.skip(i as int);
        assert forall|j: int| k - i <= j < t.len() implies is_ws(#[trigger] t[j]) by {
            assert(t[j] == s@[i + j]);
        }
        if k > i {
            assert(t[k - i - 1] == s@[k - 1]);
        }
        lemma_trim_end_take(t, k - i);
        assert(t.take(k - i) =~= s@.subrange(i as int, k as int));
    }
    sub_vec(s, i, k)
}

/// `str::trim_end_matches(c)` on a character vector.
pub fn trim_end_char_exec(s: &Vec<char>, c: char) -> (r: Vec<char>)
    ensures
        r@ == trim_end_char(s@, c),
{
    let mut k: usize = s.len();
    assert(s@.take(k as int) =~= s@);
    while k > 0 && s[k - 1] == c
        invariant
            k <= s.len(),
            trim_end_char(s@, c) == trim_end_char(s@.take(k as int), c),
        decreases k,
    {
        proof {
            let t = s@.take(k as int);
            assert(t.drop_last() =~= s@.take(k - 1));
        }
        k -= 1;
    }
    proof {
        assert(s@.take(k as int) == trim_end_char(s@.take(k as int), c));
    }
    sub_vec(s, 0, k)
}

/// `str::split(c)` on a character vector.
pub fn split_char_exec(s: &Vec<char>, c: char) -> (r: Vec<Vec<char>>)
    ensures
        r@.map_values(|v: Vec<char>| v@) == split_char(s@, c),
{
    let mut pieces: Vec<Vec<char>> = Vec::new();
    let mut cur: Vec<char> = Vec::new();
    let mut i: usize = 0;
    assert(s@.take(0) =~= Seq::<char>::empty());
    while i < s.len()
        invariant
            i <= s.len(),
            pieces@.map_values(|v: Vec<char>| v@).push(cur@) == split_char(s@.take(i as int), c),
        decreases s.len() - i,
    {
        let ghost before = pieces@.map_values(|v: Vec<char>| v@).push(cur@);
        assert(s@.take(i + 1).drop_last() =~= s@.take(i as int));
        if s[i] == c {
            let done = cur;
            pieces.push(done);
            cur = Vec::new();
            assert(pieces@.map_values(|v: Vec<char>| v@).push(cur@) =~= before.push(
                Seq::<char>::empty(),
            ));
        } else {
            cur.push(s[i]);
            assert(pieces@.map_values(|v: Vec<char>| v@).push(cur@) =~= before.update(
                before.len() - 1,
                before.last().push(s@[i as int]),
            ));
        }
        i += 1;
    }
    assert(s@.take(s.len() as int) =~= s@);
    pieces.push(cur);
    pieces
}

/// `i64::from_str` on a character vector.
pub fn parse_i64_exec(s: &Vec<char>) -> (r: Option<i64>)
    ensures
        match r {
            Some(v) => parse_i64(s@) == Some(v as int),
            None => parse_i64(s@) is None,
        },
{
    if s.len() == 0 {
        return None;
    }
    let neg = s[0] == '-';
    let signed = s[0] == '-' || s[0] == '+';
    let start: usize = if signed { 1 } else { 0 };
    let ghost d = if signed { s@.drop_first() } else { s@ };
    assert(signed == (s@.len() > 0 && (s@[0] == '-' || s@[0] == '+')));
    assert(neg == (s@.len() > 0 && s@[0] == '-'));
    assert(d =~= s@.skip(start as int));
    if start >= s.len() {
        return None;
    }
    let cap: u128 = 9223372036854775809;
    let mut acc: u128 = 0;
    let mut i: usize = start;
    while i < s.len()
        invariant
            start <= i <= s.len(),
            d == s@.skip(start as int),
            s@.len() > 0,
            signed == (s@[0] == '-' || s@[0] == '+'),
            neg == (s@[0] == '-'),
            d == (if signed { s@.drop_first() } else { s@ }),
            all_digits(s@.subrange(start as int, i as int)),
            acc as int == if digits_value(s@.subrange(start as int, i as int)) < cap {
                digits_value(s@.subrange(start as int, i as int))
            } else {
                cap as int
            },
            cap == 9223372036854775809,
        decreases s.len() - i,
    {
        let ch = s[i];
        if !('0' <= ch && ch <= '9') {
            assert(d[i - start] == ch);
            assert(!is_digit(d[i - start]));
            assert(d.len() > 0 && !all_digits(d));
            assert(parse_i64(s@) is None);
            return None;
        }
        let ghost pre = s@.subrange(start as int, i as int);
        let ghost nxt = s@.subrange(start as int, i + 1);
        assert(nxt.drop_last() =~= pre);
        proof {
            lemma_digits_value_nonneg(pre);
        }
        let dv = (ch as u32 - '0' as u32) as u128;
        let t = acc * 10 + dv;
        acc = if t < cap { t } else { cap };
        i += 1;
    }
    assert(s@.subrange(start as int, s.len() as int) =~= d);
    if neg {
        if acc <= 9223372036854775808 {
            let m = acc as i128;
            Some((-m) as i64)
        } else {
            None
        }
    } else {
        if acc <= 9223372036854775807 {
            Some(acc as i64)
        } else {
            None
        }
    }
}


/// `u64::from_str`: an optional `+`, then one or more ASCII digits, in
/// range.
pub open spec fn parse_u64(s: Seq<char>) -> Option<int> {
    let d = if s.len() > 0 && s[0] == '+' {
        s.drop_first()
    } else {
        s
    };
    if d.len() == 0 || !all_digits(d) {
        None
    } else if digits_value(d) <= u64::MAX {
        Some(digits_value(d))
    } else {
        None
    }
}

/// `u64::from_str` on a character vector.
pub fn parse_u64_exec(s: &Vec<char>) -> (r: Option<u64>)
    ensures
        match r {
            Some(v) => parse_u64(s@) == Some(v as int),
            None => parse_u64(s@) is None,
        },
{
    if s.len() == 0 {
        return None;
    }
    let start: usize = if s[0] == '+' { 1 } else { 0 };
    let ghost d = if s@[0] == '+' { s@.drop_first() } else { s@ };
    assert(d =~= s@.skip(start as int));
    if start >= s.len() {
        return None;
    }
    let cap: u128 = 18446744073709551616;
    let mut acc: u128 = 0;
    let mut i: usize = start;
    while i < s.len()
        invariant
            start <= i <= s.len(),
            d == s@.skip(start as int),
            s@.len() > 0,
            d == (if s@[0] == '+' { s@.drop_first() } else { s@ }),
            all_digits(s@.subrange(start as int, i as int)),
            acc as int == if digits_value(s@.subrange(start as int, i as int)) < cap {
                digits_value(s@.subrange(start as int, i as int))
            } else {
                cap as int
            },
            cap == 18446744073709551616,
        decreases s.len() - i,
    {
        let ch = s[i];
        if !('0' <= ch && ch <= '9') {
            assert(d[i - start] == ch);
            assert(!is_digit(d[i - start]));
            assert(d.len() > 0 && !all_digits(d));
            return None;
        }
        let ghost pre = s@.subrange(start as int, i as int);
        let ghost nxt = s@.subrange(start as int, i + 1);
        assert(nxt.drop_last() =~= pre);
        proof {
            lemma_digits_value_nonneg(pre);
        }
        let dv = (ch as u32 - '0' as u32) as u128;
        let t = acc * 10 + dv;
        acc = if t < cap { t } else { cap };
        i += 1;
    }
    assert(s@.subrange(start as int, s.len() as int) =~= d);
    if acc < cap {
        Some(acc as u64)
    } else {
        None
    }
}

pub proof fn lemma_find_char_from(s: Seq<char>, c: char, i: int)
    ensures
        match find_char_from(s, c, i) {
            Some(k) => i <= k < s.len() && s[k] == c && 0 <= i && forall|j: int|
                i <= j < k ==> s[j] != c,
            None => forall|j: int| 0 <= i <= j < s.len() ==> s[j] != c,
        },
    decreases s.len() - i,
{
    if i < 0 || i >= s.len() {
    } else if s[i] == c {
    } else {
        lemma_find_char_from(s, c, i + 1);
    }
}

pub proof fn lemma_find_sub_from(s: Seq<char>, p: Seq<char>, i: int)
    ensures
        match find_sub_from(s, p, i) {
            Some(k) => 0 <= i <= k && k + p.len() <= s.len() && s.subrange(k, k + p.len()) == p,
            None => true,
        },
    decreases s.len() + 1 - i,
{
    if i < 0 || i + p.len() > s.len() {
    } else if s.subrange(i, i + p.len()) == p {
    } else {
        lemma_find_sub_from(s, p, i + 1);
    }
}


/// `s` with every `from` replaced by `to`.
pub open spec fn replace_char(s: Seq<char>, from: char, to: char) -> Seq<char> {
    s.map_values(|c: char| if c == from { to } else { c })
}

/// Index of the last `c` in `s`.
pub open spec fn rfind_char(s: Seq<char>, c: char) -> Option<int>
    decreases s.len(),
{
    if s.len() == 0 {
        None
    } else if s.last() == c {
        Some(s.len() - 1)
    } else {
        rfind_char(s.drop_last(), c)
    }
}

/// The part of `s` after its last `c` (all of `s` when there is none):
/// `s.rsplit(c).next()`.
pub open spec fn after_last(s: Seq<char>, c: char) -> Seq<char> {
    match rfind_char(s, c) {
        Some(i) => s.skip(i + 1),
        None => s,
    }
}

pub proof fn lemma_rfind_char(s: Seq<char>, c: char)
    ensures
        match rfind_char(s, c) {
            Some(i) => 0 <= i < s.len() && s[i] == c && forall|j: int| i < j < s.len() ==> s[j] != c,
            None => forall|j: int| 0 <= j < s.len() ==> s[j] != c,
        },
    decreases s.len(),
{
    if s.len() > 0 && s.last() != c {
        let t = s.drop_last();
        lemma_rfind_char(t, c);
        assert forall|j: int| 0 <= j < t.len() implies t[j] == s[j] by {}
    }
}

/// Last `c` in `s`.
pub fn rfind_char_exec(s: &Vec<char>, c: char) -> (r: Option<usize>)
    ensures
        match r {
            Some(i) => rfind_char(s@, c) == Some(i as int),
            None => rfind_char(s@, c) is None,
        },
{
    let mut k: usize = s.len();
    assert(s@.take(k as int) =~= s@);
    while k > 0
        invariant
            k <= s.len(),
            rfind_char(s@, c) == rfind_char(s@.take(k as int), c),
        decreases k,
    {
        let ghost t = s@.take(k as int);
        if s[k - 1] == c {
            return Some(k - 1);
        }
        assert(t.drop_last() =~= s@.take(k - 1));
        k -= 1;
    }
    None
}

/// `s.rsplit(c).next()` on a character vector.
pub fn after_last_exec(s: &Vec<char>, c: char) -> (r: Vec<char>)
    ensures
        r@ == after_last(s@, c),
{
    proof {
        lemma_rfind_char(s@, c);
    }
    match rfind_char_exec(s, c) {
        Some(i) => {
            assert(i < s.len());
            sub_vec(s, i + 1, s.len())
        },
        None => sub_vec(s, 0, s.len()),
    }
}

/// `str::replace(from, to)` for single characters.
pub fn replace_char_exec(s: &Vec<char>, from: char, to: char) -> (r: Vec<char>)
    ensures
        r@ == replace_char(s@, from, to),
{
    let mut r: Vec<char> = Vec::new();
    let mut i: usize = 0;
    while i < s.len()
        invariant
            i <= s.len(),
            r@ == replace_char(s@.take(i as int), from, to),
        decreases s.len() - i,
    {
        let ghost before = r@;
        if s[i] == from {
            r.push(to);
        } else {
            r.push(s[i]);
        }
        assert(replace_char(s@.take(i + 1), from, to) =~= before.push(r@[i as int]));
        i += 1;
    }
    assert(s@.take(s.len() as int) =~= s@);
    r
}

/// Concatenation of two character vectors.
pub fn concat_exec(a: &Vec<char>, b: &Vec<char>) -> (r: Vec<char>)
    ensures
        r@ == a@ + b@,
{
    let mut r = sub_vec(a, 0, a.len());
    let mut i: usize = 0;
    while i < b.len()
        invariant
            i <= b.len(),
            r@ == a@ + b@.take(i as int),
        decreases b.len() - i,
    {
        r.push(b[i]);
        assert(a@ + b@.take(i + 1) =~= (a@ + b@.take(i as int)).push(b@[i as int]));
        i += 1;
    }
    assert(b@.take(b.len() as int) =~= b@);
    r
}

/// Unicode lowercase mapping of a string.
pub uninterp spec fn lowercase(s: Seq<char>) -> Seq<char>;

/// `str::to_lowercase`: the Unicode lowercase mapping of `s`, named by
/// [`lowercase`] (full mappings and the final-sigma rule are not stated).
#[verifier::external_body]
pub(crate) fn to_lowercase(s: &str) -> (r: String)
    ensures
        r@ == lowercase(s@),
{
    s.to_lowercase()
}

/// Lowercase mapping of a character vector.
pub(crate) fn lowercase_exec(v: &Vec<char>) -> (r: Vec<char>)
    ensures
        r@ == lowercase(v@),
{
    let s = string_of(v.as_slice());
    let l = to_lowercase(s.as_str());
    chars_of(l.as_str())
}

/// Appends the characters of `s` to `v`.
pub fn append_chars(v: &mut Vec<char>, s: &Vec<char>)
    ensures
        final(v)@ == old(v)@ + s@,
{
    let ghost v0 = v@;
    let mut i: usize = 0;
    while i < s.len()
        invariant
            i <= s.len(),
            v@ == v0 + s@.take(i as int),
        decreases s.len() - i,
    {
        v.push(s[i]);
        assert(v0 + s@.take(i + 1) =~= (v0 + s@.take(i as int)).push(s@[i as int]));
        i += 1;
    }
    assert(s@.take(s.len() as int) =~= s@);
}

/// The decimal digit character for `d < 10`.
pub open spec fn digit_char(d: int) -> char {
    seq!['0', '1', '2', '3', '4', '5', '6', '7', '8', '9'][d]
}

/// Decimal representation of a natural number, without leading zeros.
pub open spec fn decimal(n: nat) -> Seq<char>
    decreases n,
{
    if n < 10 {
        seq![digit_char(n as int)]
    } else {
        decimal(n / 10).push(digit_char((n % 10) as int))
    }
}

fn digit_char_exec(d: usize) -> (c: char)
    requires
        d < 10,
    ensures
        c == digit_char(d as int),
{
    let digits = ['0', '1', '2', '3', '4', '5', '6', '7', '8', '9'];
    assert(digits@ == seq!['0', '1', '2', '3', '4', '5', '6', '7', '8', '9']);
    digits[d]
}

/// Decimal representation of `n`.
pub fn decimal_exec(n: usize) -> (r: Vec<char>)
    ensures
        r@ == decimal(n as nat),
    decreases n,
{
    if n < 10 {
        let mut v: Vec<char> = Vec::new();
        v.push(digit_char_exec(n));
        v
    } else {
        let mut v = decimal_exec(n / 10);
        v.push(digit_char_exec(n % 10));
        v
    }
}

/// Decimal representation of a `u64`.
pub fn decimal_u64_exec(n: u64) -> (r: Vec<char>)
    ensures
        r@ == decimal(n as nat),
    decreases n,
{
    if n < 10 {
        let mut v: Vec<char> = Vec::new();
        v.push(digit_char_exec(n as usize));
        v
    } else {
        let mut v = decimal_u64_exec(n / 10);
        v.push(digit_char_exec((n % 10) as usize));
        v
    }
}

/// Largest integer that JavaScript numbers represent exactly (2^53 - 1).
pub const MAX_SAFE_INTEGER: u64 = 9007199254740991;

/// `s` is a non-empty run of ASCII digits whose value is a safe integer.
pub open spec fn is_safe_digits(s: Seq<char>) -> bool {
    s.len() > 0 && all_digits(s) && digits_value(s) <= MAX_SAFE_INTEGER
}

/// The value of a non-empty run of ASCII digits when it is a safe integer.
pub fn safe_digits_value(s: &Vec<char>) -> (r: Option<u64>)
    ensures
        match r {
            Some(v) => is_safe_digits(s@) && v == digits_value(s@),
            None => !is_safe_digits(s@),
        },
{
    if s.len() == 0 {
        return None;
    }
    let mut i: usize = 0;
    while i < s.len()
        invariant
            i <= s.len(),
            forall|j: int| 0 <= j < i ==> is_digit(#[trigger] s@[j]),
        decreases s.len() - i,
    {
        if !('0' <= s[i] && s[i] <= '9') {
            assert(!is_digit(s@[i as int]));
            return None;
        }
        i += 1;
    }
    assert(all_digits(s@));
    assert(s@[0] != '-' && s@[0] != '+');
    proof {
        lemma_digits_value_nonneg(s@);
    }
    assert(parse_i64(s@) == if digits_value(s@) <= i64::MAX {
        Some(digits_value(s@))
    } else {
        None
    });
    match parse_i64_exec(s) {
        Some(v) => {
            assert(v == digits_value(s@));
            if v >= 0 && v <= 9007199254740991 {
                Some(v as u64)
            } else {
                None
            }
        },
        None => None,
    }
}

/// No piece of `split_char(s, c)` contains `c`.
pub proof fn lemma_split_char_no_sep(s: Seq<char>, c: char, i: int)
    ensures
        0 <= i < split_char(s, c).len() ==> !split_char(s, c)[i].contains(c),
    decreases s.len(),
{
    if s.len() > 0 {
        let t = s.drop_last();
        lemma_split_char_nonempty(t, c);
        if 0 <= i < split_char(t, c).len() {
            lemma_split_char_no_sep(t, c, i);
        }
        let n = split_char(t, c).len();
        lemma_split_char_no_sep(t, c, n - 1);
        if s.last() != c && i == n - 1 {
            let piece = split_char(t, c)[n - 1].push(s.last());
            assert(split_char(s, c)[i] == piece);
            assert forall|k: int| 0 <= k < piece.len() implies piece[k] != c by {
                if k < piece.len() - 1 {
                    assert(piece[k] == split_char(t, c)[n - 1][k]);
                }
            }
        }
    }
}

/// What `String::from_utf8_lossy` makes of a byte string: the decoded
/// text, with each invalid sequence replaced by U+FFFD.
pub uninterp spec fn utf8_lossy(bytes: Seq<u8>) -> Seq<char>;

/// `String::from_utf8_lossy`: the result is named by [`utf8_lossy`]; valid
/// UTF-8 is decoded unchanged (the replacement rules for invalid input are
/// not stated).
#[verifier::external_body]
pub(crate) fn from_utf8_lossy(bytes: &[u8]) -> (r: String)
    ensures
        r@ == utf8_lossy(bytes@),
        vstd::utf8::valid_utf8(bytes@) ==> r@ == vstd::utf8::decode_utf8(bytes@),
{
    String::from_utf8_lossy(bytes).into_owned()
}

} // verus!
